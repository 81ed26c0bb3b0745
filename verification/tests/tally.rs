use ff_ce::PrimeField;
use num_bigint::BigInt;

use fdkg_tally::bits::{base_schedule, find_m_bits};
use fdkg_tally::curve::is_decoded_match;
use fdkg_tally::errors::TallyError;
use fdkg_tally::search::{search_slice, search_tally};
use fdkg_tally::single::base_search2;
use fdkg_tally::voting::{aggregate_points, decrypt_results, encrypt_ballot, encrypt_decrypt,
    exhaustive_search, partial_decrypt};

fn base_point() -> babyjubjub_rs::Point {
    babyjubjub_rs::Point {
        x: babyjubjub_rs::Fr::from_str(
            "5299619240641551281634865583518297030282874472190772894086521144482721001553",
        )
        .unwrap(),
        y: babyjubjub_rs::Fr::from_str(
            "16950150798460657717958625567821834550301663161624707787222815936182638968203",
        )
        .unwrap(),
    }
}

fn scalar_point(s: u64) -> babyjubjub_rs::PointProjective {
    base_point().mul_scalar(&BigInt::from(s)).projective()
}

#[test]
fn find_m_bits_exact() {
    assert_eq!(find_m_bits(0), 0);
    assert_eq!(find_m_bits(1), 1);
    assert_eq!(find_m_bits(2), 2);
    assert_eq!(find_m_bits(3), 2);
    assert_eq!(find_m_bits(4), 3);
    assert_eq!(find_m_bits(10), 4);
    assert_eq!(find_m_bits(50), 6);
    assert_eq!(find_m_bits(255), 8);
    assert_eq!(find_m_bits(256), 9);
}

#[test]
fn find_m_bits_largest() {
    assert_eq!(find_m_bits(u32::MAX), 32);
    assert_eq!(find_m_bits(1 << 31), 32);
    assert_eq!(find_m_bits((1 << 31) - 1), 31);
}

#[test]
fn base_schedule_values() {
    let b = base_schedule(3, 4).unwrap();
    assert_eq!(b, vec![1u128, 16, 256]);
    let b2 = base_schedule(4, 32).unwrap();
    assert_eq!(b2[3], 1u128 << 96);
}

#[test]
fn base_schedule_overflow() {
    assert_eq!(base_schedule(5, 32), Err(TallyError::ArithmeticOverflow));
}

#[test]
fn round_trip_two_options() {
    let sk = babyjubjub_rs::new_key();
    let pk = sk.public();
    let (casts, recovered) = encrypt_decrypt(2, 5, &pk, &sk).unwrap();
    assert_eq!(casts, vec![3u128, 2]);
    assert_eq!(recovered, casts);
}

#[test]
fn round_trip_three_options() {
    let sk = babyjubjub_rs::new_key();
    let pk = sk.public();
    let (casts, recovered) = encrypt_decrypt(3, 10, &pk, &sk).unwrap();
    assert_eq!(casts, vec![4u128, 3, 3]);
    assert_eq!(recovered, casts);
}

#[test]
fn zero_voters_tally() {
    let m = scalar_point(0);
    let r = exhaustive_search(&m, 0, 2).unwrap();
    assert_eq!(r, vec![0u128, 0]);
}

#[test]
fn single_ballot_recovered() {
    let sk = babyjubjub_rs::new_key();
    let pk = sk.public();
    let (c1, c2) = encrypt_ballot(&pk, 1, 12345, 1);
    let r = decrypt_results(&c1, &c2, &sk, 1, 3).unwrap();
    assert_eq!(r, vec![0u128, 1, 0]);
}

#[test]
fn aggregation_commutes() {
    let sk = babyjubjub_rs::new_key();
    let pk = sk.public();
    let ballots: Vec<_> = [(0u32, 11u64), (1, 22), (2, 33), (1, 44)]
        .iter()
        .map(|&(c, r)| encrypt_ballot(&pk, c, r, 4))
        .collect();
    let c1s: Vec<_> = ballots.iter().map(|b| b.0.clone()).collect();
    let c2s: Vec<_> = ballots.iter().map(|b| b.1.clone()).collect();
    let c1s_shuffled = vec![
        c1s[2].clone(),
        c1s[0].clone(),
        c1s[3].clone(),
        c1s[1].clone(),
    ];
    let c2s_shuffled = vec![
        c2s[2].clone(),
        c2s[0].clone(),
        c2s[3].clone(),
        c2s[1].clone(),
    ];
    let a1 = aggregate_points(&c1s).affine().compress();
    let a1s = aggregate_points(&c1s_shuffled).affine().compress();
    assert_eq!(a1, a1s);
    let a2 = aggregate_points(&c2s).affine().compress();
    let a2s = aggregate_points(&c2s_shuffled).affine().compress();
    assert_eq!(a2, a2s);
}

#[test]
fn searcher_two_digit_target() {
    // 3 * 1 + 2 * 8 = 19, the encoding of the tally (3, 2) with base 8.
    let m = scalar_point(19);
    let r = base_search2(m, 5, &vec![1u128, 8]).unwrap();
    assert_eq!(r, vec![3u128, 2]);
}

#[test]
fn search_slice_hit_and_miss() {
    let target = scalar_point(19).affine().compress().to_vec();
    let hit = search_slice(3, &target, 5, &vec![1u128, 8]);
    assert_eq!(hit, Some(vec![3u128, 2]));
    let miss = search_slice(2, &target, 5, &vec![1u128, 8]);
    assert_eq!(miss, None);
}

#[test]
fn search_tally_undecodable() {
    let target = vec![0u8; 32];
    let r = search_tally(&target, 2, &vec![1u128, 4]);
    assert_eq!(r, Err(TallyError::TallyUndecodable));
}

#[test]
fn decoded_match_oracle() {
    let bytes7 = base_point()
        .mul_scalar(&BigInt::from(7u32))
        .compress()
        .to_vec();
    assert!(is_decoded_match(7, &bytes7));
    assert!(!is_decoded_match(8, &bytes7));
    assert!(!is_decoded_match(0, &bytes7));
}

#[test]
fn exhaustive_search_overflow() {
    let m = scalar_point(1);
    let r = exhaustive_search(&m, u32::MAX, 10);
    assert_eq!(r, Err(TallyError::ArithmeticOverflow));
}

#[test]
fn ballot_first_component_is_nonce_power() {
    let sk = babyjubjub_rs::new_key();
    let pk = sk.public();
    let (c1, _c2) = encrypt_ballot(&pk, 0, 5, 10);
    let expected = scalar_point(5).affine().compress();
    assert_eq!(c1.affine().compress(), expected);
}

#[test]
fn partial_decrypt_strips_mask() {
    let sk = babyjubjub_rs::new_key();
    let pk = sk.public();
    let r = BigInt::from(777u32);
    let c1 = base_point().mul_scalar(&r).projective();
    let masked = base_point()
        .mul_scalar(&BigInt::from(42u32))
        .projective()
        .add(&pk.mul_scalar(&r).projective());
    let m = partial_decrypt(&c1, &masked, &sk);
    let expected = scalar_point(42).affine().compress();
    assert_eq!(m.affine().compress(), expected);
}
