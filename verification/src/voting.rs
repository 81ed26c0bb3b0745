//! The voting pipeline: encode a ballot as an ElGamal ciphertext over the
//! curve, aggregate ciphertexts under point addition, partially decrypt the
//! aggregate, and recover the tally vector by exhaustive search. Every curve
//! result is pinned to its named value, so each stage's output is determined
//! by its inputs.

use vstd::prelude::*;
use vstd::arithmetic::power2::{lemma_pow2_strictly_increases, pow2};

use crate::bits::{base_schedule, find_m_bits, spec_m_bits, spec_schedule};
use crate::curve::{add_of, add_point, affine_of, clone_point, compress_of, encode_message_point,
    gen_mul, gen_mul_of, message_point_of, mul_point, mul_point_u64, mul_scalar_of,
    mul_scalar_u64_of, negate_point_x, negate_x_of, point_compress, scalar_key, scalar_key_of,
    to_affine};
use crate::curve::gen_pow_bytes;
use crate::errors::TallyError;
use crate::rng::rand_nonce;
use crate::search::{search_tally, seq_sum, weighted_sum};

verus! {

/// The second ciphertext component a ballot for option `cast` encodes to:
/// `(2^(cast * m_bits) mod Q) * G + r * P`.
pub open spec fn spec_ballot_c2(
    voting_pub_key: babyjubjub_rs::Point,
    cast: u32,
    r: u64,
    voters: u32,
) -> babyjubjub_rs::PointProjective {
    add_of(
        message_point_of(((cast as nat) * spec_m_bits(voters as nat)) as u64),
        mul_scalar_u64_of(voting_pub_key, r),
    )
}

/// The left fold of point addition over a nonempty list of ciphertext
/// components: the aggregate `sum_j P_j`.
pub open spec fn spec_aggregate(points: Seq<babyjubjub_rs::PointProjective>)
    -> babyjubjub_rs::PointProjective
    recommends
        points.len() >= 1,
    decreases points.len(),
{
    if points.len() <= 1 {
        points[0]
    } else {
        add_of(spec_aggregate(points.drop_last()), points.last())
    }
}

/// The curve point the partial decryption yields: `C2 - sk * C1`, with the
/// subtraction done by negating the x-coordinate of `sk * C1`.
pub open spec fn spec_decrypted_point(
    c1_aggr: babyjubjub_rs::PointProjective,
    c2_aggr: babyjubjub_rs::PointProjective,
    sk: babyjubjub_rs::PrivateKey,
) -> babyjubjub_rs::PointProjective {
    add_of(c2_aggr, negate_x_of(mul_scalar_of(affine_of(c1_aggr), scalar_key_of(sk))))
}

/// The second ciphertext component of one ballot for option `cast`:
/// `(2^(cast * m_bits) mod Q) * G + r * P`, where `P` is the voting public
/// key and `m_bits` the digit width for `voters`.
pub fn encode_ballot_cast(
    voting_pub_key: &babyjubjub_rs::Point,
    cast: u32,
    r: u64,
    voters: u32,
) -> (c: babyjubjub_rs::PointProjective)
    ensures
        c == spec_ballot_c2(*voting_pub_key, cast, r, voters),
{
    let m_bits = find_m_bits(voters);
    proof {
        assert((cast as nat) * (m_bits as nat) <= 0xffff_ffff * 32) by (nonlinear_arith)
            requires
                cast <= 0xffff_ffff,
                m_bits <= 32,
        ;
    }
    let exponent: u64 = (cast as u64) * (m_bits as u64);
    proof {
        assert(exponent == ((cast as nat) * spec_m_bits(voters as nat)) as u64);
    }
    let m_g = encode_message_point(exponent);
    let r_p = mul_point_u64(voting_pub_key, r);
    add_point(&m_g, &r_p)
}

/// One encrypted ballot: `(C1, C2) = (r * G, (2^(cast * m_bits) mod Q) * G + r * P)`.
pub fn encrypt_ballot(
    voting_pub_key: &babyjubjub_rs::Point,
    cast: u32,
    r: u64,
    voters: u32,
) -> (c: (babyjubjub_rs::PointProjective, babyjubjub_rs::PointProjective))
    ensures
        c.0 == gen_mul_of(r),
        c.1 == spec_ballot_c2(*voting_pub_key, cast, r, voters),
{
    let c1 = gen_mul(r);
    let c2 = encode_ballot_cast(voting_pub_key, cast, r, voters);
    (c1, c2)
}

/// The fold of point addition over one component of a nonempty list of
/// ciphertexts: the aggregate `sum_j P_j`. For a pair of ciphertexts the
/// aggregate is the same in either order, since point addition is
/// commutative.
pub fn aggregate_points(points: &Vec<babyjubjub_rs::PointProjective>)
    -> (r: babyjubjub_rs::PointProjective)
    requires
        points@.len() >= 1,
    ensures
        r == spec_aggregate(points@),
        points@.len() == 2 ==> r == add_of(points@[1], points@[0]),
{
    let mut acc = clone_point(&points[0]);
    proof {
        assert(points@.take(1)[0] == points@[0]);
        assert(acc == spec_aggregate(points@.take(1)));
    }
    let mut i: usize = 1;
    while i < points.len()
        invariant
            1 <= i <= points@.len(),
            acc == spec_aggregate(points@.take(i as int)),
            points@.len() == 2 && i == 2 ==> acc == add_of(points@[1], points@[0]),
        decreases points@.len() - i,
    {
        proof {
            assert(points@.take(i + 1).drop_last() =~= points@.take(i as int));
            assert(points@.take(i + 1).last() == points@[i as int]);
        }
        acc = add_point(&acc, &points[i]);
        i = i + 1;
    }
    proof {
        assert(points@.take(points@.len() as int) =~= points@);
    }
    acc
}

/// Recover the tally vector from the curve point `m` that encodes it:
/// build the base schedule for `voters`, rule out 128-bit overflow, and run
/// the exhaustive search against the compressed target.
///
/// Fails with `ArithmeticOverflow` exactly when a digit's weighted
/// contribution could exceed the 128-bit range, and with `TallyUndecodable`
/// exactly when no tuple in the whole space encodes the target.
pub fn exhaustive_search(m: &babyjubjub_rs::PointProjective, voters: u32, options: usize)
    -> (r: Result<Vec<u128>, TallyError>)
    requires
        2 <= options <= 10,
    ensures
        r matches Ok(v) ==> v@.len() == options && seq_sum(v@) <= voters && gen_pow_bytes(
            weighted_sum(v@, spec_schedule(options as int, spec_m_bits(voters as nat))),
        ) == compress_of(*m),
        (r == Err::<Vec<u128>, TallyError>(TallyError::ArithmeticOverflow)) <==> ((options - 1)
            * spec_m_bits(voters as nat) >= 128 || (voters as nat) * pow2(
            ((options - 1) * spec_m_bits(voters as nat)) as nat,
        ) > u128::MAX),
        (r == Err::<Vec<u128>, TallyError>(TallyError::TallyUndecodable)) <==> ((options - 1)
            * spec_m_bits(voters as nat) < 128 && (voters as nat) * pow2(
            ((options - 1) * spec_m_bits(voters as nat)) as nat,
        ) <= u128::MAX && (forall|t: Seq<u128>|
            t.len() == options && seq_sum(t) <= voters ==> gen_pow_bytes(
                #[trigger] weighted_sum(
                    t,
                    spec_schedule(options as int, spec_m_bits(voters as nat)),
                ),
            ) != compress_of(*m))),
{
    let m_bits = find_m_bits(voters);
    let bases = match base_schedule(options, m_bits) {
        Ok(b) => b,
        Err(e) => {
            return Err(e);
        },
    };
    proof {
        assert forall|i: int, j: int| #![trigger bases@[i], bases@[j]] 0 <= i <= j
            < bases@.len() implies bases@[i] <= bases@[j] by {
            assert(i * m_bits <= j * m_bits) by (nonlinear_arith)
                requires
                    0 <= i <= j,
                    m_bits >= 0,
            ;
            if i * m_bits < j * m_bits {
                lemma_pow2_strictly_increases((i * (m_bits as nat)) as nat, (j * (m_bits as nat)) as nat);
            }
        }
    }
    let b_last = bases[options - 1];
    match (voters as u128).checked_mul(b_last) {
        Some(_) => {},
        None => {
            return Err(TallyError::ArithmeticOverflow);
        },
    }
    let target = point_compress(m);
    let r = search_tally(&target, voters, &bases);
    proof {
        assert(!(r == Err::<Vec<u128>, TallyError>(TallyError::ArithmeticOverflow)));
        if r is Ok {
            let v = r->Ok_0;
            assert(gen_pow_bytes(weighted_sum(v@, bases@)) == target@);
        }
    }
    r
}

/// The partial decryption `M = C2_aggr - sk * C1_aggr`: strip the shared
/// secret from the aggregate, leaving the curve point that encodes the
/// tally plaintext.
pub fn partial_decrypt(
    c1_aggr: &babyjubjub_rs::PointProjective,
    c2_aggr: &babyjubjub_rs::PointProjective,
    sk: &babyjubjub_rs::PrivateKey,
) -> (m: babyjubjub_rs::PointProjective)
    ensures
        m == spec_decrypted_point(*c1_aggr, *c2_aggr, *sk),
{
    let c1_affine = to_affine(c1_aggr);
    let sk_scalar = scalar_key(sk);
    let c1r = mul_point(&c1_affine, &sk_scalar);
    let neg = negate_point_x(&c1r);
    add_point(c2_aggr, &neg)
}

/// The partial decryption `M = C2_aggr - sk * C1_aggr`, followed by the
/// exhaustive recovery of the tally vector from `M`.
pub fn decrypt_results(
    c1_aggr: &babyjubjub_rs::PointProjective,
    c2_aggr: &babyjubjub_rs::PointProjective,
    sk: &babyjubjub_rs::PrivateKey,
    voters: u32,
    options: usize,
) -> (r: Result<Vec<u128>, TallyError>)
    requires
        2 <= options <= 10,
    ensures
        r matches Ok(v) ==> v@.len() == options && seq_sum(v@) <= voters && gen_pow_bytes(
            weighted_sum(v@, spec_schedule(options as int, spec_m_bits(voters as nat))),
        ) == compress_of(spec_decrypted_point(*c1_aggr, *c2_aggr, *sk)),
        (r == Err::<Vec<u128>, TallyError>(TallyError::ArithmeticOverflow)) <==> ((options - 1)
            * spec_m_bits(voters as nat) >= 128 || (voters as nat) * pow2(
            ((options - 1) * spec_m_bits(voters as nat)) as nat,
        ) > u128::MAX),
        (r == Err::<Vec<u128>, TallyError>(TallyError::TallyUndecodable)) <==> ((options - 1)
            * spec_m_bits(voters as nat) < 128 && (voters as nat) * pow2(
            ((options - 1) * spec_m_bits(voters as nat)) as nat,
        ) <= u128::MAX && (forall|t: Seq<u128>|
            t.len() == options && seq_sum(t) <= voters ==> gen_pow_bytes(
                #[trigger] weighted_sum(
                    t,
                    spec_schedule(options as int, spec_m_bits(voters as nat)),
                ),
            ) != compress_of(spec_decrypted_point(*c1_aggr, *c2_aggr, *sk)))),
{
    let m_g = partial_decrypt(c1_aggr, c2_aggr, sk);
    exhaustive_search(&m_g, voters, options)
}

/// How many of the ballots `0, 1, ..., n - 1` fall on option `j` when ballot
/// `i` votes for option `i % k`: the round-robin histogram of the benchmark.
pub open spec fn spec_cast_count(n: nat, k: nat, j: nat) -> nat
    decreases n,
{
    if n == 0 {
        0
    } else {
        spec_cast_count((n - 1) as nat, k, j) + if (n - 1) % (k as int) == j {
            1 as nat
        } else {
            0 as nat
        }
    }
}

/// One benchmark cell: cast `voters` ballots round-robin over the options,
/// encrypt each with a fresh nonce, aggregate, partially decrypt, and
/// recover the tally by exhaustive search. Returns the histogram that was
/// cast together with the recovered tally vector.
#[verifier::loop_isolation(false)]
pub fn encrypt_decrypt(
    options: usize,
    voters: u32,
    pk: &babyjubjub_rs::Point,
    sk: &babyjubjub_rs::PrivateKey,
) -> (r: Result<(Vec<u128>, Vec<u128>), TallyError>)
    requires
        2 <= options <= 10,
        voters >= 1,
    ensures
        r matches Ok(p) ==> {
            &&& p.0@.len() == options
            &&& forall|j: int|
                0 <= j < options ==> p.0@[j] == spec_cast_count(
                    voters as nat,
                    options as nat,
                    j as nat,
                )
            &&& p.1@.len() == options
            &&& seq_sum(p.1@) <= voters
        },
        (r == Err::<(Vec<u128>, Vec<u128>), TallyError>(TallyError::ArithmeticOverflow)) <==> ((
        options - 1) * spec_m_bits(voters as nat) >= 128 || (voters as nat) * pow2(
            ((options - 1) * spec_m_bits(voters as nat)) as nat,
        ) > u128::MAX),
{
    let mut casts: Vec<u128> = Vec::new();
    let mut j: usize = 0;
    while j < options
        invariant
            j <= options,
            casts@.len() == j,
            forall|q: int| 0 <= q < j ==> casts@[q] == 0,
        decreases options - j,
    {
        casts.push(0);
        j = j + 1;
    }
    let mut c1s: Vec<babyjubjub_rs::PointProjective> = Vec::new();
    let mut c2s: Vec<babyjubjub_rs::PointProjective> = Vec::new();
    let mut i: u32 = 0;
    while i < voters
        invariant
            i <= voters,
            casts@.len() == options,
            c1s@.len() == i,
            c2s@.len() == i,
            forall|q: int|
                0 <= q < options ==> casts@[q] == spec_cast_count(
                    i as nat,
                    options as nat,
                    q as nat,
                ),
            forall|q: int| 0 <= q < options ==> casts@[q] <= i,
        decreases voters - i,
    {
        let index = (i as usize) % options;
        let current = casts[index];
        casts.set(index, current + 1);
        let r = rand_nonce();
        let (c1, c2) = encrypt_ballot(pk, index as u32, r, voters);
        c1s.push(c1);
        c2s.push(c2);
        i = i + 1;
    }
    let c1_aggr = aggregate_points(&c1s);
    let c2_aggr = aggregate_points(&c2s);
    let recovered = match decrypt_results(&c1_aggr, &c2_aggr, sk, voters, options) {
        Ok(v) => v,
        Err(e) => {
            return Err(e);
        },
    };
    Ok((casts, recovered))
}

} // verus!
