//! The exhaustive tally searcher: recover the tally vector `(x_1, ..., x_k)`
//! from the curve point encoding `(sum_i x_i * b_i) * G`, by enumerating every
//! nonnegative tuple with `x_1 + ... + x_k <= voters` and testing its scalar
//! against the target point.

use vstd::prelude::*;
use vstd::arithmetic::power2::{lemma_pow2_pos, lemma_pow2_strictly_increases, pow2};

use crate::curve::{gen_pow_bytes, is_decoded_match};
use crate::errors::TallyError;

verus! {

/// The number of ballots a tally tuple accounts for: the sum of its digits.
pub open spec fn seq_sum(s: Seq<u128>) -> nat
    decreases s.len(),
{
    if s.len() == 0 {
        0
    } else {
        (s[0] as nat) + seq_sum(s.drop_first())
    }
}

/// The scalar a tally tuple encodes to: its digits weighted by the base
/// schedule, `sum_i x[i] * b[i]`.
pub open spec fn weighted_sum(x: Seq<u128>, b: Seq<u128>) -> nat
    decreases x.len(),
{
    if x.len() == 0 {
        0
    } else {
        (x[0] as nat) * (b[0] as nat) + weighted_sum(x.drop_first(), b.drop_first())
    }
}

/// Extending a tuple by one digit adds that digit's weighted contribution.
pub proof fn lemma_weighted_sum_push(p: Seq<u128>, b: Seq<u128>, x: u128)
    requires
        p.len() < b.len(),
    ensures
        weighted_sum(p.push(x), b) == weighted_sum(p, b) + (x as nat) * (b[p.len() as int] as nat),
    decreases p.len(),
{
    if p.len() == 0 {
        assert(p.push(x).drop_first() =~= Seq::<u128>::empty());
        assert(p.push(x)[0] == x);
        assert(weighted_sum(Seq::<u128>::empty(), b.drop_first()) == 0);
        assert(weighted_sum(p.push(x), b) == (x as nat) * (b[0] as nat));
        assert(weighted_sum(p, b) == 0);
    } else {
        assert(p.push(x).drop_first() =~= p.drop_first().push(x));
        lemma_weighted_sum_push(p.drop_first(), b.drop_first(), x);
        assert(b.drop_first()[p.len() - 1] == b[p.len() as int]);
        assert(weighted_sum(p.push(x), b) == (p[0] as nat) * (b[0] as nat) + weighted_sum(
            p.drop_first().push(x),
            b.drop_first(),
        ));
    }
}

/// One level of the recursive enumeration: with the digits before `start`
/// fixed (their weighted sum is `acc`), try every completion whose digits sum
/// to at most `budget`, and return the first completion whose full tuple
/// matches the target.
#[verifier::loop_isolation(false)]
fn search_suffix(
    target: &Vec<u8>,
    bases: &Vec<u128>,
    start: usize,
    budget: u64,
    acc: u128,
    Ghost(prefix): Ghost<Seq<u128>>,
) -> (r: Option<Vec<u128>>)
    requires
        budget <= u32::MAX,
        start <= bases@.len(),
        bases@.len() >= 1,
        forall|j: int| 0 <= j < bases@.len() ==> #[trigger] bases@[j] <= bases@[bases@.len() - 1],
        prefix.len() == start,
        acc as nat == weighted_sum(prefix, bases@),
        acc as nat + (budget as nat) * (bases@[bases@.len() - 1] as nat) <= u128::MAX,
    ensures
        r matches Some(v) ==> {
            &&& v@.len() == bases@.len() - start
            &&& seq_sum(v@) <= budget
            &&& gen_pow_bytes(weighted_sum(prefix + v@, bases@)) == target@
        },
        r is None ==> forall|t: Seq<u128>|
            t.len() == bases@.len() - start && seq_sum(t) <= budget
                ==> gen_pow_bytes(#[trigger] weighted_sum(prefix + t, bases@)) != target@,
    decreases bases@.len() - start,
{
    let ghost blast = bases@[bases@.len() - 1] as nat;
    if start == bases.len() {
        if is_decoded_match(acc, target) {
            proof {
                assert(prefix + Seq::<u128>::empty() =~= prefix);
            }
            return Some(Vec::new());
        } else {
            assert forall|t: Seq<u128>| t.len() == bases@.len() - start && seq_sum(t) <= budget
                implies gen_pow_bytes(#[trigger] weighted_sum(prefix + t, bases@)) != target@ by {
                assert(t =~= Seq::<u128>::empty());
                assert(prefix + t =~= prefix);
            }
            return None;
        }
    }
    let b_i = bases[start];
    let mut x: u64 = 0;
    while x <= budget
        invariant
            start < bases@.len(),
            bases@.len() >= 1,
            forall|j: int| 0 <= j < bases@.len() ==> #[trigger] bases@[j] <= bases@[bases@.len() - 1],
            prefix.len() == start,
            acc as nat == weighted_sum(prefix, bases@),
            acc as nat + (budget as nat) * blast <= u128::MAX,
            blast == bases@[bases@.len() - 1] as nat,
            b_i == bases@[start as int],
            x <= budget + 1,
            forall|t: Seq<u128>|
                t.len() == bases@.len() - start && seq_sum(t) <= budget && (t[0] as nat) < x
                    ==> gen_pow_bytes(#[trigger] weighted_sum(prefix + t, bases@)) != target@,
        decreases budget + 1 - x,
    {
        proof {
            assert((x as nat) * (b_i as nat) + ((budget - x) as nat) * blast
                <= (budget as nat) * blast) by (nonlinear_arith)
                requires
                    x <= budget,
                    (b_i as nat) <= blast,
            ;
        }
        let digit_weight: u128 = (x as u128) * b_i;
        let acc2: u128 = acc + digit_weight;
        proof {
            lemma_weighted_sum_push(prefix, bases@, x as u128);
        }
        let r = search_suffix(
            target,
            bases,
            start + 1,
            budget - x,
            acc2,
            Ghost(prefix.push(x as u128)),
        );
        match r {
            Some(v) => {
                let mut v2 = v;
                v2.insert(0, x as u128);
                proof {
                    assert(v2@.drop_first() =~= v@);
                    assert(v2@[0] == x as u128);
                    assert(seq_sum(v2@) == (x as nat) + seq_sum(v@));
                    assert(prefix + v2@ =~= prefix.push(x as u128) + v@);
                }
                return Some(v2);
            },
            None => {
                assert forall|t: Seq<u128>|
                    t.len() == bases@.len() - start && seq_sum(t) <= budget
                        && (t[0] as nat) < x + 1
                    implies gen_pow_bytes(#[trigger] weighted_sum(prefix + t, bases@))
                        != target@ by {
                    if (t[0] as nat) == x as nat {
                        let t2 = t.drop_first();
                        assert(seq_sum(t) == (t[0] as nat) + seq_sum(t2));
                        assert(prefix + t =~= prefix.push(x as u128) + t2);
                        assert(gen_pow_bytes(weighted_sum(prefix.push(x as u128) + t2, bases@))
                            != target@);
                    }
                }
            },
        }
        x = x + 1;
    }
    assert forall|t: Seq<u128>| t.len() == bases@.len() - start && seq_sum(t) <= budget
        implies gen_pow_bytes(#[trigger] weighted_sum(prefix + t, bases@)) != target@ by {
        assert(seq_sum(t) == (t[0] as nat) + seq_sum(t.drop_first()));
        assert((t[0] as nat) < x);
    }
    None
}

/// One outer slice of the search: only tuples whose first digit is `x1` are
/// tried. The slices for distinct `x1` are independent, which is what lets a
/// parallel driver hand them to separate workers.
pub fn search_slice(x1: u64, target: &Vec<u8>, voters: u32, bases: &Vec<u128>)
    -> (r: Option<Vec<u128>>)
    requires
        bases@.len() >= 1,
        forall|j: int| 0 <= j < bases@.len() ==> #[trigger] bases@[j] <= bases@[bases@.len() - 1],
        (voters as nat) * (bases@[bases@.len() - 1] as nat) <= u128::MAX,
        x1 <= voters,
    ensures
        r matches Some(v) ==> {
            &&& v@.len() == bases@.len()
            &&& v@[0] == x1 as u128
            &&& seq_sum(v@) <= voters
            &&& gen_pow_bytes(weighted_sum(v@, bases@)) == target@
        },
        r is None ==> forall|t: Seq<u128>|
            t.len() == bases@.len() && (t[0] as nat) == x1 && seq_sum(t) <= voters
                ==> gen_pow_bytes(#[trigger] weighted_sum(t, bases@)) != target@,
{
    let ghost blast = bases@[bases@.len() - 1] as nat;
    let b_0 = bases[0];
    proof {
        assert((x1 as nat) * (b_0 as nat) + ((voters - x1) as nat) * blast
            <= (voters as nat) * blast) by (nonlinear_arith)
            requires
                x1 <= voters,
                (b_0 as nat) <= blast,
        ;
        lemma_weighted_sum_push(Seq::<u128>::empty(), bases@, x1 as u128);
    }
    let acc: u128 = (x1 as u128) * b_0;
    let ghost prefix = Seq::<u128>::empty().push(x1 as u128);
    let r = search_suffix(target, bases, 1, voters as u64 - x1, acc, Ghost(prefix));
    match r {
        Some(v) => {
            let mut v2 = v;
            v2.insert(0, x1 as u128);
            proof {
                assert(v2@.drop_first() =~= v@);
                assert(v2@[0] == x1 as u128);
                assert(seq_sum(v2@) == (x1 as nat) + seq_sum(v@));
                assert(v2@ =~= prefix + v@);
            }
            Some(v2)
        },
        None => {
            assert forall|t: Seq<u128>|
                t.len() == bases@.len() && (t[0] as nat) == x1 && seq_sum(t) <= voters
                implies gen_pow_bytes(#[trigger] weighted_sum(t, bases@)) != target@ by {
                let t2 = t.drop_first();
                assert(seq_sum(t) == (t[0] as nat) + seq_sum(t2));
                assert(t =~= prefix + t2);
                assert(gen_pow_bytes(weighted_sum(prefix + t2, bases@)) != target@);
            }
            None
        },
    }
}

/// The full exhaustive search over every tuple with digit sum at most
/// `voters`, against a compressed target point. Returns a matching tuple, or
/// `TallyUndecodable` exactly when no tuple in the space matches.
#[verifier::loop_isolation(false)]
pub fn search_tally(target: &Vec<u8>, voters: u32, bases: &Vec<u128>)
    -> (r: Result<Vec<u128>, TallyError>)
    requires
        bases@.len() >= 1,
        forall|j: int| 0 <= j < bases@.len() ==> #[trigger] bases@[j] <= bases@[bases@.len() - 1],
        (voters as nat) * (bases@[bases@.len() - 1] as nat) <= u128::MAX,
    ensures
        r matches Ok(v) ==> {
            &&& v@.len() == bases@.len()
            &&& seq_sum(v@) <= voters
            &&& gen_pow_bytes(weighted_sum(v@, bases@)) == target@
        },
        r is Err ==> r == Err::<Vec<u128>, TallyError>(TallyError::TallyUndecodable)
            && (forall|t: Seq<u128>| t.len() == bases@.len() && seq_sum(t) <= voters
                ==> gen_pow_bytes(#[trigger] weighted_sum(t, bases@)) != target@),
{
    let mut x1: u64 = 0;
    while x1 <= voters as u64
        invariant
            bases@.len() >= 1,
            forall|j: int| 0 <= j < bases@.len() ==> #[trigger] bases@[j] <= bases@[bases@.len() - 1],
            (voters as nat) * (bases@[bases@.len() - 1] as nat) <= u128::MAX,
            x1 <= voters as u64 + 1,
            forall|t: Seq<u128>|
                t.len() == bases@.len() && seq_sum(t) <= voters && (t[0] as nat) < x1
                    ==> gen_pow_bytes(#[trigger] weighted_sum(t, bases@)) != target@,
        decreases voters as u64 + 1 - x1,
    {
        match search_slice(x1, target, voters, bases) {
            Some(v) => {
                return Ok(v);
            },
            None => {},
        }
        x1 = x1 + 1;
    }
    assert forall|t: Seq<u128>| t.len() == bases@.len() && seq_sum(t) <= voters
        implies gen_pow_bytes(#[trigger] weighted_sum(t, bases@)) != target@ by {
        assert(seq_sum(t) == (t[0] as nat) + seq_sum(t.drop_first()));
        assert((t[0] as nat) < x1);
    }
    Err(TallyError::TallyUndecodable)
}

/// Appending a digit adds it to the digit sum.
pub proof fn lemma_seq_sum_push(p: Seq<u128>, z: u128)
    ensures
        seq_sum(p.push(z)) == seq_sum(p) + z,
    decreases p.len(),
{
    if p.len() == 0 {
        assert(p.push(z).drop_first() =~= Seq::<u128>::empty());
        assert(p.push(z)[0] == z);
        assert(seq_sum(Seq::<u128>::empty()) == 0);
    } else {
        assert(p.push(z).drop_first() =~= p.drop_first().push(z));
        lemma_seq_sum_push(p.drop_first(), z);
    }
}

/// A tuple's weighted sum is at most its digit sum times its largest base.
pub proof fn lemma_weighted_sum_bound(t: Seq<u128>, b: Seq<u128>)
    requires
        t.len() >= 1,
        t.len() <= b.len(),
        forall|i: int, j: int| #![trigger b[i], b[j]] 0 <= i <= j < b.len() ==> b[i] <= b[j],
    ensures
        weighted_sum(t, b) <= seq_sum(t) * (b[t.len() - 1] as nat),
    decreases t.len(),
{
    let l = t.len() as int;
    let t0 = t.drop_last();
    assert(t == t0.push(t.last()));
    lemma_weighted_sum_push(t0, b, t.last());
    lemma_seq_sum_push(t0, t.last());
    if t.len() == 1 {
        assert(weighted_sum(t0, b) == 0);
    } else {
        lemma_weighted_sum_bound(t0, b);
        // weighted_sum(t0, b) <= seq_sum(t0) * b[l - 2] <= seq_sum(t0) * b[l - 1]
        assert(seq_sum(t0) * (b[l - 2] as nat) <= seq_sum(t0) * (b[l - 1] as nat))
            by (nonlinear_arith)
            requires
                (b[l - 2] as nat) <= (b[l - 1] as nat),
        ;
    }
    assert(seq_sum(t0) * (b[l - 1] as nat) + (t.last() as nat) * (b[l - 1] as nat)
        == (seq_sum(t0) + t.last() as nat) * (b[l - 1] as nat)) by (nonlinear_arith);
}

/// Digit uniqueness of the tally encoding: within the ballot budget, two
/// tuples that encode to the same scalar under the base schedule are the same
/// tuple. This is why any tuple the searcher finds is the honest tally: the
/// schedule leaves each digit a block of `m_bits` bits, and no digit can
/// exceed `voters`, so digits cannot interfere.
pub proof fn lemma_unique_decoding(
    x: Seq<u128>,
    y: Seq<u128>,
    b: Seq<u128>,
    voters: u32,
    m_bits: nat,
)
    requires
        x.len() == y.len(),
        x.len() <= b.len(),
        forall|j: int| 0 <= j < b.len() ==> b[j] == pow2((j * m_bits) as nat),
        (voters as nat) < pow2(m_bits),
        seq_sum(x) <= voters,
        seq_sum(y) <= voters,
        weighted_sum(x, b) == weighted_sum(y, b),
    ensures
        x =~= y,
    decreases x.len(),
{
    if x.len() == 0 {
        assert(x =~= y);
    } else {
        let l = x.len() as int;
        let x0 = x.drop_last();
        let y0 = y.drop_last();
        assert(x == x0.push(x.last()));
        assert(y == y0.push(y.last()));
        lemma_weighted_sum_push(x0, b, x.last());
        lemma_weighted_sum_push(y0, b, y.last());
        lemma_seq_sum_push(x0, x.last());
        lemma_seq_sum_push(y0, y.last());
        let base_top = b[l - 1] as nat;
        // The digits below the top contribute less than one top base.
        if x.len() == 1 {
            assert(weighted_sum(x0, b) == 0);
            assert(weighted_sum(y0, b) == 0);
            lemma_pow2_pos((0 * m_bits) as nat);
        } else {
            assert forall|i: int, j: int| #![trigger b[i], b[j]] 0 <= i <= j < b.len()
                implies b[i] <= b[j] by {
                assert(i * m_bits <= j * m_bits) by (nonlinear_arith)
                    requires
                        0 <= i <= j,
                        m_bits >= 0,
                ;
                if i * m_bits < j * m_bits {
                    lemma_pow2_strictly_increases((i * m_bits) as nat, (j * m_bits) as nat);
                }
            }
            lemma_weighted_sum_bound(x0, b);
            lemma_weighted_sum_bound(y0, b);
            crate::bits::lemma_base_schedule_gap(b, m_bits, voters, l - 2);
            // weighted_sum(x0, b) <= seq_sum(x0) * b[l-2] <= voters * b[l-2] < b[l-1]
            assert(seq_sum(x0) * (b[l - 2] as nat) <= (voters as nat) * (b[l - 2] as nat))
                by (nonlinear_arith)
                requires
                    seq_sum(x0) <= voters as nat,
            ;
            assert(seq_sum(y0) * (b[l - 2] as nat) <= (voters as nat) * (b[l - 2] as nat))
                by (nonlinear_arith)
                requires
                    seq_sum(y0) <= voters as nat,
            ;
        }
        assert(weighted_sum(x0, b) < base_top);
        assert(weighted_sum(y0, b) < base_top);
        // Quotient-remainder uniqueness at the top digit.
        assert(x.last() == y.last()) by (nonlinear_arith)
            requires
                weighted_sum(x0, b) < base_top,
                weighted_sum(y0, b) < base_top,
                weighted_sum(x0, b) + (x.last() as nat) * base_top == weighted_sum(y0, b) + (
                y.last() as nat) * base_top,
        ;
        assert(weighted_sum(x0, b) == weighted_sum(y0, b));
        lemma_unique_decoding(x0, y0, b, voters, m_bits);
        assert(x =~= y);
    }
}

/// With no ballots cast, the only tuple in the search space is all zeros.
pub proof fn lemma_zero_sum_tuple(t: Seq<u128>)
    requires
        seq_sum(t) == 0,
    ensures
        forall|i: int| 0 <= i < t.len() ==> t[i] == 0,
    decreases t.len(),
{
    if t.len() > 0 {
        lemma_zero_sum_tuple(t.drop_first());
        assert forall|i: int| 0 <= i < t.len() implies t[i] == 0 by {
            if i > 0 {
                assert(t.drop_first()[i - 1] == t[i]);
            }
        }
    }
}

/// With exactly one ballot cast, the tally tuple has exactly one digit equal
/// to one and every other digit zero.
pub proof fn lemma_unit_sum_tuple(t: Seq<u128>)
    requires
        seq_sum(t) == 1,
    ensures
        exists|i: int| 0 <= i < t.len() && t[i] == 1 && (forall|j: int|
            0 <= j < t.len() && j != i ==> t[j] == 0),
    decreases t.len(),
{
    assert(t.len() > 0);
    if t[0] == 1 {
        lemma_zero_sum_tuple(t.drop_first());
        assert(0 <= 0 < t.len() && t[0] == 1 && (forall|j: int|
            0 <= j < t.len() && j != 0 ==> t[j] == 0)) by {
            assert forall|j: int| 0 <= j < t.len() && j != 0 implies t[j] == 0 by {
                assert(t.drop_first()[j - 1] == t[j]);
            }
        }
    } else {
        assert(t[0] == 0);
        lemma_unit_sum_tuple(t.drop_first());
        let i0 = choose|i: int|
            0 <= i < t.drop_first().len() && t.drop_first()[i] == 1 && (forall|j: int|
                0 <= j < t.drop_first().len() && j != i ==> t.drop_first()[j] == 0);
        assert(0 <= i0 + 1 < t.len() && t[i0 + 1] == 1 && (forall|j: int|
            0 <= j < t.len() && j != i0 + 1 ==> t[j] == 0)) by {
            assert(t.drop_first()[i0] == t[i0 + 1]);
            assert forall|j: int| 0 <= j < t.len() && j != i0 + 1 implies t[j] == 0 by {
                if j > 0 {
                    assert(t.drop_first()[j - 1] == t[j]);
                }
            }
        }
    }
}

} // verus!
