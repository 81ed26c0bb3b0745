//! The ballot-encoding base: each option occupies a block of `m` bits, where
//! `m` is just large enough that up to `voters` ballots per option cannot
//! carry into the next block.

use vstd::prelude::*;
use vstd::arithmetic::power2::{lemma_pow2_adds, lemma_pow2_pos, lemma_pow2_strictly_increases,
    lemma_pow2_unfold, lemma2_to64, lemma2_to64_rest, pow2};
use vstd::arithmetic::mul::{lemma_mul_inequality, lemma_mul_is_distributive_add_other_way,
    lemma_mul_strict_inequality};

use crate::errors::TallyError;

verus! {

/// Any power of two up to `pow2(127)` fits in a `u128`.
pub proof fn lemma_pow2_fits_u128(e: nat)
    requires
        e <= 127,
    ensures
        pow2(e) <= 0x8000_0000_0000_0000_0000_0000_0000_0000,
{
    lemma2_to64();
    lemma2_to64_rest();
    lemma_pow2_adds(63, 64);
    if e < 127 {
        lemma_pow2_strictly_increases(e, 127);
    }
}

/// The number of bits of a digit in the tally encoding: the smallest `m`
/// with `pow2(m) > n`.
pub open spec fn spec_m_bits(n: nat) -> nat
    decreases n,
{
    if n == 0 {
        0
    } else {
        1 + spec_m_bits(n / 2)
    }
}

/// `spec_m_bits(n)` is the smallest exponent whose power of two exceeds `n`.
pub proof fn lemma_m_bits_bounds(n: nat)
    ensures
        n < pow2(spec_m_bits(n)),
        spec_m_bits(n) > 0 ==> pow2((spec_m_bits(n) - 1) as nat) <= n,
    decreases n,
{
    lemma2_to64();
    if n > 0 {
        lemma_m_bits_bounds(n / 2);
        lemma_pow2_unfold(spec_m_bits(n));
        if spec_m_bits(n / 2) > 0 {
            lemma_pow2_unfold((spec_m_bits(n) - 1) as nat);
        }
    }
}

/// Any `m` with `pow2(m) > n` that is either zero or has `pow2(m - 1) <= n`
/// is `spec_m_bits(n)`.
pub proof fn lemma_m_bits_unique(n: nat, m: nat)
    requires
        n < pow2(m),
        m > 0 ==> pow2((m - 1) as nat) <= n,
    ensures
        m == spec_m_bits(n),
{
    lemma_m_bits_bounds(n);
    let s = spec_m_bits(n);
    if m < s {
        lemma_pow2_strictly_increases(m, s);
        if m < s - 1 {
            lemma_pow2_strictly_increases(m, (s - 1) as nat);
        }
        assert(pow2((s - 1) as nat) <= n);
        assert(pow2(m) <= pow2((s - 1) as nat));
        assert(false);
    } else if m > s {
        if s < m - 1 {
            lemma_pow2_strictly_increases(s, (m - 1) as nat);
        }
        assert(pow2((m - 1) as nat) <= n);
        assert(pow2(s) <= pow2((m - 1) as nat));
        assert(false);
    }
}

/// The smallest `m` with `pow2(m) > voters`: the number of bits of a digit in
/// the tally encoding, so that a digit can hold any count in `[0, voters]`.
pub fn find_m_bits(voters: u32) -> (m: u32)
    ensures
        voters < pow2(m as nat),
        m > 0 ==> pow2((m - 1) as nat) <= voters,
        m <= 32,
        m == spec_m_bits(voters as nat),
{
    let n = voters as u64;
    let mut m: u32 = 0;
    let mut val: u64 = 1;
    proof {
        lemma2_to64();
    }
    while val <= n
        invariant
            n == voters,
            m <= 32,
            val == pow2(m as nat),
            m > 0 ==> pow2((m - 1) as nat) <= voters,
        decreases 33 - m,
    {
        proof {
            lemma2_to64();
            if m == 32 {
                assert(pow2(32) == 0x1_0000_0000);
                assert(false);
            }
        }
        val = val * 2;
        m = m + 1;
        assert(val == pow2(m as nat)) by {
            lemma_pow2_unfold(m as nat);
        }
    }
    proof {
        lemma_m_bits_unique(voters as nat, m as nat);
    }
    m
}

/// The base schedule as a sequence: position `i` holds `pow2(i * m_bits)`.
pub open spec fn spec_schedule(options: int, m_bits: nat) -> Seq<u128> {
    Seq::new(options as nat, |i: int| pow2((i * m_bits) as nat) as u128)
}

/// The base schedule of the tally encoding: `b_i = pow2(i * m_bits)` for
/// `i` in `[0, options)`. Fails with `ArithmeticOverflow` exactly when some
/// base would not fit in a `u128`.
pub fn base_schedule(options: usize, m_bits: u32) -> (r: Result<Vec<u128>, TallyError>)
    requires
        m_bits <= 32,
    ensures
        r matches Ok(b) ==> b@.len() == options && (forall|j: int|
            0 <= j < options ==> b@[j] == pow2((j * m_bits) as nat)),
        r matches Ok(b) ==> b@ == spec_schedule(options as int, m_bits as nat),
        (r is Ok) <==> (options as int - 1) * (m_bits as int) < 128,
        r matches Err(e) ==> e == TallyError::ArithmeticOverflow,
{
    let mut b: Vec<u128> = Vec::new();
    if options == 0 {
        proof {
            assert(b@ =~= spec_schedule(0, m_bits as nat));
        }
        return Ok(b);
    }
    let mut cur: u128 = 1;
    let mut e: u64 = 0;
    let mut i: usize = 0;
    proof {
        lemma2_to64();
    }
    while i < options
        invariant
            m_bits <= 32,
            i <= options,
            b@.len() == i as int,
            forall|j: int| 0 <= j < i ==> b@[j] == pow2((j * m_bits) as nat),
            i >= 1 ==> (i as int - 1) * (m_bits as int) <= 127,
            i < options ==> e == i * m_bits && e <= 127 && cur == pow2(e as nat),
        decreases options - i,
    {
        b.push(cur);
        i = i + 1;
        if i < options {
            let e_next = e + m_bits as u64;
            if e_next >= 128 {
                proof {
                    lemma_mul_is_distributive_add_other_way(m_bits as int, i as int - 1, 1);
                    assert(e_next == i * m_bits);
                    lemma_mul_inequality(i as int, options as int - 1, m_bits as int);
                }
                return Err(TallyError::ArithmeticOverflow);
            }
            let ghost e0 = e as nat;
            let mut j: u32 = 0;
            while j < m_bits
                invariant
                    j <= m_bits,
                    e == e0 + j,
                    e0 + m_bits <= 127,
                    cur == pow2(e as nat),
                decreases m_bits - j,
            {
                proof {
                    lemma_pow2_fits_u128((e + 1) as nat);
                    lemma_pow2_unfold((e + 1) as nat);
                }
                cur = cur * 2;
                e = e + 1;
                j = j + 1;
            }
            proof {
                lemma_mul_is_distributive_add_other_way(m_bits as int, i as int - 1, 1);
                assert(e == i * m_bits);
            }
        }
    }
    proof {
        assert forall|j: int| 0 <= j < options
            implies b@[j] == spec_schedule(options as int, m_bits as nat)[j] by {
            assert(b@[j] == pow2((j * m_bits) as nat));
        }
        assert(b@ =~= spec_schedule(options as int, m_bits as nat));
    }
    Ok(b)
}

/// Digits cannot interfere: when every digit is at most `voters` and
/// `voters < pow2(m_bits)`, each base of the schedule exceeds `voters` times
/// the previous one.
pub proof fn lemma_base_schedule_gap(b: Seq<u128>, m_bits: nat, voters: u32, i: int)
    requires
        forall|j: int| 0 <= j < b.len() ==> b[j] == pow2((j * m_bits) as nat),
        (voters as nat) < pow2(m_bits),
        0 <= i < b.len() - 1,
    ensures
        (b[i + 1] as nat) > (voters as nat) * (b[i] as nat),
{
    lemma_mul_is_distributive_add_other_way(m_bits as int, i, 1);
    assert((i + 1) * m_bits == i * m_bits + m_bits);
    lemma_pow2_adds((i * m_bits) as nat, m_bits);
    lemma_pow2_pos((i * m_bits) as nat);
    lemma_pow2_pos(m_bits);
    assert(b[i + 1] == pow2((i * m_bits) as nat) * pow2(m_bits));
    lemma_mul_strict_inequality(
        voters as int,
        pow2(m_bits) as int,
        pow2((i * m_bits) as nat) as int,
    );
    vstd::arithmetic::mul::lemma_mul_is_commutative(
        pow2((i * m_bits) as nat) as int,
        pow2(m_bits) as int,
    );
}

} // verus!
