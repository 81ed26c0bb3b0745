//! Counting and summation over sequences: degree weights, membership
//! bitmaps, and the pigeonhole facts that the samplers and the trial engine
//! rest on.

use vstd::prelude::*;
use vstd::seq_lib::*;
use vstd::set_lib::{lemma_int_range, lemma_len_subset, set_int_range};

verus! {

/// The total weight of a degree vector.
pub open spec fn sum_weights(w: Seq<usize>) -> nat
    decreases w.len(),
{
    if w.len() == 0 {
        0
    } else {
        (w[0] as nat) + sum_weights(w.drop_first())
    }
}

/// How many entries of a degree vector are positive.
pub open spec fn count_positive(w: Seq<usize>) -> nat
    decreases w.len(),
{
    if w.len() == 0 {
        0
    } else {
        (if w[0] > 0 {
            1 as nat
        } else {
            0 as nat
        }) + count_positive(w.drop_first())
    }
}

/// How many entries of a bitmap are set.
pub open spec fn count_true(s: Seq<bool>) -> nat
    decreases s.len(),
{
    if s.len() == 0 {
        0
    } else {
        (if s[0] {
            1 as nat
        } else {
            0 as nat
        }) + count_true(s.drop_first())
    }
}

/// How many positions are set in both bitmaps.
pub open spec fn count_and(t: Seq<bool>, f: Seq<bool>) -> nat
    decreases t.len(),
{
    if t.len() == 0 {
        0
    } else {
        (if t[0] && f[0] {
            1 as nat
        } else {
            0 as nat
        }) + count_and(t.drop_first(), f.drop_first())
    }
}

/// How many positions are set in the first bitmap but not in the second.
pub open spec fn count_and_not(t: Seq<bool>, f: Seq<bool>) -> nat
    decreases t.len(),
{
    if t.len() == 0 {
        0
    } else {
        (if t[0] && !f[0] {
            1 as nat
        } else {
            0 as nat
        }) + count_and_not(t.drop_first(), f.drop_first())
    }
}

/// The weights of a list of node indices, looked up in a weight vector.
pub open spec fn gather(idx: Seq<usize>, w: Seq<usize>) -> Seq<usize> {
    Seq::new(idx.len(), |i: int| w[idx[i] as int])
}

/// Appending a weight adds it to the total.
pub proof fn lemma_sum_weights_push(p: Seq<usize>, z: usize)
    ensures
        sum_weights(p.push(z)) == sum_weights(p) + z,
    decreases p.len(),
{
    if p.len() == 0 {
        assert(p.push(z).drop_first() =~= Seq::<usize>::empty());
        assert(p.push(z)[0] == z);
        assert(sum_weights(Seq::<usize>::empty()) == 0);
    } else {
        assert(p.push(z).drop_first() =~= p.drop_first().push(z));
        lemma_sum_weights_push(p.drop_first(), z);
    }
}

/// A pointwise-smaller weight vector has a smaller total.
pub proof fn lemma_sum_weights_le(w1: Seq<usize>, w2: Seq<usize>)
    requires
        w1.len() == w2.len(),
        forall|i: int| 0 <= i < w1.len() ==> w1[i] <= #[trigger] w2[i],
    ensures
        sum_weights(w1) <= sum_weights(w2),
    decreases w1.len(),
{
    if w1.len() > 0 {
        assert forall|i: int| 0 <= i < w1.drop_first().len()
            implies w1.drop_first()[i] <= #[trigger] w2.drop_first()[i] by {
            assert(w1.drop_first()[i] == w1[i + 1]);
            assert(w2.drop_first()[i] == w2[i + 1]);
        }
        lemma_sum_weights_le(w1.drop_first(), w2.drop_first());
    }
}

/// Zeroing one entry removes exactly its weight from the total.
pub proof fn lemma_sum_weights_update_zero(w: Seq<usize>, i: int)
    requires
        0 <= i < w.len(),
    ensures
        sum_weights(w.update(i, 0)) + w[i] == sum_weights(w),
    decreases w.len(),
{
    if i == 0 {
        assert(w.update(0, 0).drop_first() =~= w.drop_first());
        assert(w.update(0, 0)[0] == 0);
    } else {
        assert(w.update(i, 0).drop_first() =~= w.drop_first().update(i - 1, 0));
        assert(w.update(i, 0)[0] == w[0]);
        assert(w.drop_first()[i - 1] == w[i]);
        lemma_sum_weights_update_zero(w.drop_first(), i - 1);
    }
}

/// Replacing one entry shifts the total by the difference.
pub proof fn lemma_sum_weights_update(w: Seq<usize>, i: int, val: usize)
    requires
        0 <= i < w.len(),
    ensures
        sum_weights(w.update(i, val)) + w[i] == sum_weights(w) + val,
    decreases w.len(),
{
    if i == 0 {
        assert(w.update(0, val).drop_first() =~= w.drop_first());
        assert(w.update(0, val)[0] == val);
    } else {
        assert(w.update(i, val).drop_first() =~= w.drop_first().update(i - 1, val));
        assert(w.update(i, val)[0] == w[0]);
        assert(w.drop_first()[i - 1] == w[i]);
        lemma_sum_weights_update(w.drop_first(), i - 1, val);
    }
}

/// Zeroing one positive entry removes exactly one positive entry.
pub proof fn lemma_count_positive_update_zero(w: Seq<usize>, i: int)
    requires
        0 <= i < w.len(),
        w[i] > 0,
    ensures
        count_positive(w.update(i, 0)) + 1 == count_positive(w),
    decreases w.len(),
{
    if i == 0 {
        assert(w.update(0, 0).drop_first() =~= w.drop_first());
        assert(w.update(0, 0)[0] == 0);
    } else {
        assert(w.update(i, 0).drop_first() =~= w.drop_first().update(i - 1, 0));
        assert(w.update(i, 0)[0] == w[0]);
        assert(w.drop_first()[i - 1] == w[i]);
        lemma_count_positive_update_zero(w.drop_first(), i - 1);
    }
}

/// A longer prefix weighs at least as much.
pub proof fn lemma_sum_take_monotone(w: Seq<usize>, a: int, b: int)
    requires
        0 <= a <= b <= w.len(),
    ensures
        sum_weights(w.take(a)) <= sum_weights(w.take(b)),
    decreases b - a,
{
    if a < b {
        assert(w.take(b) =~= w.take(b - 1).push(w[b - 1]));
        lemma_sum_weights_push(w.take(b - 1), w[b - 1]);
        lemma_sum_take_monotone(w, a, b - 1);
    }
}

/// A weight vector sums to zero exactly when it has no positive entry.
pub proof fn lemma_sum_zero_iff_no_positive(w: Seq<usize>)
    ensures
        (sum_weights(w) == 0) <==> (count_positive(w) == 0),
    decreases w.len(),
{
    if w.len() > 0 {
        lemma_sum_zero_iff_no_positive(w.drop_first());
    }
}

/// Setting one clear position of a bitmap raises the count by one.
pub proof fn lemma_count_true_update(s: Seq<bool>, i: int)
    requires
        0 <= i < s.len(),
        !s[i],
    ensures
        count_true(s.update(i, true)) == count_true(s) + 1,
    decreases s.len(),
{
    if i == 0 {
        assert(s.update(0, true).drop_first() =~= s.drop_first());
    } else {
        assert(s.update(i, true).drop_first() =~= s.drop_first().update(i - 1, true));
        assert(s.update(i, true)[0] == s[0]);
        assert(s.drop_first()[i - 1] == s[i]);
        lemma_count_true_update(s.drop_first(), i - 1);
    }
}

/// No bitmap has more set positions than positions.
pub proof fn lemma_count_true_le(s: Seq<bool>)
    ensures
        count_true(s) <= s.len(),
    decreases s.len(),
{
    if s.len() > 0 {
        lemma_count_true_le(s.drop_first());
    }
}

/// A bitmap whose count equals its length is all set.
pub proof fn lemma_count_true_full(s: Seq<bool>)
    requires
        count_true(s) == s.len(),
    ensures
        forall|i: int| 0 <= i < s.len() ==> s[i],
    decreases s.len(),
{
    if s.len() > 0 {
        lemma_count_true_le(s.drop_first());
        assert(s[0]);
        lemma_count_true_full(s.drop_first());
        assert forall|i: int| 0 <= i < s.len() implies s[i] by {
            if i > 0 {
                assert(s.drop_first()[i - 1] == s[i]);
            }
        }
    }
}

/// Appending a set position adds one to the count, a clear one nothing.
pub proof fn lemma_count_true_push(p: Seq<bool>, z: bool)
    ensures
        count_true(p.push(z)) == count_true(p) + if z {
            1 as nat
        } else {
            0 as nat
        },
    decreases p.len(),
{
    if p.len() == 0 {
        assert(p.push(z).drop_first() =~= Seq::<bool>::empty());
        assert(p.push(z)[0] == z);
        assert(count_true(Seq::<bool>::empty()) == 0);
    } else {
        assert(p.push(z).drop_first() =~= p.drop_first().push(z));
        lemma_count_true_push(p.drop_first(), z);
    }
}

/// A bitmap with no set positions counts zero, and conversely.
pub proof fn lemma_count_true_zero(s: Seq<bool>)
    requires
        count_true(s) == 0,
    ensures
        forall|i: int| 0 <= i < s.len() ==> !s[i],
    decreases s.len(),
{
    if s.len() > 0 {
        lemma_count_true_zero(s.drop_first());
        assert forall|i: int| 0 <= i < s.len() implies !s[i] by {
            if i > 0 {
                assert(s.drop_first()[i - 1] == s[i]);
            }
        }
    }
}

/// A weight vector with every entry positive has as many positive entries as
/// entries.
pub proof fn lemma_count_positive_all(w: Seq<usize>)
    requires
        forall|i: int| 0 <= i < w.len() ==> (#[trigger] w[i]) >= 1,
    ensures
        count_positive(w) == w.len(),
    decreases w.len(),
{
    if w.len() > 0 {
        assert forall|i: int| 0 <= i < w.drop_first().len()
            implies (#[trigger] w.drop_first()[i]) >= 1 by {
            assert(w.drop_first()[i] == w[i + 1]);
        }
        lemma_count_positive_all(w.drop_first());
    }
}

/// The set positions split into those under the mask and those outside it.
pub proof fn lemma_count_split(t: Seq<bool>, f: Seq<bool>)
    requires
        t.len() == f.len(),
    ensures
        count_true(t) == count_and(t, f) + count_and_not(t, f),
    decreases t.len(),
{
    if t.len() > 0 {
        lemma_count_split(t.drop_first(), f.drop_first());
    }
}

/// An all-clear bitmap has no set positions, alone or against any mask.
pub proof fn lemma_count_all_false(t: Seq<bool>, f: Seq<bool>)
    requires
        t.len() == f.len(),
        forall|i: int| 0 <= i < t.len() ==> !t[i],
    ensures
        count_true(t) == 0,
        count_and(t, f) == 0,
        count_and_not(t, f) == 0,
    decreases t.len(),
{
    if t.len() > 0 {
        assert(!t[0]);
        assert forall|i: int| 0 <= i < t.drop_first().len() implies !t.drop_first()[i] by {
            assert(t.drop_first()[i] == t[i + 1]);
        }
        lemma_count_all_false(t.drop_first(), f.drop_first());
    }
}

/// Setting one clear position of `t` raises `count_and` by one when the mask
/// holds there, else `count_and_not` by one.
pub proof fn lemma_count_and_update(t: Seq<bool>, f: Seq<bool>, i: int)
    requires
        t.len() == f.len(),
        0 <= i < t.len(),
        !t[i],
    ensures
        count_and(t.update(i, true), f) == count_and(t, f) + if f[i] {
            1 as nat
        } else {
            0 as nat
        },
        count_and_not(t.update(i, true), f) == count_and_not(t, f) + if f[i] {
            0 as nat
        } else {
            1 as nat
        },
    decreases t.len(),
{
    if i == 0 {
        assert(t.update(0, true).drop_first() =~= t.drop_first());
    } else {
        assert(t.update(i, true).drop_first() =~= t.drop_first().update(i - 1, true));
        assert(t.update(i, true)[0] == t[0]);
        assert(t.drop_first()[i - 1] == t[i]);
        assert(f.drop_first()[i - 1] == f[i]);
        lemma_count_and_update(t.drop_first(), f.drop_first(), i - 1);
    }
}

/// No more positions are set under a mask than the mask has set.
pub proof fn lemma_count_and_le(t: Seq<bool>, f: Seq<bool>)
    requires
        t.len() == f.len(),
    ensures
        count_and(t, f) <= count_true(f),
    decreases t.len(),
{
    if t.len() > 0 {
        lemma_count_and_le(t.drop_first(), f.drop_first());
    }
}

/// When as many positions are set under the mask as the mask has set, every
/// masked position is set.
pub proof fn lemma_count_and_all(t: Seq<bool>, f: Seq<bool>)
    requires
        t.len() == f.len(),
        count_and(t, f) == count_true(f),
    ensures
        forall|i: int| 0 <= i < f.len() && f[i] ==> t[i],
    decreases t.len(),
{
    if t.len() > 0 {
        lemma_count_and_le(t.drop_first(), f.drop_first());
        if f[0] {
            assert(t[0]);
        }
        lemma_count_and_all(t.drop_first(), f.drop_first());
        assert forall|i: int| 0 <= i < f.len() && f[i] implies t[i] by {
            if i > 0 {
                assert(t.drop_first()[i - 1] == t[i]);
                assert(f.drop_first()[i - 1] == f[i]);
            }
        }
    }
}

/// The weights gathered over distinct indices sum to at most the whole.
pub proof fn lemma_gather_sum_le(idx: Seq<usize>, w: Seq<usize>)
    requires
        idx.no_duplicates(),
        forall|i: int| 0 <= i < idx.len() ==> (#[trigger] idx[i]) < w.len(),
    ensures
        sum_weights(gather(idx, w)) <= sum_weights(w),
    decreases idx.len(),
{
    if idx.len() > 0 {
        let j = idx.last() as int;
        let rest = idx.drop_last();
        let w2 = w.update(j, 0);
        assert(gather(idx, w) =~= gather(rest, w).push(w[j]));
        lemma_sum_weights_push(gather(rest, w), w[j as int]);
        assert(gather(rest, w2) =~= gather(rest, w));
        lemma_gather_sum_le(rest, w2);
        lemma_sum_weights_update_zero(w, j);
    }
}

/// Pigeonhole: a duplicate-free list with fewer than `bound` entries misses
/// some index below `bound`.
pub proof fn lemma_distinct_missing(s: Seq<usize>, bound: usize)
    requires
        s.no_duplicates(),
        s.len() < bound,
    ensures
        exists|u: usize| u < bound && !s.contains(u),
{
    if forall|u: usize| u < bound ==> #[trigger] s.contains(u) {
        let si = s.map_values(|x: usize| x as int);
        assert(si.no_duplicates());
        si.unique_seq_to_set();
        assert forall|ui: int| 0 <= ui < bound implies #[trigger] si.to_set().contains(ui) by {
            assert(s.contains(ui as usize));
            let w = choose|i: int| 0 <= i < s.len() && s[i] == ui as usize;
            assert(si[w] == ui);
            assert(si.contains(ui));
        }
        assert(set_int_range(0, bound as int).subset_of(si.to_set()));
        lemma_int_range(0, bound as int);
        lemma_len_subset(set_int_range(0, bound as int), si.to_set());
        assert(false);
    }
}

/// No single weight exceeds the total.
pub proof fn lemma_weight_le_sum(w: Seq<usize>, i: int)
    requires
        0 <= i < w.len(),
    ensures
        w[i] <= sum_weights(w),
    decreases w.len(),
{
    if i > 0 {
        assert(w.drop_first()[i - 1] == w[i]);
        lemma_weight_le_sum(w.drop_first(), i - 1);
    }
}

} // verus!
