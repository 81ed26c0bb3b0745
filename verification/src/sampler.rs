//! The degree-weighted sampler: draw distinct nodes with probability
//! proportional to their degree weight, by a prefix-sum table and binary
//! search. A node that is drawn has its weight removed, so the next draw is
//! over the remaining nodes; selection fails with `InsufficientMass` exactly
//! when fewer nodes carry positive weight than were requested.

use vstd::prelude::*;

use crate::counting::{count_positive, gather, lemma_count_positive_update_zero,
    lemma_gather_sum_le, lemma_sum_take_monotone, lemma_sum_weights_le, lemma_sum_weights_push,
    lemma_sum_zero_iff_no_positive, sum_weights};
use crate::errors::SampleError;
use crate::rng::rand_below;

verus! {

/// The running prefix sums of a degree vector, and its total:
/// `cumulative[i] = w[0] + ... + w[i]`.
pub fn build_cumulative_degrees(degrees: &Vec<usize>) -> (r: (Vec<usize>, usize))
    requires
        sum_weights(degrees@) <= usize::MAX,
    ensures
        r.0@.len() == degrees@.len(),
        forall|i: int|
            0 <= i < degrees@.len() ==> (#[trigger] r.0@[i]) == sum_weights(degrees@.take(i + 1)),
        r.1 == sum_weights(degrees@),
{
    let mut cumulative: Vec<usize> = Vec::new();
    let mut total: usize = 0;
    let mut i: usize = 0;
    while i < degrees.len()
        invariant
            i <= degrees@.len(),
            sum_weights(degrees@) <= usize::MAX,
            cumulative@.len() == i,
            total == sum_weights(degrees@.take(i as int)),
            forall|j: int|
                0 <= j < i ==> (#[trigger] cumulative@[j]) == sum_weights(degrees@.take(j + 1)),
        decreases degrees@.len() - i,
    {
        proof {
            assert(degrees@.take(i + 1) =~= degrees@.take(i as int).push(degrees@[i as int]));
            lemma_sum_weights_push(degrees@.take(i as int), degrees[i as int]);
            lemma_sum_take_monotone(degrees@, i + 1, degrees@.len() as int);
            assert(degrees@.take(degrees@.len() as int) =~= degrees@);
        }
        total = total + degrees[i];
        cumulative.push(total);
        i = i + 1;
    }
    proof {
        assert(degrees@.take(degrees@.len() as int) =~= degrees@);
    }
    (cumulative, total)
}

/// The smallest index whose prefix sum exceeds `val`: the node whose weight
/// block contains the draw `val`.
#[verifier::loop_isolation(false)]
pub fn binary_search_cumulative(cumulative_degrees: &Vec<usize>, val: usize) -> (idx: usize)
    requires
        cumulative_degrees@.len() >= 1,
        forall|a: int, b: int|
            #![trigger cumulative_degrees@[a], cumulative_degrees@[b]]
            0 <= a <= b < cumulative_degrees@.len() ==> cumulative_degrees@[a]
                <= cumulative_degrees@[b],
        val < cumulative_degrees@[cumulative_degrees@.len() - 1],
    ensures
        idx < cumulative_degrees@.len(),
        cumulative_degrees@[idx as int] > val,
        forall|j: int| 0 <= j < idx ==> (#[trigger] cumulative_degrees@[j]) <= val,
{
    let mut left: usize = 0;
    let mut right: usize = cumulative_degrees.len() - 1;
    while left < right
        invariant
            left <= right < cumulative_degrees@.len(),
            cumulative_degrees@[right as int] > val,
            forall|j: int| 0 <= j < left ==> (#[trigger] cumulative_degrees@[j]) <= val,
        decreases right - left,
    {
        let mid = left + (right - left) / 2;
        if cumulative_degrees[mid] > val {
            right = mid;
        } else {
            proof {
                assert forall|j: int| 0 <= j < mid + 1
                    implies (#[trigger] cumulative_degrees@[j]) <= val by {
                    if j >= left {
                        assert(cumulative_degrees@[j] <= cumulative_degrees@[mid as int]);
                    }
                }
            }
            left = mid + 1;
        }
    }
    left
}

/// Draw `number_of_nodes_to_select` distinct nodes, each with probability
/// proportional to its remaining degree weight. Succeeds exactly when at
/// least that many nodes carry positive weight; every selected node does.
pub fn select_nodes_by_degree(degrees: &Vec<usize>, number_of_nodes_to_select: usize)
    -> (r: Result<Vec<usize>, SampleError>)
    requires
        sum_weights(degrees@) <= usize::MAX,
    ensures
        r matches Ok(v) ==> {
            &&& v@.len() == number_of_nodes_to_select
            &&& v@.no_duplicates()
            &&& forall|i: int|
                0 <= i < v@.len() ==> (#[trigger] v@[i]) < degrees@.len()
                    && degrees@[v@[i] as int] > 0
        },
        (r is Ok) <==> count_positive(degrees@) >= number_of_nodes_to_select,
        r is Err ==> r == Err::<Vec<usize>, SampleError>(SampleError::InsufficientMass),
{
    let mut w: Vec<usize> = Vec::new();
    let mut c: usize = 0;
    while c < degrees.len()
        invariant
            c <= degrees@.len(),
            w@ == degrees@.take(c as int),
        decreases degrees@.len() - c,
    {
        proof {
            assert(degrees@.take(c + 1) =~= degrees@.take(c as int).push(degrees@[c as int]));
        }
        w.push(degrees[c]);
        c = c + 1;
    }
    proof {
        assert(degrees@.take(degrees@.len() as int) =~= degrees@);
    }
    let mut selected: Vec<usize> = Vec::new();
    let mut s: usize = 0;
    while s < number_of_nodes_to_select
        invariant
            s <= number_of_nodes_to_select,
            selected@.len() == s,
            selected@.no_duplicates(),
            w@.len() == degrees@.len(),
            sum_weights(degrees@) <= usize::MAX,
            forall|i: int| 0 <= i < w@.len() ==> (#[trigger] w@[i]) <= degrees@[i],
            count_positive(w@) + s == count_positive(degrees@),
            forall|i: int|
                0 <= i < selected@.len() ==> (#[trigger] selected@[i]) < degrees@.len()
                    && degrees@[selected@[i] as int] > 0,
            forall|i: int| 0 <= i < selected@.len() ==> w@[(#[trigger] selected@[i]) as int] == 0,
        decreases number_of_nodes_to_select - s,
    {
        proof {
            lemma_sum_weights_le(w@, degrees@);
        }
        let (cumulative, total) = build_cumulative_degrees(&w);
        if total == 0 {
            proof {
                lemma_sum_zero_iff_no_positive(w@);
            }
            return Err(SampleError::InsufficientMass);
        }
        proof {
            assert(w@.len() >= 1);
            assert(cumulative@[cumulative@.len() - 1] == sum_weights(
                w@.take(w@.len() as int),
            ));
            assert(w@.take(w@.len() as int) =~= w@);
            assert forall|a: int, b: int|
                #![trigger cumulative@[a], cumulative@[b]]
                0 <= a <= b < cumulative@.len() implies cumulative@[a] <= cumulative@[b] by {
                lemma_sum_take_monotone(w@, a + 1, b + 1);
            }
        }
        let rv = rand_below(total);
        let idx = binary_search_cumulative(&cumulative, rv);
        proof {
            assert(cumulative@[idx as int] == sum_weights(w@.take(idx + 1)));
            assert(w@.take(idx + 1) =~= w@.take(idx as int).push(w@[idx as int]));
            lemma_sum_weights_push(w@.take(idx as int), w@[idx as int]);
            if idx > 0 {
                assert(cumulative@[idx as int - 1] <= rv);
                assert(cumulative@[idx as int - 1] == sum_weights(w@.take(idx as int)));
            } else {
                assert(sum_weights(w@.take(0)) == 0);
            }
            assert(w@[idx as int] > 0);
        }
        let ghost old_selected = selected@;
        let ghost old_w = w@;
        selected.push(idx);
        w.set(idx, 0);
        proof {
            lemma_count_positive_update_zero(old_w, idx as int);
            assert forall|a: int, b: int|
                0 <= a < selected@.len() && 0 <= b < selected@.len() && a != b
                implies selected@[a] != selected@[b] by {
                if a == old_selected.len() {
                    assert(selected@[a] == idx);
                    assert(selected@[b] == old_selected[b]);
                    assert(old_w[old_selected[b] as int] == 0);
                } else if b == old_selected.len() {
                    assert(selected@[b] == idx);
                    assert(selected@[a] == old_selected[a]);
                    assert(old_w[old_selected[a] as int] == 0);
                }
            }
            assert(selected@.no_duplicates());
        }
        s = s + 1;
    }
    Ok(selected)
}

/// Draw `number_of_nodes_to_select` distinct nodes from a subset, each with
/// probability proportional to its degree weight within the subset. Succeeds
/// exactly when enough subset members carry positive weight.
pub fn select_nodes_by_degree_subset(
    subset_indices: &Vec<usize>,
    degrees: &Vec<usize>,
    number_of_nodes_to_select: usize,
) -> (r: Result<Vec<usize>, SampleError>)
    requires
        subset_indices@.no_duplicates(),
        forall|i: int|
            0 <= i < subset_indices@.len() ==> (#[trigger] subset_indices@[i]) < degrees@.len(),
        sum_weights(degrees@) <= usize::MAX,
    ensures
        r matches Ok(v) ==> {
            &&& v@.len() == number_of_nodes_to_select
            &&& v@.no_duplicates()
            &&& forall|i: int|
                0 <= i < v@.len() ==> subset_indices@.contains(#[trigger] v@[i])
                    && v@[i] < degrees@.len() && degrees@[v@[i] as int] > 0
        },
        (r is Ok) <==> count_positive(gather(subset_indices@, degrees@))
            >= number_of_nodes_to_select,
        r is Err ==> r == Err::<Vec<usize>, SampleError>(SampleError::InsufficientMass),
{
    let mut local: Vec<usize> = Vec::new();
    let mut j: usize = 0;
    while j < subset_indices.len()
        invariant
            j <= subset_indices@.len(),
            local@.len() == j,
            forall|q: int|
                0 <= q < j ==> (#[trigger] local@[q]) == degrees@[subset_indices@[q] as int],
            forall|i: int|
                0 <= i < subset_indices@.len() ==> (#[trigger] subset_indices@[i])
                    < degrees@.len(),
        decreases subset_indices@.len() - j,
    {
        let node = subset_indices[j];
        local.push(degrees[node]);
        j = j + 1;
    }
    proof {
        assert(local@ =~= gather(subset_indices@, degrees@));
        lemma_gather_sum_le(subset_indices@, degrees@);
    }
    let picks = match select_nodes_by_degree(&local, number_of_nodes_to_select) {
        Ok(p) => p,
        Err(e) => {
            return Err(e);
        },
    };
    let mut result: Vec<usize> = Vec::new();
    let mut t: usize = 0;
    while t < picks.len()
        invariant
            t <= picks@.len(),
            result@.len() == t,
            picks@.len() == number_of_nodes_to_select,
            picks@.no_duplicates(),
            local@ == gather(subset_indices@, degrees@),
            subset_indices@.no_duplicates(),
            forall|i: int|
                0 <= i < picks@.len() ==> (#[trigger] picks@[i]) < subset_indices@.len()
                    && local@[picks@[i] as int] > 0,
            forall|i: int|
                0 <= i < subset_indices@.len() ==> (#[trigger] subset_indices@[i])
                    < degrees@.len(),
            forall|q: int|
                0 <= q < t ==> (#[trigger] result@[q]) == subset_indices@[picks@[q] as int],
            forall|q: int|
                0 <= q < t ==> subset_indices@.contains(#[trigger] result@[q]) && result@[q]
                    < degrees@.len() && degrees@[result@[q] as int] > 0,
        decreases picks@.len() - t,
    {
        let p = picks[t];
        let node = subset_indices[p];
        result.push(node);
        proof {
            assert(subset_indices@[p as int] == node);
            assert(subset_indices@.contains(node));
            assert(local@[p as int] == degrees@[node as int]);
        }
        t = t + 1;
    }
    proof {
        assert forall|a: int, b: int|
            0 <= a < result@.len() && 0 <= b < result@.len() && a != b
            implies result@[a] != result@[b] by {
            assert(result@[a] == subset_indices@[picks@[a] as int]);
            assert(result@[b] == subset_indices@[picks@[b] as int]);
            assert(picks@[a] != picks@[b]);
        }
        assert(result@.no_duplicates());
    }
    Ok(result)
}

} // verus!
