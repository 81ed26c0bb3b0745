//! Graph generators for the liveness simulation: the complete graph of the
//! plain DKG, the uniform random out-regular graph, and the Barabasi-Albert
//! preferential-attachment graph. A node's out-neighbors are its guardians.

use vstd::prelude::*;
use vstd::arithmetic::mul::lemma_mul_is_distributive_add_other_way;

use crate::counting::{lemma_distinct_missing, lemma_sum_weights_push, lemma_sum_weights_update,
    lemma_weight_le_sum, sum_weights};
use crate::rng::rand_below;

verus! {

/// Whether a value occurs in a vector.
fn contains_value(v: &Vec<usize>, x: usize) -> (b: bool)
    ensures
        b == v@.contains(x),
{
    let mut i: usize = 0;
    while i < v.len()
        invariant
            i <= v@.len(),
            forall|j: int| 0 <= j < i ==> v@[j] != x,
        decreases v@.len() - i,
    {
        if v[i] == x {
            return true;
        }
        i = i + 1;
    }
    false
}

/// The targets of the edges with source `v`, in edge order.
pub open spec fn targets_of(edges: Seq<(usize, usize)>, v: int) -> Seq<usize>
    decreases edges.len(),
{
    if edges.len() == 0 {
        Seq::empty()
    } else {
        let rest = targets_of(edges.drop_first(), v);
        if edges[0].0 == v {
            seq![edges[0].1] + rest
        } else {
            rest
        }
    }
}

/// Appending an edge appends its target to its source's row and no other.
pub proof fn lemma_targets_of_push(edges: Seq<(usize, usize)>, e: (usize, usize), v: int)
    ensures
        targets_of(edges.push(e), v) == if e.0 == v {
            targets_of(edges, v).push(e.1)
        } else {
            targets_of(edges, v)
        },
    decreases edges.len(),
{
    let lhs = targets_of(edges.push(e), v);
    if edges.len() == 0 {
        assert(edges.push(e).drop_first() =~= Seq::<(usize, usize)>::empty());
        assert(edges.push(e)[0] == e);
        assert(targets_of(Seq::<(usize, usize)>::empty(), v) == Seq::<usize>::empty());
        if e.0 == v {
            assert(lhs =~= targets_of(edges, v).push(e.1));
        } else {
            assert(lhs =~= targets_of(edges, v));
        }
    } else {
        assert(edges.push(e).drop_first() =~= edges.drop_first().push(e));
        assert(edges.push(e)[0] == edges[0]);
        lemma_targets_of_push(edges.drop_first(), e, v);
        if edges[0].0 == v {
            if e.0 == v {
                assert(lhs =~= (seq![edges[0].1] + targets_of(edges.drop_first(), v)).push(e.1));
            } else {
                assert(lhs =~= targets_of(edges, v));
            }
        } else {
            if e.0 == v {
                assert(lhs =~= targets_of(edges, v).push(e.1));
            } else {
                assert(lhs =~= targets_of(edges, v));
            }
        }
    }
}

/// The out-neighbor rows of an edge list: row `v` holds the targets of the
/// edges with source `v`, in edge order.
pub fn build_adjacency_list(edges: &Vec<(usize, usize)>, number_of_nodes: usize)
    -> (adj: Vec<Vec<usize>>)
    requires
        forall|i: int| 0 <= i < edges@.len() ==> (#[trigger] edges@[i]).0 < number_of_nodes,
    ensures
        adj@.len() == number_of_nodes,
        forall|v: int| 0 <= v < number_of_nodes ==> (#[trigger] adj@[v])@ == targets_of(edges@, v),
{
    let mut adj: Vec<Vec<usize>> = Vec::new();
    let mut v: usize = 0;
    while v < number_of_nodes
        invariant
            v <= number_of_nodes,
            adj@.len() == v,
            forall|i: int| 0 <= i < edges@.len() ==> (#[trigger] edges@[i]).0 < number_of_nodes,
            forall|u: int| 0 <= u < v ==> (#[trigger] adj@[u])@ == targets_of(edges@, u),
        decreases number_of_nodes - v,
    {
        let mut row: Vec<usize> = Vec::new();
        let mut i: usize = 0;
        while i < edges.len()
            invariant
                i <= edges@.len(),
                row@ == targets_of(edges@.take(i as int), v as int),
            decreases edges@.len() - i,
        {
            proof {
                assert(edges@.take(i + 1) =~= edges@.take(i as int).push(edges@[i as int]));
                lemma_targets_of_push(edges@.take(i as int), edges@[i as int], v as int);
            }
            let e = edges[i];
            if e.0 == v {
                row.push(e.1);
            }
            i = i + 1;
        }
        proof {
            assert(edges@.take(edges@.len() as int) =~= edges@);
        }
        adj.push(row);
        v = v + 1;
    }
    adj
}

/// The complete graph: every node points to every other node, in ascending
/// order, so each node's guardian set is all of `[0, n) \ {v}`.
pub fn generate_full_graph(number_of_nodes: usize) -> (r: (Vec<Vec<usize>>, Vec<usize>))
    requires
        1 <= number_of_nodes,
        (number_of_nodes as nat) * (number_of_nodes as nat) <= usize::MAX,
    ensures
        r.0@.len() == number_of_nodes,
        r.1@.len() == number_of_nodes,
        forall|v: int|
            0 <= v < number_of_nodes ==> (#[trigger] r.1@[v]) == number_of_nodes - 1,
        forall|v: int|
            0 <= v < number_of_nodes ==> (#[trigger] r.0@[v])@.len() == number_of_nodes - 1,
        forall|v: int, j: int|
            0 <= v < number_of_nodes && 0 <= j < number_of_nodes - 1 ==> (#[trigger] r.0@[v]@[j])
                == if j < v {
                j
            } else {
                j + 1
            },
        sum_weights(r.1@) == (number_of_nodes as nat) * ((number_of_nodes - 1) as nat),
{
    let n = number_of_nodes;
    let mut adj: Vec<Vec<usize>> = Vec::new();
    let mut degrees: Vec<usize> = Vec::new();
    let mut v: usize = 0;
    while v < n
        invariant
            v <= n,
            n >= 1,
            adj@.len() == v,
            degrees@.len() == v,
            forall|u: int| 0 <= u < v ==> (#[trigger] degrees@[u]) == n - 1,
            forall|u: int| 0 <= u < v ==> (#[trigger] adj@[u])@.len() == n - 1,
            forall|u: int, j: int|
                0 <= u < v && 0 <= j < n - 1 ==> (#[trigger] adj@[u]@[j]) == if j < u {
                    j
                } else {
                    j + 1
                },
            sum_weights(degrees@) == (v as nat) * ((n - 1) as nat),
        decreases n - v,
    {
        let mut row: Vec<usize> = Vec::new();
        let mut u: usize = 0;
        while u < n
            invariant
                u <= n,
                v < n,
                row@.len() == if u <= v {
                    u as int
                } else {
                    u - 1
                },
                forall|j: int|
                    0 <= j < row@.len() ==> (#[trigger] row@[j]) == if j < v {
                        j
                    } else {
                        j + 1
                    },
            decreases n - u,
        {
            if u != v {
                row.push(u);
            }
            u = u + 1;
        }
        adj.push(row);
        let ghost old_deg = degrees@;
        degrees.push(n - 1);
        proof {
            lemma_sum_weights_push(old_deg, (n - 1) as usize);
            lemma_mul_is_distributive_add_other_way((n - 1) as int, v as int, 1);
        }
        v = v + 1;
    }
    (adj, degrees)
}

/// The uniform random out-regular graph: every node points to `k` distinct
/// targets drawn uniformly from the other nodes, so every out-degree is
/// exactly `k`.
pub fn generate_random_graph(number_of_nodes: usize, number_of_guardians: usize)
    -> (r: (Vec<Vec<usize>>, Vec<usize>))
    requires
        1 <= number_of_guardians < number_of_nodes,
        (number_of_nodes as nat) * (number_of_guardians as nat) <= usize::MAX,
    ensures
        r.0@.len() == number_of_nodes,
        r.1@.len() == number_of_nodes,
        forall|v: int|
            0 <= v < number_of_nodes ==> (#[trigger] r.1@[v]) == number_of_guardians,
        forall|v: int|
            0 <= v < number_of_nodes ==> (#[trigger] r.0@[v])@.len() == number_of_guardians,
        forall|v: int|
            0 <= v < number_of_nodes ==> (#[trigger] r.0@[v])@.no_duplicates(),
        forall|v: int, j: int|
            0 <= v < number_of_nodes && 0 <= j < r.0@[v]@.len() ==> (#[trigger] r.0@[v]@[j])
                < number_of_nodes && r.0@[v]@[j] != v,
        sum_weights(r.1@) == (number_of_nodes as nat) * (number_of_guardians as nat),
{
    let n = number_of_nodes;
    let k = number_of_guardians;
    let mut adj: Vec<Vec<usize>> = Vec::new();
    let mut degrees: Vec<usize> = Vec::new();
    let mut v: usize = 0;
    while v < n
        invariant
            v <= n,
            1 <= k < n,
            adj@.len() == v,
            degrees@.len() == v,
            forall|u: int| 0 <= u < v ==> (#[trigger] degrees@[u]) == k,
            forall|u: int| 0 <= u < v ==> (#[trigger] adj@[u])@.len() == k,
            forall|u: int| 0 <= u < v ==> (#[trigger] adj@[u])@.no_duplicates(),
            forall|u: int, j: int|
                0 <= u < v && 0 <= j < adj@[u]@.len() ==> (#[trigger] adj@[u]@[j]) < n
                    && adj@[u]@[j] != u,
            sum_weights(degrees@) == (v as nat) * (k as nat),
        decreases n - v,
    {
        let mut candidates: Vec<usize> = Vec::new();
        let mut u: usize = 0;
        while u < n
            invariant
                u <= n,
                v < n,
                candidates@.len() == if u <= v {
                    u as int
                } else {
                    u - 1
                },
                forall|j: int|
                    0 <= j < candidates@.len() ==> (#[trigger] candidates@[j]) == if j < v {
                        j
                    } else {
                        j + 1
                    },
            decreases n - u,
        {
            if u != v {
                candidates.push(u);
            }
            u = u + 1;
        }
        proof {
            assert forall|a: int, b: int| 0 <= a < b < candidates@.len()
                implies candidates@[a] != candidates@[b] by {}
            assert(candidates@.no_duplicates());
        }
        let mut row: Vec<usize> = Vec::new();
        let mut t: usize = 0;
        while t < k
            invariant
                t <= k,
                1 <= k < n,
                v < n,
                row@.len() == t,
                candidates@.len() == n - 1 - t,
                candidates@.no_duplicates(),
                row@.no_duplicates(),
                forall|j: int|
                    0 <= j < candidates@.len() ==> (#[trigger] candidates@[j]) < n
                        && candidates@[j] != v,
                forall|j: int| 0 <= j < row@.len() ==> (#[trigger] row@[j]) < n && row@[j] != v,
                forall|a: int, b: int|
                    0 <= a < row@.len() && 0 <= b < candidates@.len() ==> (#[trigger] row@[a])
                        != (#[trigger] candidates@[b]),
            decreases k - t,
        {
            let m = candidates.len();
            let idx = rand_below(m);
            let target = candidates[idx];
            let ghost oldc = candidates@;
            let ghost oldrow = row@;
            let last_val = candidates[m - 1];
            candidates.set(idx, last_val);
            candidates.pop();
            row.push(target);
            proof {
                let newc = candidates@;
                assert(newc =~= oldc.update(idx as int, last_val).drop_last());
                assert forall|b: int| 0 <= b < newc.len() implies #[trigger] newc[b] == (
                    if b == idx as int {
                        oldc[oldc.len() - 1]
                    } else {
                        oldc[b]
                    }) by {}
                assert(newc.no_duplicates());
                assert(row@ == oldrow.push(target));
                assert forall|a: int, b: int|
                    0 <= a < row@.len() && 0 <= b < row@.len() && a != b
                    implies row@[a] != row@[b] by {
                    if a == oldrow.len() {
                        assert(row@[a] == target);
                        assert(row@[b] == oldrow[b]);
                    } else if b == oldrow.len() {
                        assert(row@[b] == target);
                        assert(row@[a] == oldrow[a]);
                    }
                }
                assert(row@.no_duplicates());
                assert forall|a: int, b: int| 0 <= a < row@.len() && 0 <= b < newc.len()
                    implies row@[a] != newc[b] by {
                    assert(newc[b] == if b == idx as int {
                        oldc[oldc.len() - 1]
                    } else {
                        oldc[b]
                    });
                    if a == oldrow.len() {
                        assert(row@[a] == target);
                        assert(target == oldc[idx as int]);
                    } else {
                        assert(row@[a] == oldrow[a]);
                    }
                }
            }
            t = t + 1;
        }
        adj.push(row);
        let ghost old_deg = degrees@;
        degrees.push(k);
        proof {
            lemma_sum_weights_push(old_deg, k);
            lemma_mul_is_distributive_add_other_way(k as int, v as int, 1);
        }
        v = v + 1;
    }
    (adj, degrees)
}

/// How many times `v` occurs in one guardian row.
pub open spec fn count_occurrences(row: Seq<usize>, v: int) -> nat
    decreases row.len(),
{
    if row.len() == 0 {
        0
    } else {
        (if row[0] == v {
            1 as nat
        } else {
            0 as nat
        }) + count_occurrences(row.drop_first(), v)
    }
}

/// Appending a guardian adds one occurrence exactly when it is `v`.
pub proof fn lemma_count_occurrences_push(row: Seq<usize>, z: usize, v: int)
    ensures
        count_occurrences(row.push(z), v) == count_occurrences(row, v) + if z == v {
            1 as nat
        } else {
            0 as nat
        },
    decreases row.len(),
{
    if row.len() == 0 {
        assert(row.push(z).drop_first() =~= Seq::<usize>::empty());
        assert(row.push(z)[0] == z);
        assert(count_occurrences(Seq::<usize>::empty(), v) == 0);
    } else {
        assert(row.push(z).drop_first() =~= row.drop_first().push(z));
        lemma_count_occurrences_push(row.drop_first(), z, v);
    }
}

/// Occurrences in a concatenation split over the parts.
pub proof fn lemma_count_occurrences_concat(a: Seq<usize>, b: Seq<usize>, v: int)
    ensures
        count_occurrences(a + b, v) == count_occurrences(a, v) + count_occurrences(b, v),
    decreases a.len(),
{
    if a.len() == 0 {
        assert(a + b =~= b);
    } else {
        assert((a + b).drop_first() =~= a.drop_first() + b);
        assert((a + b)[0] == a[0]);
        lemma_count_occurrences_concat(a.drop_first(), b, v);
    }
}

/// The in-degree of `v` over the first `upto` guardian rows: how many times
/// `v` occurs as a target.
pub open spec fn spec_in_degree(adj: Seq<Vec<usize>>, v: int, upto: int) -> nat
    decreases upto,
{
    if upto <= 0 {
        0
    } else {
        spec_in_degree(adj, v, upto - 1) + count_occurrences(adj[upto - 1]@, v)
    }
}

/// Rows past `upto` do not matter to the in-degree over the first `upto`.
pub proof fn lemma_in_degree_push(adj: Seq<Vec<usize>>, row: Vec<usize>, v: int, upto: int)
    requires
        0 <= upto <= adj.len(),
    ensures
        spec_in_degree(adj.push(row), v, upto) == spec_in_degree(adj, v, upto),
    decreases upto,
{
    if upto > 0 {
        assert(adj.push(row)[upto - 1] == adj[upto - 1]);
        lemma_in_degree_push(adj, row, v, upto - 1);
    }
}

/// The popularity a node is owed once the first `adj.len()` guardian rows
/// stand: its out-degree plus its in-degree, less one for each of the two
/// seed nodes when the seed is the single mutual edge (whose two seed edges
/// enter the attachment list only once per endpoint).
pub open spec fn spec_popularity_of(adj: Seq<Vec<usize>>, k: int, v: int) -> int {
    (if v < adj.len() {
        adj[v]@.len() as int
    } else {
        0int
    }) + spec_in_degree(adj, v, adj.len() as int) as int - (if k == 1 && v <= 1 && adj.len()
        >= 2 {
        1int
    } else {
        0int
    })
}

/// The Barabasi-Albert preferential-attachment graph. A seed clique on the
/// first `k + 1` nodes (or the single mutual edge `0 <-> 1` when `k == 1`)
/// is grown one node at a time: each new node draws `k` distinct guardians
/// from the attachment list, in which every node appears with multiplicity
/// equal to its popularity. The returned degree vector is that popularity,
/// which is what the degree-weighted samplers use.
#[verifier::loop_isolation(false)]
#[verifier::rlimit(100)]
pub fn generate_barabasi_albert_graph(number_of_nodes: usize, number_of_guardians: usize)
    -> (r: (Vec<Vec<usize>>, Vec<usize>))
    requires
        1 <= number_of_guardians < number_of_nodes,
        2 * (number_of_nodes as nat) * (number_of_guardians as nat) + 2 <= usize::MAX,
    ensures
        r.0@.len() == number_of_nodes,
        r.1@.len() == number_of_nodes,
        forall|v: int, j: int|
            0 <= v < number_of_nodes && 0 <= j < r.0@[v]@.len() ==> (#[trigger] r.0@[v]@[j])
                < number_of_nodes && r.0@[v]@[j] != v,
        number_of_guardians >= 2 ==> forall|v: int|
            0 <= v < number_of_nodes ==> (#[trigger] r.0@[v])@.len() == number_of_guardians
                && r.0@[v]@.no_duplicates(),
        number_of_guardians == 1 ==> forall|v: int|
            0 <= v < number_of_nodes ==> (#[trigger] r.0@[v])@.len() == (if v == 1 {
                2int
            } else {
                1int
            }),
        forall|v: int| 0 <= v < number_of_nodes ==> (#[trigger] r.1@[v]) >= 1,
        forall|v: int|
            0 <= v < number_of_nodes ==> (#[trigger] r.1@[v]) as int == spec_popularity_of(
                r.0@,
                number_of_guardians as int,
                v,
            ),
        sum_weights(r.1@) <= 2 * (number_of_nodes as nat) * (number_of_guardians as nat) + 2,
{
    let n = number_of_nodes;
    let k = number_of_guardians;
    let mut adj: Vec<Vec<usize>> = Vec::new();
    let mut popularity: Vec<usize> = Vec::new();
    let mut dl: Vec<usize> = Vec::new();
    let mut z: usize = 0;
    while z < n
        invariant
            z <= n,
            popularity@.len() == z,
            forall|u: int| 0 <= u < z ==> (#[trigger] popularity@[u]) == 0,
            sum_weights(popularity@) == 0,
        decreases n - z,
    {
        proof {
            lemma_sum_weights_push(popularity@, 0);
        }
        popularity.push(0);
        z = z + 1;
    }
    if k == 1 {
        let mut row0: Vec<usize> = Vec::new();
        row0.push(1);
        adj.push(row0);
        proof {
            lemma_sum_weights_update(popularity@, 0, 1);
        }
        popularity.set(0, 1);
        proof {
            lemma_sum_weights_update(popularity@, 1, 1);
        }
        popularity.set(1, 1);
        dl.push(0);
        dl.push(1);
        proof {
            assert(dl@[0] == 0usize);
            assert(dl@[1] == 1usize);
            assert(dl@.contains(0usize));
            assert(dl@.contains(1usize));
            assert(adj@[0]@ =~= seq![1usize]);
            assert(seq![1usize].drop_first() =~= Seq::<usize>::empty());
            assert forall|v: int| 0 <= v < n implies (#[trigger] popularity@[v]) as int
                == spec_popularity_of(adj@, k as int, v) by {
                assert(count_occurrences(Seq::<usize>::empty(), v) == 0);
                assert(count_occurrences(adj@[0]@, v) == (if v == 1 {
                    1 as nat
                } else {
                    0 as nat
                }));
                assert(spec_in_degree(adj@, v, 0) == 0);
                assert(spec_in_degree(adj@, v, 1) == count_occurrences(adj@[0]@, v));
            }
        }
    } else {
        let mut i: usize = 0;
        while i < k
            invariant
                i <= k,
                adj@.len() == i,
                popularity@.len() == n,
                dl@.len() == 2 * (i * k),
                sum_weights(popularity@) == dl@.len(),
                forall|p: int| 0 <= p < dl@.len() ==> (#[trigger] dl@[p]) <= k,
                forall|u: int| 0 <= u < i ==> (#[trigger] adj@[u])@.len() == k,
                forall|u: int, q: int|
                    0 <= u < i && 0 <= q < k ==> (#[trigger] adj@[u]@[q]) == (if q < u {
                        q
                    } else {
                        q + 1
                    }),
                i >= 1 ==> forall|u: int| 0 <= u <= k ==> #[trigger] dl@.contains(u as usize),
                i >= 1 ==> forall|u: int| 0 <= u <= k ==> (#[trigger] popularity@[u]) >= 1,
                forall|v: int|
                    0 <= v < n ==> (#[trigger] popularity@[v]) as int == spec_popularity_of(
                        adj@,
                        k as int,
                        v,
                    ),
            decreases k - i,
        {
            let mut row: Vec<usize> = Vec::new();
            let mut j: usize = 0;
            while j < k + 1
                invariant
                    j <= k + 1,
                    i < k,
                    popularity@.len() == n,
                    row@.len() == (if j <= i {
                        j as int
                    } else {
                        j - 1
                    }),
                    forall|q: int|
                        0 <= q < row@.len() ==> (#[trigger] row@[q]) == (if q < i {
                            q
                        } else {
                            q + 1
                        }),
                    dl@.len() == 2 * (i * k) + 2 * row@.len(),
                    sum_weights(popularity@) == dl@.len(),
                    forall|p: int| 0 <= p < dl@.len() ==> (#[trigger] dl@[p]) <= k,
                    i >= 1 ==> forall|u: int| 0 <= u <= k ==> #[trigger] dl@.contains(u as usize),
                    i >= 1 ==> forall|u: int| 0 <= u <= k ==> (#[trigger] popularity@[u]) >= 1,
                    i == 0 && row@.len() >= 1 ==> dl@.contains(0usize),
                    i == 0 ==> forall|u: int|
                        1 <= u <= row@.len() ==> #[trigger] dl@.contains(u as usize),
                    i == 0 && row@.len() >= 1 ==> popularity@[0] >= 1,
                    i == 0 ==> forall|u: int|
                        1 <= u <= row@.len() ==> (#[trigger] popularity@[u]) >= 1,
                    forall|v: int|
                        0 <= v < n ==> (#[trigger] popularity@[v]) as int == spec_popularity_of(
                            adj@,
                            k as int,
                            v,
                        ) + (if v == i {
                            row@.len() as int
                        } else {
                            0int
                        }) + count_occurrences(row@, v),
                decreases k + 1 - j,
            {
                if j != i {
                    let ghost old_row = row@;
                    row.push(j);
                    let ghost old_dl = dl@;
                    dl.push(i);
                    dl.push(j);
                    proof {
                        assert forall|u: usize| old_dl.contains(u) implies dl@.contains(u) by {
                            let w = choose|w: int| 0 <= w < old_dl.len() && old_dl[w] == u;
                            assert(dl@[w] == u);
                        }
                        assert(dl@[dl@.len() - 2] == i);
                        assert(dl@[dl@.len() - 1] == j);
                        assert(dl@.contains(i));
                        assert(dl@.contains(j as usize));
                        assert(popularity@[i as int] <= sum_weights(popularity@)) by {
                            lemma_weight_le_sum(popularity@, i as int);
                        }
                        assert(old_dl.len() + 2 <= 2 * (n as nat) * (k as nat) + 2)
                            by (nonlinear_arith)
                            requires
                                old_dl.len() == 2 * (i * k) + 2 * (row@.len() - 1),
                                0 <= i < k,
                                row@.len() <= k + 1,
                                k < n,
                        ;
                        lemma_sum_weights_update(popularity@, i as int, (popularity@[i as int] + 1) as usize);
                    }
                    let c1 = popularity[i];
                    popularity.set(i, c1 + 1);
                    proof {
                        assert(popularity@[j as int] <= sum_weights(popularity@)) by {
                            lemma_weight_le_sum(popularity@, j as int);
                        }
                        lemma_sum_weights_update(popularity@, j as int, (popularity@[j as int] + 1) as usize);
                    }
                    let c2 = popularity[j];
                    popularity.set(j, c2 + 1);
                    proof {
                        assert forall|v: int| 0 <= v < n
                            implies (#[trigger] popularity@[v]) as int == spec_popularity_of(
                            adj@,
                            k as int,
                            v,
                        ) + (if v == i {
                            row@.len() as int
                        } else {
                            0int
                        }) + count_occurrences(row@, v) by {
                            lemma_count_occurrences_push(old_row, j, v);
                        }
                        if i >= 1 {
                            assert forall|u: int| 0 <= u <= k
                                implies #[trigger] dl@.contains(u as usize) by {
                                assert(old_dl.contains(u as usize));
                            }
                        }
                        if i == 0 {
                            assert forall|u: int| 1 <= u <= row@.len()
                                implies #[trigger] dl@.contains(u as usize) by {
                                if u < row@.len() {
                                    assert(old_dl.contains(u as usize));
                                } else {
                                    assert(u == j as int);
                                }
                            }
                        }
                    }
                }
                j = j + 1;
            }
            let ghost old_adj = adj@;
            adj.push(row);
            proof {
                assert(2 * (i * k) + 2 * k == 2 * ((i + 1) * k)) by (nonlinear_arith);
                assert forall|v: int| 0 <= v < n implies (#[trigger] popularity@[v]) as int
                    == spec_popularity_of(adj@, k as int, v) by {
                    assert(adj@ == old_adj.push(adj@[i as int]));
                    lemma_in_degree_push(old_adj, adj@[i as int], v, i as int);
                    assert(spec_in_degree(adj@, v, i + 1) == spec_in_degree(old_adj, v, i as int)
                        + count_occurrences(adj@[i as int]@, v));
                }
            }
            i = i + 1;
        }
    }
    let ghost seed_entries = dl@.len();
    let mut new_node: usize = k;
    while new_node < n
        invariant
            k <= new_node <= n,
            adj@.len() == new_node,
            popularity@.len() == n,
            seed_entries == (if k == 1 {
                2int
            } else {
                2 * (k * k)
            }),
            dl@.len() == seed_entries + 2 * ((new_node - k) * k),
            sum_weights(popularity@) == dl@.len(),
            forall|p: int| 0 <= p < dl@.len() ==> (#[trigger] dl@[p]) < n,
            forall|u: int| 0 <= u <= k ==> #[trigger] dl@.contains(u as usize),
            forall|u: int| 0 <= u <= k ==> (#[trigger] popularity@[u]) >= 1,
            forall|u: int| k <= u < new_node ==> (#[trigger] popularity@[u]) >= 1,
            forall|v: int|
                0 <= v < n ==> (#[trigger] popularity@[v]) as int == spec_popularity_of(
                    adj@,
                    k as int,
                    v,
                ),
            forall|v: int, q: int|
                0 <= v < new_node && 0 <= q < adj@[v]@.len() ==> (#[trigger] adj@[v]@[q]) < n
                    && adj@[v]@[q] != v,
            k >= 2 ==> forall|v: int|
                0 <= v < new_node ==> (#[trigger] adj@[v])@.len() == k
                    && adj@[v]@.no_duplicates(),
            k == 1 ==> forall|v: int|
                0 <= v < new_node ==> (#[trigger] adj@[v])@.len() == (if v == 1 {
                    2int
                } else {
                    1int
                }),
        decreases n - new_node,
    {
        let mut row: Vec<usize> = Vec::new();
        if k == 1 && new_node == 1 {
            row.push(0);
        }
        let ghost init = row@;
        let mut targets: Vec<usize> = Vec::new();
        while targets.len() < k
            invariant
                targets@.len() <= k,
                row@ == init + targets@,
                targets@.no_duplicates(),
                forall|q: int|
                    0 <= q < targets@.len() ==> (#[trigger] targets@[q]) < n && targets@[q]
                        != new_node,
                popularity@.len() == n,
                dl@.len() == seed_entries + 2 * ((new_node - k) * k) + 2 * targets@.len(),
                sum_weights(popularity@) == dl@.len(),
                forall|p: int| 0 <= p < dl@.len() ==> (#[trigger] dl@[p]) < n,
                forall|u: int| 0 <= u <= k ==> #[trigger] dl@.contains(u as usize),
                forall|u: int| 0 <= u <= k ==> (#[trigger] popularity@[u]) >= 1,
                forall|u: int| k <= u < new_node ==> (#[trigger] popularity@[u]) >= 1,
                popularity@[new_node as int] >= targets@.len(),
                forall|v: int|
                    0 <= v < n ==> (#[trigger] popularity@[v]) as int == spec_popularity_of(
                        adj@,
                        k as int,
                        v,
                    ) + (if v == new_node {
                        targets@.len() as int
                    } else {
                        0int
                    }) + count_occurrences(targets@, v),
            decreases k - targets@.len(),
        {
            let mut filtered: Vec<usize> = Vec::new();
            let mut p: usize = 0;
            while p < dl.len()
                invariant
                    p <= dl@.len(),
                    forall|q: int|
                        0 <= q < filtered@.len() ==> (#[trigger] filtered@[q]) < n
                            && filtered@[q] != new_node && !targets@.contains(filtered@[q]),
                    forall|q: int|
                        0 <= q < p && (#[trigger] dl@[q]) != new_node && !targets@.contains(
                            dl@[q],
                        ) ==> filtered@.contains(dl@[q]),
                decreases dl@.len() - p,
            {
                let e = dl[p];
                if e != new_node && !contains_value(&targets, e) {
                    let ghost old_filtered = filtered@;
                    filtered.push(e);
                    proof {
                        assert forall|x: usize| old_filtered.contains(x)
                            implies filtered@.contains(x) by {
                            let w = choose|w: int|
                                0 <= w < old_filtered.len() && old_filtered[w] == x;
                            assert(filtered@[w] == x);
                        }
                        assert(filtered@[filtered@.len() - 1] == e);
                        assert(filtered@.contains(e));
                    }
                }
                p = p + 1;
            }
            proof {
                let s = targets@.push(new_node);
                assert forall|a: int, b: int|
                    0 <= a < s.len() && 0 <= b < s.len() && a != b implies s[a] != s[b] by {
                    if a == targets@.len() {
                        assert(s[a] == new_node);
                        assert(s[b] == targets@[b]);
                    } else if b == targets@.len() {
                        assert(s[b] == new_node);
                        assert(s[a] == targets@[a]);
                    }
                }
                assert(s.no_duplicates());
                lemma_distinct_missing(s, (k + 1) as usize);
                let u = choose|u: usize| u < ((k + 1) as usize) && !s.contains(u);
                assert(!targets@.contains(u)) by {
                    if targets@.contains(u) {
                        let w = choose|w: int|
                            0 <= w < targets@.len() && targets@[w] == u;
                        assert(s[w] == u);
                    }
                }
                assert(u != new_node) by {
                    assert(s[targets@.len() as int] == new_node);
                    if u == new_node {
                        assert(s.contains(u));
                    }
                }
                let ui: int = u as int;
                assert(ui <= k);
                assert(dl@.contains(ui as usize));
                assert(ui as usize == u);
                assert(dl@.contains(u));
                let w = choose|w: int| 0 <= w < dl@.len() && dl@[w] == u;
                assert(filtered@.contains(dl@[w]));
                assert(filtered@.len() >= 1);
            }
            let idx = rand_below(filtered.len());
            let tgt = filtered[idx];
            let ghost old_targets = targets@;
            let ghost old_dl = dl@;
            let ghost old_pop = popularity@;
            targets.push(tgt);
            row.push(tgt);
            dl.push(new_node);
            dl.push(tgt);
            proof {
                assert((init + old_targets).push(tgt) =~= init + old_targets.push(tgt));
                assert forall|a: int, b: int|
                    0 <= a < targets@.len() && 0 <= b < targets@.len() && a != b
                    implies targets@[a] != targets@[b] by {
                    if a == old_targets.len() {
                        assert(targets@[a] == tgt);
                        assert(targets@[b] == old_targets[b]);
                    } else if b == old_targets.len() {
                        assert(targets@[b] == tgt);
                        assert(targets@[a] == old_targets[a]);
                    }
                }
                assert(targets@.no_duplicates());
                assert forall|u: usize| old_dl.contains(u) implies dl@.contains(u) by {
                    let w = choose|w: int| 0 <= w < old_dl.len() && old_dl[w] == u;
                    assert(dl@[w] == u);
                }
                assert(popularity@[new_node as int] <= sum_weights(popularity@)) by {
                    lemma_weight_le_sum(popularity@, new_node as int);
                }
                assert(old_dl.len() + 2 <= 2 * (n as nat) * (k as nat) + 2) by (nonlinear_arith)
                    requires
                        old_dl.len() == seed_entries + 2 * ((new_node - k) * k) + 2 * (
                        targets@.len() - 1),
                        seed_entries == (if k == 1 {
                            2int
                        } else {
                            2 * (k * k)
                        }),
                        1 <= k < n,
                        k <= new_node < n,
                        1 <= targets@.len() <= k,
                ;
                lemma_sum_weights_update(
                    popularity@,
                    new_node as int,
                    (popularity@[new_node as int] + 1) as usize,
                );
            }
            let c1 = popularity[new_node];
            popularity.set(new_node, c1 + 1);
            proof {
                assert(popularity@[tgt as int] <= sum_weights(popularity@)) by {
                    lemma_weight_le_sum(popularity@, tgt as int);
                }
                lemma_sum_weights_update(
                    popularity@,
                    tgt as int,
                    (popularity@[tgt as int] + 1) as usize,
                );
            }
            let c2 = popularity[tgt];
            popularity.set(tgt, c2 + 1);
            proof {
                assert forall|u: int| 0 <= u <= k
                    implies #[trigger] dl@.contains(u as usize) by {
                    assert(old_dl.contains(u as usize));
                }
                assert forall|v: int| 0 <= v < n implies (#[trigger] popularity@[v]) as int
                    == spec_popularity_of(adj@, k as int, v) + (if v == new_node {
                    targets@.len() as int
                } else {
                    0int
                }) + count_occurrences(targets@, v) by {
                    lemma_count_occurrences_push(old_targets, tgt, v);
                    assert(popularity@[v] == old_pop[v] + (if v == new_node {
                        1int
                    } else {
                        0int
                    }) + (if v == tgt {
                        1int
                    } else {
                        0int
                    }));
                }
            }
        }
        let ghost old_adj = adj@;
        adj.push(row);
        proof {
            assert(seed_entries + 2 * ((new_node - k) * k) + 2 * (k as int) == seed_entries + 2
                * (((new_node + 1) - k) * k)) by (nonlinear_arith);
            assert(adj@[new_node as int]@.len() == init.len() + k);
            assert forall|v: int| 0 <= v < n implies (#[trigger] popularity@[v]) as int
                == spec_popularity_of(adj@, k as int, v) by {
                assert(adj@ == old_adj.push(adj@[new_node as int]));
                lemma_in_degree_push(old_adj, adj@[new_node as int], v, new_node as int);
                assert(spec_in_degree(adj@, v, new_node + 1) == spec_in_degree(
                    old_adj,
                    v,
                    new_node as int,
                ) + count_occurrences(adj@[new_node as int]@, v));
                assert(adj@[new_node as int]@ == init + targets@);
                lemma_count_occurrences_concat(init, targets@, v);
                if k == 1 && new_node == 1 {
                    assert(init =~= seq![0usize]);
                    assert(seq![0usize].drop_first() =~= Seq::<usize>::empty());
                    assert(count_occurrences(Seq::<usize>::empty(), v) == 0);
                    assert(count_occurrences(seq![0usize], v) == (if v == 0 {
                        1 as nat
                    } else {
                        0 as nat
                    }));
                    assert(count_occurrences(init, v) == (if v == 0 {
                        1 as nat
                    } else {
                        0 as nat
                    }));
                } else {
                    assert(init =~= Seq::<usize>::empty());
                    assert(count_occurrences(init, v) == 0);
                }
            }
        }
        new_node = new_node + 1;
    }
    proof {
        assert(sum_weights(popularity@) <= 2 * (n as nat) * (k as nat) + 2) by (nonlinear_arith)
            requires
                sum_weights(popularity@) == seed_entries + 2 * ((n - k) as int * k as int),
                seed_entries == (if k == 1 {
                    2int
                } else {
                    2 * (k * k)
                }),
                1 <= k < n,
        ;
    }
    (adj, popularity)
}

} // verus!
