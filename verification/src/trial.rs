//! The trial engine: assign producer and tallier roles by degree-weighted
//! sampling and decide whether every producer's secret can be reconstructed —
//! each producer that is not itself a tallier needs at least `threshold` of
//! its guardians among the talliers.

use vstd::prelude::*;

use crate::counting::{count_and, count_and_not, count_true, gather,
    lemma_count_all_false, lemma_count_and_all, lemma_count_and_update, lemma_count_positive_all,
    lemma_count_split, lemma_count_true_full, lemma_count_true_push, lemma_count_true_update,
    lemma_count_true_zero, sum_weights};
use crate::errors::SampleError;
use crate::graph::{generate_barabasi_albert_graph, generate_full_graph, generate_random_graph,
    spec_popularity_of};
use crate::sampler::{select_nodes_by_degree, select_nodes_by_degree_subset};

verus! {

/// The graph model a simulation runs over.
#[derive(Clone, Copy, Debug, PartialEq, Eq, Structural)]
pub enum NetworkModel {
    BarabasiAlbert,
    RandomGraph,
    Dkg,
}

/// The indices whose bit is set, in ascending order.
pub open spec fn members(f: Seq<bool>) -> Seq<usize>
    decreases f.len(),
{
    if f.len() == 0 {
        Seq::empty()
    } else {
        members(f.drop_last()) + if f.last() {
            seq![(f.len() - 1) as usize]
        } else {
            Seq::empty()
        }
    }
}

/// The indices whose bit is clear, in ascending order.
pub open spec fn nonmembers(f: Seq<bool>) -> Seq<usize>
    decreases f.len(),
{
    if f.len() == 0 {
        Seq::empty()
    } else {
        nonmembers(f.drop_last()) + if f.last() {
            Seq::empty()
        } else {
            seq![(f.len() - 1) as usize]
        }
    }
}

/// There are as many set indices as set bits.
pub proof fn lemma_members_len(f: Seq<bool>)
    ensures
        members(f).len() == count_true(f),
    decreases f.len(),
{
    if f.len() > 0 {
        lemma_members_len(f.drop_last());
        assert(f =~= f.drop_last().push(f.last()));
        lemma_count_true_push(f.drop_last(), f.last());
    }
}

/// There are as many clear indices as clear bits.
pub proof fn lemma_nonmembers_len(f: Seq<bool>)
    ensures
        nonmembers(f).len() == f.len() - count_true(f),
    decreases f.len(),
{
    if f.len() > 0 {
        lemma_nonmembers_len(f.drop_last());
        assert(f =~= f.drop_last().push(f.last()));
        lemma_count_true_push(f.drop_last(), f.last());
    }
}

/// How many of the listed guardians are talliers.
pub open spec fn count_marked(t: Seq<bool>, g: Seq<usize>) -> nat
    decreases g.len(),
{
    if g.len() == 0 {
        0
    } else {
        (if t[g[0] as int] {
            1 as nat
        } else {
            0 as nat
        }) + count_marked(t, g.drop_first())
    }
}

/// Appending a guardian adds one to the count exactly when it is a tallier.
pub proof fn lemma_count_marked_push(t: Seq<bool>, g: Seq<usize>, x: usize)
    ensures
        count_marked(t, g.push(x)) == count_marked(t, g) + if t[x as int] {
            1 as nat
        } else {
            0 as nat
        },
    decreases g.len(),
{
    if g.len() == 0 {
        assert(g.push(x).drop_first() =~= Seq::<usize>::empty());
        assert(g.push(x)[0] == x);
        assert(count_marked(t, Seq::<usize>::empty()) == 0);
    } else {
        assert(g.push(x).drop_first() =~= g.drop_first().push(x));
        lemma_count_marked_push(t, g.drop_first(), x);
    }
}

/// Over the guardians `0, 1, ..., m - 1`, the tallier count is the bitmap's
/// prefix count.
pub proof fn lemma_count_marked_ascending(t: Seq<bool>, m: int)
    requires
        t.len() <= usize::MAX,
        0 <= m <= t.len(),
    ensures
        count_marked(t, Seq::new(m as nat, |j: int| j as usize)) == count_true(t.take(m)),
    decreases m,
{
    if m == 0 {
        assert(t.take(0) =~= Seq::<bool>::empty());
    } else {
        lemma_count_marked_ascending(t, m - 1);
        assert(Seq::new(m as nat, |j: int| j as usize) =~= Seq::new(
            (m - 1) as nat,
            |j: int| j as usize,
        ).push((m - 1) as usize));
        lemma_count_marked_push(t, Seq::new((m - 1) as nat, |j: int| j as usize), (m - 1) as usize);
        assert(t.take(m) =~= t.take(m - 1).push(t[m - 1]));
        crate::counting::lemma_count_true_push(t.take(m - 1), t[m - 1]);
    }
}

/// Over the complete-graph guardian row of `v` — every node but `v` — the
/// tallier count is the whole tallier count, less one if `v` is a tallier.
pub proof fn lemma_count_marked_complete_row(t: Seq<bool>, v: int, m: int)
    requires
        t.len() <= usize::MAX,
        0 <= v < t.len(),
        v + 1 <= m <= t.len(),
    ensures
        count_marked(
            t,
            Seq::new((m - 1) as nat, |j: int| if j < v {
                j as usize
            } else {
                (j + 1) as usize
            }),
        ) == count_true(t.take(m)) - (if t[v] {
            1int
        } else {
            0int
        }),
    decreases m,
{
    let row = Seq::new((m - 1) as nat, |j: int| if j < v {
        j as usize
    } else {
        (j + 1) as usize
    });
    if m == v + 1 {
        assert(row =~= Seq::new(v as nat, |j: int| j as usize));
        lemma_count_marked_ascending(t, v);
        assert(t.take(m) =~= t.take(v).push(t[v]));
        crate::counting::lemma_count_true_push(t.take(v), t[v]);
    } else {
        let prev = Seq::new((m - 2) as nat, |j: int| if j < v {
            j as usize
        } else {
            (j + 1) as usize
        });
        lemma_count_marked_complete_row(t, v, m - 1);
        assert(row =~= prev.push((m - 1) as usize));
        lemma_count_marked_push(t, prev, (m - 1) as usize);
        assert(t.take(m) =~= t.take(m - 1).push(t[m - 1]));
        crate::counting::lemma_count_true_push(t.take(m - 1), t[m - 1]);
    }
}

/// With no talliers at all, no guardian is a tallier.
pub proof fn lemma_count_marked_none(t: Seq<bool>, g: Seq<usize>)
    requires
        forall|i: int| 0 <= i < t.len() ==> !t[i],
        forall|q: int| 0 <= q < g.len() ==> (#[trigger] g[q]) < t.len(),
    ensures
        count_marked(t, g) == 0,
    decreases g.len(),
{
    if g.len() > 0 {
        assert(!t[g[0] as int]);
        assert forall|q: int| 0 <= q < g.drop_first().len()
            implies (#[trigger] g.drop_first()[q]) < t.len() by {
            assert(g.drop_first()[q] == g[q + 1]);
        }
        lemma_count_marked_none(t, g.drop_first());
    }
}

/// One liveness trial's state: the guardian graph, the degree weights the
/// samplers use, and the two role bitmaps.
pub struct NetworkSimulation {
    pub number_of_nodes: usize,
    pub threshold: usize,
    pub fdkg_array: Vec<bool>,
    pub talliers_array: Vec<bool>,
    pub adjacency_list: Vec<Vec<usize>>,
    pub degrees: Vec<usize>,
}

impl NetworkSimulation {
    /// Structural soundness: the arrays cover the node set, every guardian is
    /// a node, and every node carries positive sampling weight.
    pub open spec fn wf(self) -> bool {
        &&& self.fdkg_array@.len() == self.number_of_nodes
        &&& self.talliers_array@.len() == self.number_of_nodes
        &&& self.adjacency_list@.len() == self.number_of_nodes
        &&& self.degrees@.len() == self.number_of_nodes
        &&& forall|v: int, j: int|
            0 <= v < self.number_of_nodes && 0 <= j < self.adjacency_list@[v]@.len() ==> (
            #[trigger] self.adjacency_list@[v]@[j]) < self.number_of_nodes
        &&& forall|v: int| 0 <= v < self.number_of_nodes ==> (#[trigger] self.degrees@[v]) >= 1
        &&& sum_weights(self.degrees@) <= usize::MAX
    }

    /// Whether the current role assignment lets every producer's secret be
    /// reconstructed: the threshold is meaningful, and each producer that is
    /// not itself a tallier has at least `threshold` talliers among its
    /// guardians.
    pub open spec fn decipherable(self) -> bool {
        &&& self.threshold >= 1
        &&& forall|v: int|
            0 <= v < self.number_of_nodes && self.fdkg_array@[v] && !self.talliers_array@[v]
                ==> count_marked(self.talliers_array@, (#[trigger] self.adjacency_list@[v])@)
                >= self.threshold
    }

    /// A fresh simulation over a newly generated graph, with no roles
    /// assigned yet.
    pub fn new(
        number_of_nodes: usize,
        number_of_guardians: usize,
        threshold: usize,
        network_model: NetworkModel,
    ) -> (s: Self)
        requires
            network_model == NetworkModel::BarabasiAlbert ==> 1 <= number_of_guardians
                < number_of_nodes && 2 * (number_of_nodes as nat) * (number_of_guardians as nat)
                + 2 <= usize::MAX,
            network_model == NetworkModel::RandomGraph ==> 1 <= number_of_guardians
                < number_of_nodes && (number_of_nodes as nat) * (number_of_guardians as nat)
                <= usize::MAX,
            network_model == NetworkModel::Dkg ==> 2 <= number_of_nodes && (
            number_of_nodes as nat) * (number_of_nodes as nat) <= usize::MAX,
        ensures
            s.wf(),
            s.number_of_nodes == number_of_nodes,
            s.threshold == threshold,
            forall|v: int| 0 <= v < number_of_nodes ==> !(#[trigger] s.fdkg_array@[v]),
            forall|v: int| 0 <= v < number_of_nodes ==> !(#[trigger] s.talliers_array@[v]),
            network_model == NetworkModel::RandomGraph ==> forall|v: int|
                0 <= v < number_of_nodes ==> (#[trigger] s.adjacency_list@[v])@.len()
                    == number_of_guardians,
            network_model == NetworkModel::RandomGraph ==> forall|v: int|
                0 <= v < number_of_nodes ==> (#[trigger] s.degrees@[v]) == number_of_guardians,
            network_model == NetworkModel::Dkg ==> forall|v: int|
                0 <= v < number_of_nodes ==> (#[trigger] s.degrees@[v]) == number_of_nodes - 1,
            network_model == NetworkModel::BarabasiAlbert ==> forall|v: int|
                0 <= v < number_of_nodes ==> (#[trigger] s.degrees@[v]) as int
                    == spec_popularity_of(s.adjacency_list@, number_of_guardians as int, v),
            network_model == NetworkModel::Dkg ==> forall|v: int|
                0 <= v < number_of_nodes ==> (#[trigger] s.adjacency_list@[v])@.len()
                    == number_of_nodes - 1,
            network_model == NetworkModel::Dkg ==> forall|v: int, j: int|
                0 <= v < number_of_nodes && 0 <= j < number_of_nodes - 1 ==> (
                #[trigger] s.adjacency_list@[v]@[j]) == if j < v {
                    j
                } else {
                    j + 1
                },
    {
        let mut fdkg_array: Vec<bool> = Vec::new();
        let mut talliers_array: Vec<bool> = Vec::new();
        let mut z: usize = 0;
        while z < number_of_nodes
            invariant
                z <= number_of_nodes,
                fdkg_array@.len() == z,
                talliers_array@.len() == z,
                forall|v: int| 0 <= v < z ==> !(#[trigger] fdkg_array@[v]),
                forall|v: int| 0 <= v < z ==> !(#[trigger] talliers_array@[v]),
            decreases number_of_nodes - z,
        {
            fdkg_array.push(false);
            talliers_array.push(false);
            z = z + 1;
        }
        let (adjacency_list, degrees) = match network_model {
            NetworkModel::BarabasiAlbert => generate_barabasi_albert_graph(
                number_of_nodes,
                number_of_guardians,
            ),
            NetworkModel::RandomGraph => generate_random_graph(
                number_of_nodes,
                number_of_guardians,
            ),
            NetworkModel::Dkg => generate_full_graph(number_of_nodes),
        };
        proof {
            if network_model == NetworkModel::Dkg {
                assert((number_of_nodes as nat) * ((number_of_nodes - 1) as nat) <= (
                number_of_nodes as nat) * (number_of_nodes as nat)) by (nonlinear_arith)
                    requires
                        number_of_nodes >= 1,
                ;
            }
        }
        NetworkSimulation {
            number_of_nodes,
            threshold,
            fdkg_array,
            talliers_array,
            adjacency_list,
            degrees,
        }
    }

    /// Whether every producer that is not itself a tallier has at least
    /// `threshold` of its guardians among the talliers. A threshold of zero
    /// is rejected outright.
    #[verifier::loop_isolation(false)]
    pub fn check_decipherability(&self) -> (b: bool)
        requires
            self.wf(),
        ensures
            b == self.decipherable(),
    {
        let threshold = self.threshold;
        if threshold == 0 {
            return false;
        }
        let mut node_id: usize = 0;
        while node_id < self.number_of_nodes
            invariant
                node_id <= self.number_of_nodes,
                forall|v: int|
                    0 <= v < node_id && self.fdkg_array@[v] && !self.talliers_array@[v]
                        ==> count_marked(
                        self.talliers_array@,
                        (#[trigger] self.adjacency_list@[v])@,
                    ) >= self.threshold,
            decreases self.number_of_nodes - node_id,
        {
            if self.fdkg_array[node_id] && !self.talliers_array[node_id] {
                let guardians = &self.adjacency_list[node_id];
                let mut participating_count: usize = 0;
                let mut gi: usize = 0;
                while gi < guardians.len()
                    invariant
                        gi <= guardians@.len(),
                        guardians@ == self.adjacency_list@[node_id as int]@,
                        node_id < self.number_of_nodes,
                        participating_count == count_marked(
                            self.talliers_array@,
                            guardians@.take(gi as int),
                        ),
                        participating_count <= gi,
                    decreases guardians@.len() - gi,
                {
                    proof {
                        assert(guardians@.take(gi + 1) =~= guardians@.take(gi as int).push(
                            guardians@[gi as int],
                        ));
                        lemma_count_marked_push(
                            self.talliers_array@,
                            guardians@.take(gi as int),
                            guardians@[gi as int],
                        );
                    }
                    let guardian_id = guardians[gi];
                    if self.talliers_array[guardian_id] {
                        participating_count = participating_count + 1;
                    }
                    gi = gi + 1;
                }
                proof {
                    assert(guardians@.take(guardians@.len() as int) =~= guardians@);
                }
                if participating_count < threshold {
                    return false;
                }
            }
            node_id = node_id + 1;
        }
        true
    }

    /// Select the producer set: `size` distinct nodes drawn by degree weight
    /// over all nodes. Under well-formedness every node carries weight, so
    /// the draw succeeds exactly when `size` is at most the node count.
    pub fn select_fdkg_set(&mut self, size: usize) -> (r: Result<(), SampleError>)
        requires
            old(self).wf(),
        ensures
            final(self).wf(),
            final(self).number_of_nodes == old(self).number_of_nodes,
            final(self).threshold == old(self).threshold,
            final(self).talliers_array == old(self).talliers_array,
            final(self).adjacency_list == old(self).adjacency_list,
            final(self).degrees == old(self).degrees,
            r is Ok ==> count_true(final(self).fdkg_array@) == size,
            (r is Ok) <==> size <= old(self).number_of_nodes,
            r is Err ==> *final(self) == *old(self) && r == Err::<(), SampleError>(
                SampleError::InsufficientMass,
            ),
    {
        proof {
            lemma_count_positive_all(self.degrees@);
        }
        let picks = match select_nodes_by_degree(&self.degrees, size) {
            Ok(p) => p,
            Err(e) => {
                return Err(e);
            },
        };
        let n = self.number_of_nodes;
        let mut arr: Vec<bool> = Vec::new();
        let mut z: usize = 0;
        while z < n
            invariant
                z <= n,
                arr@.len() == z,
                forall|v: int| 0 <= v < z ==> !(#[trigger] arr@[v]),
            decreases n - z,
        {
            arr.push(false);
            z = z + 1;
        }
        proof {
            lemma_count_all_false(arr@, arr@);
        }
        let mut i: usize = 0;
        while i < picks.len()
            invariant
                i <= picks@.len(),
                arr@.len() == n,
                n == old(self).number_of_nodes,
                picks@.no_duplicates(),
                picks@.len() == size,
                forall|q: int| 0 <= q < picks@.len() ==> (#[trigger] picks@[q]) < n,
                count_true(arr@) == i,
                forall|v: int|
                    0 <= v < n ==> ((#[trigger] arr@[v]) <==> picks@.take(i as int).contains(
                        v as usize,
                    )),
            decreases picks@.len() - i,
        {
            let pv = picks[i];
            proof {
                if arr@[pv as int] {
                    let tk = picks@.take(i as int);
                    let w = choose|w: int| 0 <= w < tk.len() && tk[w] == pv;
                    assert(picks@[w] == pv);
                    assert(false);
                }
                lemma_count_true_update(arr@, pv as int);
            }
            let ghost old_arr = arr@;
            arr.set(pv, true);
            proof {
                assert forall|v: int|
                    0 <= v < n implies ((#[trigger] arr@[v]) <==> picks@.take(i + 1).contains(
                        v as usize,
                    )) by {
                    if v == pv as int {
                        assert(picks@.take(i + 1)[i as int] == pv);
                        assert(picks@.take(i + 1).contains(pv));
                    } else {
                        assert(arr@[v] == old_arr[v]);
                        if old_arr[v] {
                            let tk = picks@.take(i as int);
                            let w = choose|w: int| 0 <= w < tk.len() && tk[w] == v as usize;
                            assert(picks@.take(i + 1)[w] == v as usize);
                            assert(picks@.take(i + 1).contains(v as usize));
                        }
                        if picks@.take(i + 1).contains(v as usize) {
                            let tk1 = picks@.take(i + 1);
                            let w = choose|w: int| 0 <= w < tk1.len() && tk1[w] == v as usize;
                            assert(w < i);
                            assert(picks@.take(i as int)[w] == v as usize);
                            assert(picks@.take(i as int).contains(v as usize));
                        }
                    }
                }
            }
            i = i + 1;
        }
        self.fdkg_array = arr;
        Ok(())
    }

    /// Select the tallier set: `ret_size` distinct producers and `new_size`
    /// distinct non-producers, each drawn by degree weight within its group.
    /// Succeeds exactly when both groups are large enough.
    pub fn select_talliers_set(&mut self, ret_size: usize, new_size: usize) -> (r: Result<
        (),
        SampleError,
    >)
        requires
            old(self).wf(),
        ensures
            final(self).wf(),
            final(self).number_of_nodes == old(self).number_of_nodes,
            final(self).threshold == old(self).threshold,
            final(self).fdkg_array == old(self).fdkg_array,
            final(self).adjacency_list == old(self).adjacency_list,
            final(self).degrees == old(self).degrees,
            r is Ok ==> count_and(final(self).talliers_array@, old(self).fdkg_array@) == ret_size
                && count_and_not(final(self).talliers_array@, old(self).fdkg_array@) == new_size,
            (r is Ok) <==> (ret_size <= count_true(old(self).fdkg_array@) && new_size <= old(
                self,
            ).number_of_nodes - count_true(old(self).fdkg_array@)),
            r is Err ==> *final(self) == *old(self) && r == Err::<(), SampleError>(
                SampleError::InsufficientMass,
            ),
    {
        let n = self.number_of_nodes;
        let ghost f = self.fdkg_array@;
        let mut fdkg_indices: Vec<usize> = Vec::new();
        let mut non_fdkg_indices: Vec<usize> = Vec::new();
        let mut i: usize = 0;
        while i < n
            invariant
                i <= n,
                n == old(self).number_of_nodes,
                *self == *old(self),
                f == self.fdkg_array@,
                old(self).wf(),
                fdkg_indices@.len() + non_fdkg_indices@.len() == i,
                fdkg_indices@.no_duplicates(),
                non_fdkg_indices@.no_duplicates(),
                forall|q: int|
                    0 <= q < fdkg_indices@.len() ==> (#[trigger] fdkg_indices@[q]) < i && f[
                        fdkg_indices@[q] as int],
                forall|q: int|
                    0 <= q < non_fdkg_indices@.len() ==> (#[trigger] non_fdkg_indices@[q]) < i
                        && !f[non_fdkg_indices@[q] as int],
                fdkg_indices@ == members(f.take(i as int)),
                non_fdkg_indices@ == nonmembers(f.take(i as int)),
            decreases n - i,
        {
            proof {
                assert(f.take(i + 1) =~= f.take(i as int).push(f[i as int]));
                assert(f.take(i + 1).drop_last() =~= f.take(i as int));
                assert(f.take(i + 1).last() == f[i as int]);
            }
            let ghost old_fi = fdkg_indices@;
            let ghost old_ni = non_fdkg_indices@;
            if self.fdkg_array[i] {
                fdkg_indices.push(i);
                proof {
                    assert(fdkg_indices@ =~= members(f.take(i + 1)));
                    assert forall|a: int, b: int|
                        0 <= a < fdkg_indices@.len() && 0 <= b < fdkg_indices@.len() && a != b
                        implies fdkg_indices@[a] != fdkg_indices@[b] by {
                        if a == old_fi.len() {
                            assert(fdkg_indices@[b] == old_fi[b]);
                        } else if b == old_fi.len() {
                            assert(fdkg_indices@[a] == old_fi[a]);
                        }
                    }
                    assert(non_fdkg_indices@ =~= nonmembers(f.take(i + 1)));
                }
            } else {
                non_fdkg_indices.push(i);
                proof {
                    assert(non_fdkg_indices@ =~= nonmembers(f.take(i + 1)));
                    assert forall|a: int, b: int|
                        0 <= a < non_fdkg_indices@.len() && 0 <= b < non_fdkg_indices@.len()
                            && a != b
                        implies non_fdkg_indices@[a] != non_fdkg_indices@[b] by {
                        if a == old_ni.len() {
                            assert(non_fdkg_indices@[b] == old_ni[b]);
                        } else if b == old_ni.len() {
                            assert(non_fdkg_indices@[a] == old_ni[a]);
                        }
                    }
                    assert(fdkg_indices@ =~= members(f.take(i + 1)));
                }
            }
            i = i + 1;
        }
        proof {
            assert(f.take(n as int) =~= f);
            lemma_members_len(f);
            lemma_nonmembers_len(f);
            assert forall|q: int| 0 <= q < gather(fdkg_indices@, self.degrees@).len()
                implies (#[trigger] gather(fdkg_indices@, self.degrees@)[q]) >= 1 by {
                assert(fdkg_indices@[q] < n);
            }
            lemma_count_positive_all(gather(fdkg_indices@, self.degrees@));
            assert forall|q: int| 0 <= q < gather(non_fdkg_indices@, self.degrees@).len()
                implies (#[trigger] gather(non_fdkg_indices@, self.degrees@)[q]) >= 1 by {
                assert(non_fdkg_indices@[q] < n);
            }
            lemma_count_positive_all(gather(non_fdkg_indices@, self.degrees@));
        }
        let ret_picks = match select_nodes_by_degree_subset(
            &fdkg_indices,
            &self.degrees,
            ret_size,
        ) {
            Ok(p) => p,
            Err(e) => {
                return Err(e);
            },
        };
        let new_picks = match select_nodes_by_degree_subset(
            &non_fdkg_indices,
            &self.degrees,
            new_size,
        ) {
            Ok(p) => p,
            Err(e) => {
                return Err(e);
            },
        };
        proof {
            assert forall|q: int| 0 <= q < ret_picks@.len()
                implies f[(#[trigger] ret_picks@[q]) as int] && ret_picks@[q] < n by {
                let x = ret_picks@[q];
                assert(fdkg_indices@.contains(x));
                let w = choose|w: int| 0 <= w < fdkg_indices@.len() && fdkg_indices@[w] == x;
                assert(f[fdkg_indices@[w] as int]);
            }
            assert forall|q: int| 0 <= q < new_picks@.len()
                implies !f[(#[trigger] new_picks@[q]) as int] && new_picks@[q] < n by {
                let x = new_picks@[q];
                assert(non_fdkg_indices@.contains(x));
                let w = choose|w: int|
                    0 <= w < non_fdkg_indices@.len() && non_fdkg_indices@[w] == x;
                assert(!f[non_fdkg_indices@[w] as int]);
            }
        }
        let mut arr: Vec<bool> = Vec::new();
        let mut z: usize = 0;
        while z < n
            invariant
                z <= n,
                arr@.len() == z,
                forall|v: int| 0 <= v < z ==> !(#[trigger] arr@[v]),
            decreases n - z,
        {
            arr.push(false);
            z = z + 1;
        }
        proof {
            lemma_count_all_false(arr@, f);
        }
        let mut a: usize = 0;
        while a < ret_picks.len()
            invariant
                a <= ret_picks@.len(),
                arr@.len() == n,
                n == old(self).number_of_nodes,
                f.len() == n,
                ret_picks@.no_duplicates(),
                ret_picks@.len() == ret_size,
                forall|q: int|
                    0 <= q < ret_picks@.len() ==> (#[trigger] ret_picks@[q]) < n && f[
                        ret_picks@[q] as int],
                count_and(arr@, f) == a,
                count_and_not(arr@, f) == 0,
                forall|v: int|
                    0 <= v < n ==> ((#[trigger] arr@[v]) <==> ret_picks@.take(a as int).contains(
                        v as usize,
                    )),
            decreases ret_picks@.len() - a,
        {
            let pv = ret_picks[a];
            proof {
                if arr@[pv as int] {
                    let tk = ret_picks@.take(a as int);
                    let w = choose|w: int| 0 <= w < tk.len() && tk[w] == pv;
                    assert(ret_picks@[w] == pv);
                    assert(false);
                }
                lemma_count_and_update(arr@, f, pv as int);
            }
            let ghost old_arr = arr@;
            arr.set(pv, true);
            proof {
                assert forall|v: int|
                    0 <= v < n implies ((#[trigger] arr@[v]) <==> ret_picks@.take(
                        a + 1,
                    ).contains(v as usize)) by {
                    if v == pv as int {
                        assert(ret_picks@.take(a + 1)[a as int] == pv);
                        assert(ret_picks@.take(a + 1).contains(pv));
                    } else {
                        assert(arr@[v] == old_arr[v]);
                        if old_arr[v] {
                            let tk = ret_picks@.take(a as int);
                            let w = choose|w: int| 0 <= w < tk.len() && tk[w] == v as usize;
                            assert(ret_picks@.take(a + 1)[w] == v as usize);
                            assert(ret_picks@.take(a + 1).contains(v as usize));
                        }
                        if ret_picks@.take(a + 1).contains(v as usize) {
                            let tk1 = ret_picks@.take(a + 1);
                            let w = choose|w: int| 0 <= w < tk1.len() && tk1[w] == v as usize;
                            assert(w < a);
                            assert(ret_picks@.take(a as int)[w] == v as usize);
                            assert(ret_picks@.take(a as int).contains(v as usize));
                        }
                    }
                }
            }
            a = a + 1;
        }
        proof {
            assert(ret_picks@.take(ret_picks@.len() as int) =~= ret_picks@);
        }
        let mut b: usize = 0;
        while b < new_picks.len()
            invariant
                b <= new_picks@.len(),
                arr@.len() == n,
                n == old(self).number_of_nodes,
                f.len() == n,
                new_picks@.no_duplicates(),
                new_picks@.len() == new_size,
                ret_picks@.len() == ret_size,
                forall|q: int|
                    0 <= q < new_picks@.len() ==> (#[trigger] new_picks@[q]) < n && !f[
                        new_picks@[q] as int],
                forall|q: int|
                    0 <= q < ret_picks@.len() ==> (#[trigger] ret_picks@[q]) < n && f[
                        ret_picks@[q] as int],
                count_and(arr@, f) == ret_size,
                count_and_not(arr@, f) == b,
                forall|v: int|
                    0 <= v < n ==> ((#[trigger] arr@[v]) <==> (ret_picks@.contains(v as usize)
                        || new_picks@.take(b as int).contains(v as usize))),
            decreases new_picks@.len() - b,
        {
            let pv = new_picks[b];
            proof {
                if arr@[pv as int] {
                    if ret_picks@.contains(pv) {
                        let w = choose|w: int|
                            0 <= w < ret_picks@.len() && ret_picks@[w] == pv;
                        assert(f[ret_picks@[w] as int]);
                        assert(false);
                    }
                    let tk = new_picks@.take(b as int);
                    let w = choose|w: int| 0 <= w < tk.len() && tk[w] == pv;
                    assert(new_picks@[w] == pv);
                    assert(false);
                }
                lemma_count_and_update(arr@, f, pv as int);
            }
            let ghost old_arr = arr@;
            arr.set(pv, true);
            proof {
                assert forall|v: int|
                    0 <= v < n implies ((#[trigger] arr@[v]) <==> (ret_picks@.contains(v as usize)
                        || new_picks@.take(b + 1).contains(v as usize))) by {
                    if v == pv as int {
                        assert(new_picks@.take(b + 1)[b as int] == pv);
                        assert(new_picks@.take(b + 1).contains(pv));
                    } else {
                        assert(arr@[v] == old_arr[v]);
                        if old_arr[v] && !ret_picks@.contains(v as usize) {
                            let tk = new_picks@.take(b as int);
                            let w = choose|w: int| 0 <= w < tk.len() && tk[w] == v as usize;
                            assert(new_picks@.take(b + 1)[w] == v as usize);
                            assert(new_picks@.take(b + 1).contains(v as usize));
                        }
                        if new_picks@.take(b + 1).contains(v as usize) {
                            let tk1 = new_picks@.take(b + 1);
                            let w = choose|w: int| 0 <= w < tk1.len() && tk1[w] == v as usize;
                            assert(w < b);
                            assert(new_picks@.take(b as int)[w] == v as usize);
                            assert(new_picks@.take(b as int).contains(v as usize));
                        }
                    }
                }
            }
            b = b + 1;
        }
        self.talliers_array = arr;
        Ok(())
    }
}

/// One complete trial: generate a fresh graph, select producers and
/// talliers by degree-weighted sampling, and check decipherability.
///
/// With every node a producer and every producer retained as a tallier, the
/// trial always succeeds; with no talliers at all, it succeeds exactly when
/// no producer was selected; and a threshold of zero always fails.
pub fn run_trial(
    number_of_nodes: usize,
    number_of_guardians: usize,
    threshold: usize,
    network_model: NetworkModel,
    fdkg_size: usize,
    ret_size: usize,
    new_size: usize,
) -> (r: Result<bool, SampleError>)
    requires
        network_model == NetworkModel::BarabasiAlbert ==> 1 <= number_of_guardians
            < number_of_nodes && 2 * (number_of_nodes as nat) * (number_of_guardians as nat) + 2
            <= usize::MAX,
        network_model == NetworkModel::RandomGraph ==> 1 <= number_of_guardians < number_of_nodes
            && (number_of_nodes as nat) * (number_of_guardians as nat) <= usize::MAX,
        network_model == NetworkModel::Dkg ==> 2 <= number_of_nodes && (number_of_nodes as nat) * (
        number_of_nodes as nat) <= usize::MAX,
        fdkg_size <= number_of_nodes,
    ensures
        threshold == 0 ==> (r matches Ok(b) ==> !b),
        fdkg_size == number_of_nodes && ret_size == number_of_nodes && new_size == 0 && threshold
            >= 1 ==> r == Ok::<bool, SampleError>(true),
        ret_size == 0 && new_size == 0 && threshold >= 1 ==> r == Ok::<bool, SampleError>(
            fdkg_size == 0,
        ),
        (r is Err) <==> (ret_size > fdkg_size || new_size > number_of_nodes - fdkg_size),
        r is Err ==> r == Err::<bool, SampleError>(SampleError::InsufficientMass),
        network_model == NetworkModel::Dkg && threshold >= 1 && ret_size + new_size >= threshold
            && ret_size <= fdkg_size && new_size <= number_of_nodes - fdkg_size ==> r == Ok::<
            bool,
            SampleError,
        >(true),
{
    let mut simulation = NetworkSimulation::new(
        number_of_nodes,
        number_of_guardians,
        threshold,
        network_model,
    );
    match simulation.select_fdkg_set(fdkg_size) {
        Ok(_) => {},
        Err(e) => {
            return Err(e);
        },
    }
    let ghost f = simulation.fdkg_array@;
    match simulation.select_talliers_set(ret_size, new_size) {
        Ok(_) => {},
        Err(e) => {
            return Err(e);
        },
    }
    let b = simulation.check_decipherability();
    proof {
        let t = simulation.talliers_array@;
        if fdkg_size == number_of_nodes && ret_size == number_of_nodes && new_size == 0
            && threshold >= 1 {
            lemma_count_true_full(f);
            lemma_count_and_all(t, f);
            assert forall|v: int| 0 <= v < simulation.number_of_nodes
                implies (#[trigger] t[v]) by {
                assert(f[v]);
            }
            lemma_all_talliers_decipherable(simulation);
            assert(b);
        }
        if ret_size == 0 && new_size == 0 && threshold >= 1 {
            lemma_count_split(t, f);
            lemma_count_true_zero(t);
            lemma_no_talliers_decipherable(simulation);
            assert(b == (count_true(f) == 0));
            if fdkg_size == 0 {
                assert(count_true(f) == 0);
            }
            if count_true(f) == 0 {
                assert(fdkg_size == 0);
            }
        }
        if network_model == NetworkModel::Dkg && threshold >= 1 && ret_size + new_size
            >= threshold && ret_size <= fdkg_size && new_size <= number_of_nodes - fdkg_size {
            lemma_count_split(t, f);
            assert(count_true(t) == ret_size + new_size);
            lemma_complete_graph_decipherable(simulation);
            assert(b);
        }
    }
    Ok(b)
}

/// In the complete graph, the role assignment is decipherable whenever at
/// least `threshold` talliers exist at all: every producer that is not
/// itself a tallier has every tallier among its guardians.
pub proof fn lemma_complete_graph_decipherable(s: NetworkSimulation)
    requires
        s.wf(),
        s.threshold >= 1,
        forall|v: int|
            0 <= v < s.number_of_nodes ==> (#[trigger] s.adjacency_list@[v])@.len()
                == s.number_of_nodes - 1,
        forall|v: int, j: int|
            0 <= v < s.number_of_nodes && 0 <= j < s.number_of_nodes - 1 ==> (
            #[trigger] s.adjacency_list@[v]@[j]) == (if j < v {
                j
            } else {
                j + 1
            }),
        count_true(s.talliers_array@) >= s.threshold,
    ensures
        s.decipherable(),
{
    let n = s.number_of_nodes as int;
    let t = s.talliers_array@;
    assert forall|v: int| 0 <= v < n && s.fdkg_array@[v] && !t[v]
        implies count_marked(t, (#[trigger] s.adjacency_list@[v])@) >= s.threshold by {
        let row = Seq::new((n - 1) as nat, |j: int| if j < v {
            j as usize
        } else {
            (j + 1) as usize
        });
        assert(s.adjacency_list@[v]@ =~= row);
        lemma_count_marked_complete_row(t, v, n);
        assert(t.take(n) =~= t);
    }
}

/// With every node a tallier, every trial succeeds: no producer needs its
/// guardians at all.
pub proof fn lemma_all_talliers_decipherable(s: NetworkSimulation)
    requires
        s.wf(),
        s.threshold >= 1,
        forall|v: int| 0 <= v < s.number_of_nodes ==> (#[trigger] s.talliers_array@[v]),
    ensures
        s.decipherable(),
{
}

/// With no talliers at all, a trial succeeds exactly when no producer was
/// selected and the threshold is meaningful.
pub proof fn lemma_no_talliers_decipherable(s: NetworkSimulation)
    requires
        s.wf(),
        forall|v: int| 0 <= v < s.number_of_nodes ==> !(#[trigger] s.talliers_array@[v]),
    ensures
        s.decipherable() <==> (s.threshold >= 1 && count_true(s.fdkg_array@) == 0),
{
    if s.threshold >= 1 && count_true(s.fdkg_array@) == 0 {
        lemma_count_true_zero(s.fdkg_array@);
        assert(s.decipherable());
    }
    if s.decipherable() {
        assert forall|v: int| 0 <= v < s.number_of_nodes
            implies !(#[trigger] s.fdkg_array@[v]) by {
            if s.fdkg_array@[v] {
                assert(!s.talliers_array@[v]);
                assert(count_marked(s.talliers_array@, s.adjacency_list@[v]@)
                    >= s.threshold);
                lemma_count_marked_none(s.talliers_array@, s.adjacency_list@[v]@);
            }
        }
        lemma_count_all_false(s.fdkg_array@, s.fdkg_array@);
    }
}

} // verus!
