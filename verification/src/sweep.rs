//! The experiment sweep's configuration grid: every combination of node
//! count, guardian count, threshold and role percentages that the simulation
//! evaluates. A driver runs the trials of each cell and collects the success
//! rates.

use vstd::prelude::*;

use crate::trial::NetworkModel;

verus! {

/// One cell of the simulation grid. Percentages are carried in tenths:
/// a producer fraction of 0.6 is stored as 6.
pub struct SimConfig {
    pub nodes: usize,
    pub guardians: usize,
    pub threshold: usize,
    pub fdkg_pct_tenths: u8,
    pub tallier_ret_pct_tenths: u8,
    pub tallier_new_pct_tenths: u8,
}

/// Whether one grid cell is well-formed for `nodes` nodes: a meaningful
/// threshold within the guardian count, fewer guardians than nodes, and
/// fractions between zero and one.
pub open spec fn config_valid(c: SimConfig, nodes: usize) -> bool {
    &&& c.nodes == nodes
    &&& 1 <= c.threshold <= c.guardians
    &&& c.guardians < nodes
    &&& c.fdkg_pct_tenths <= 10
    &&& c.tallier_ret_pct_tenths <= 10
    &&& c.tallier_new_pct_tenths == 0
}

/// The configuration grid for one node count: the guardian and threshold
/// ranges of the chosen model (for the plain DKG, all other nodes are
/// guardians; otherwise both ranges are stepped), crossed with producer and
/// retention fractions from 0.0 to 1.0 in steps of 0.1 and a new-tallier
/// fraction of 0.0.
#[verifier::loop_isolation(false)]
pub fn build_configurations(nodes: usize, network_model: NetworkModel) -> (r: Vec<SimConfig>)
    requires
        nodes >= 2,
        2 * (nodes as nat) + 5 <= usize::MAX,
    ensures
        forall|i: int| 0 <= i < r@.len() ==> config_valid(#[trigger] r@[i], nodes),
        network_model == NetworkModel::Dkg ==> forall|i: int|
            0 <= i < r@.len() ==> (#[trigger] r@[i]).guardians == nodes - 1,
        network_model == NetworkModel::Dkg ==> r@.len() == (nodes - 1) * 121,
        network_model != NetworkModel::Dkg && nodes >= 3 ==> r@.len() >= 121,
{
    let mut configurations: Vec<SimConfig> = Vec::new();
    match network_model {
        NetworkModel::Dkg => {
            let guardians = nodes - 1;
            let mut threshold: usize = 1;
            while threshold <= guardians
                invariant
                    1 <= threshold <= guardians + 1,
                    configurations@.len() == (threshold - 1) * 121,
                    forall|i: int|
                        0 <= i < configurations@.len() ==> config_valid(
                            #[trigger] configurations@[i],
                            nodes,
                        ) && configurations@[i].guardians == nodes - 1,
                decreases guardians + 1 - threshold,
            {
                let mut fp: u8 = 0;
                while fp <= 10
                    invariant
                        fp <= 11,
                        1 <= threshold <= guardians,
                        configurations@.len() == (threshold - 1) * 121 + fp * 11,
                        forall|i: int|
                            0 <= i < configurations@.len() ==> config_valid(
                                #[trigger] configurations@[i],
                                nodes,
                            ) && configurations@[i].guardians == nodes - 1,
                    decreases 11 - fp,
                {
                    let mut rp: u8 = 0;
                    while rp <= 10
                        invariant
                            rp <= 11,
                            fp <= 10,
                            1 <= threshold <= guardians,
                            configurations@.len() == (threshold - 1) * 121 + fp * 11 + rp,
                            forall|i: int|
                                0 <= i < configurations@.len() ==> config_valid(
                                    #[trigger] configurations@[i],
                                    nodes,
                                ) && configurations@[i].guardians == nodes - 1,
                        decreases 11 - rp,
                    {
                        configurations.push(SimConfig {
                            nodes,
                            guardians,
                            threshold,
                            fdkg_pct_tenths: fp,
                            tallier_ret_pct_tenths: rp,
                            tallier_new_pct_tenths: 0,
                        });
                        rp = rp + 1;
                    }
                    fp = fp + 1;
                }
                threshold = threshold + 1;
            }
        },
        _ => {
            let quot = (nodes - 1) / 20;
            let step_g: usize = if quot > 5 {
                quot
            } else {
                5
            };
            let mut guardians: usize = 2;
            while guardians <= nodes - 1
                invariant
                    guardians >= 2,
                    1 <= step_g <= nodes + 5,
                    guardians > 2 ==> configurations@.len() >= 121,
                    forall|i: int|
                        0 <= i < configurations@.len() ==> config_valid(
                            #[trigger] configurations@[i],
                            nodes,
                        ),
                decreases (if guardians < nodes {
                    nodes - guardians
                } else {
                    0int
                }),
            {
                let tq = guardians / 20;
                let step_t: usize = if tq > 1 {
                    tq
                } else {
                    1
                };
                let mut threshold: usize = 1;
                while threshold <= guardians
                    invariant
                        threshold >= 1,
                        1 <= step_t <= guardians,
                        guardians <= nodes - 1,
                        threshold > 1 ==> configurations@.len() >= 121,
                        forall|i: int|
                            0 <= i < configurations@.len() ==> config_valid(
                                #[trigger] configurations@[i],
                                nodes,
                            ),
                    decreases (if threshold <= guardians {
                        guardians + 1 - threshold
                    } else {
                        0int
                    }),
                {
                    let ghost len0 = configurations@.len();
                    let mut fp: u8 = 0;
                    while fp <= 10
                        invariant
                            fp <= 11,
                            1 <= threshold <= guardians <= nodes - 1,
                            configurations@.len() >= len0 + fp * 11,
                            forall|i: int|
                                0 <= i < configurations@.len() ==> config_valid(
                                    #[trigger] configurations@[i],
                                    nodes,
                                ),
                        decreases 11 - fp,
                    {
                        let ghost len1 = configurations@.len();
                        let mut rp: u8 = 0;
                        while rp <= 10
                            invariant
                                rp <= 11,
                                fp <= 10,
                                1 <= threshold <= guardians <= nodes - 1,
                                configurations@.len() == len1 + rp,
                                len1 >= len0 + fp * 11,
                                forall|i: int|
                                    0 <= i < configurations@.len() ==> config_valid(
                                        #[trigger] configurations@[i],
                                        nodes,
                                    ),
                            decreases 11 - rp,
                        {
                            configurations.push(SimConfig {
                                nodes,
                                guardians,
                                threshold,
                                fdkg_pct_tenths: fp,
                                tallier_ret_pct_tenths: rp,
                                tallier_new_pct_tenths: 0,
                            });
                            rp = rp + 1;
                        }
                        fp = fp + 1;
                    }
                    threshold = threshold + step_t;
                }
                guardians = guardians + step_g;
            }
        },
    }
    configurations
}

} // verus!
