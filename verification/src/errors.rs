//! Error kinds shared by the tally decryptor and the liveness simulator.

use vstd::prelude::*;

verus! {

/// A failure of the tally decryptor.
#[derive(Clone, Copy, Debug, PartialEq, Eq, Structural)]
pub enum TallyError {
    /// The searcher exhausted the whole space without a match.
    TallyUndecodable,
    /// An intermediate sum or product exceeds the 128-bit range.
    ArithmeticOverflow,
}

/// A failure of the degree-weighted sampler.
#[derive(Clone, Copy, Debug, PartialEq, Eq, Structural)]
pub enum SampleError {
    /// A selection was requested but the available weight supports fewer picks.
    InsufficientMass,
}

} // verus!
