//! Randomness, drawn from the process-wide thread-local generator. Nothing
//! can be promised of which value comes back, only of its range; every
//! function that consumes a draw is verified for all values in that range.

use vstd::prelude::*;

verus! {

/// Relies on `rand::Rng::gen` for `u32` on `rand::thread_rng`: a fresh ballot
/// nonce, uniform over the 32-bit range.
#[verifier::external_body]
pub(crate) fn rand_nonce() -> (r: u64)
    ensures
        r < 0x1_0000_0000,
{
    rand::Rng::gen::<u32>(&mut rand::thread_rng()) as u64
}

/// Relies on `rand::Rng::gen_range` on `rand::thread_rng`: a uniform draw
/// from `[0, bound)`, which is nonempty.
#[verifier::external_body]
pub(crate) fn rand_below(bound: usize) -> (r: usize)
    requires
        bound >= 1,
    ensures
        r < bound,
{
    rand::Rng::gen_range(&mut rand::thread_rng(), 0..bound)
}

} // verus!
