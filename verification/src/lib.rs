//! Verified research tools for a threshold-voting protocol over the Baby
//! Jubjub curve: a homomorphic ballot tally decryptor, whose heart is an
//! exhaustive bounded discrete-logarithm search over the tally simplex, and
//! a Monte-Carlo liveness simulator for flexible distributed key generation,
//! built on graph generators, a degree-weighted sampler and a trial engine.

pub mod bits;
pub mod counting;
pub mod curve;
pub mod errors;
pub mod graph;
pub mod rng;
pub mod sampler;
pub mod search;
pub mod single;
pub mod sweep;
pub mod trial;
pub mod voting;
