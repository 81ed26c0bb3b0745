//! Entry points of the sequential searcher, one per supported option count,
//! mirroring the dispatch by number of options. Each fixes the tuple width
//! and runs the same exhaustive search against a projective target point,
//! whose compressed form the contracts name.

use vstd::prelude::*;

use crate::curve::{compress_of, gen_pow_bytes, point_compress};
use crate::errors::TallyError;
use crate::search::{search_tally, seq_sum, weighted_sum};

verus! {

/// Exhaustive tally search over two options: a returned tuple encodes
/// the target, and failure means no tuple in the space does.
pub fn base_search2(m: babyjubjub_rs::PointProjective, voters: u32, bases: &Vec<u128>)
    -> (r: Result<Vec<u128>, TallyError>)
    requires
        bases@.len() == 2,
        forall|j: int| 0 <= j < bases@.len() ==> #[trigger] bases@[j] <= bases@[bases@.len() - 1],
        (voters as nat) * (bases@[bases@.len() - 1] as nat) <= u128::MAX,
    ensures
        r matches Ok(v) ==> v@.len() == 2 && seq_sum(v@) <= voters && gen_pow_bytes(
            weighted_sum(v@, bases@),
        ) == compress_of(m),
        r is Err ==> r == Err::<Vec<u128>, TallyError>(TallyError::TallyUndecodable) && (forall|
            t: Seq<u128>,
        |
            t.len() == 2 && seq_sum(t) <= voters ==> gen_pow_bytes(
                #[trigger] weighted_sum(t, bases@),
            ) != compress_of(m)),
{
    let target = point_compress(&m);
    search_tally(&target, voters, bases)
}

/// Exhaustive tally search over three options: a returned tuple encodes
/// the target, and failure means no tuple in the space does.
pub fn base_search3(m: babyjubjub_rs::PointProjective, voters: u32, bases: &Vec<u128>)
    -> (r: Result<Vec<u128>, TallyError>)
    requires
        bases@.len() == 3,
        forall|j: int| 0 <= j < bases@.len() ==> #[trigger] bases@[j] <= bases@[bases@.len() - 1],
        (voters as nat) * (bases@[bases@.len() - 1] as nat) <= u128::MAX,
    ensures
        r matches Ok(v) ==> v@.len() == 3 && seq_sum(v@) <= voters && gen_pow_bytes(
            weighted_sum(v@, bases@),
        ) == compress_of(m),
        r is Err ==> r == Err::<Vec<u128>, TallyError>(TallyError::TallyUndecodable) && (forall|
            t: Seq<u128>,
        |
            t.len() == 3 && seq_sum(t) <= voters ==> gen_pow_bytes(
                #[trigger] weighted_sum(t, bases@),
            ) != compress_of(m)),
{
    let target = point_compress(&m);
    search_tally(&target, voters, bases)
}

/// Exhaustive tally search over four options: a returned tuple encodes
/// the target, and failure means no tuple in the space does.
pub fn base_search4(m: babyjubjub_rs::PointProjective, voters: u32, bases: &Vec<u128>)
    -> (r: Result<Vec<u128>, TallyError>)
    requires
        bases@.len() == 4,
        forall|j: int| 0 <= j < bases@.len() ==> #[trigger] bases@[j] <= bases@[bases@.len() - 1],
        (voters as nat) * (bases@[bases@.len() - 1] as nat) <= u128::MAX,
    ensures
        r matches Ok(v) ==> v@.len() == 4 && seq_sum(v@) <= voters && gen_pow_bytes(
            weighted_sum(v@, bases@),
        ) == compress_of(m),
        r is Err ==> r == Err::<Vec<u128>, TallyError>(TallyError::TallyUndecodable) && (forall|
            t: Seq<u128>,
        |
            t.len() == 4 && seq_sum(t) <= voters ==> gen_pow_bytes(
                #[trigger] weighted_sum(t, bases@),
            ) != compress_of(m)),
{
    let target = point_compress(&m);
    search_tally(&target, voters, bases)
}

/// Exhaustive tally search over five options: a returned tuple encodes
/// the target, and failure means no tuple in the space does.
pub fn base_search5(m: babyjubjub_rs::PointProjective, voters: u32, bases: &Vec<u128>)
    -> (r: Result<Vec<u128>, TallyError>)
    requires
        bases@.len() == 5,
        forall|j: int| 0 <= j < bases@.len() ==> #[trigger] bases@[j] <= bases@[bases@.len() - 1],
        (voters as nat) * (bases@[bases@.len() - 1] as nat) <= u128::MAX,
    ensures
        r matches Ok(v) ==> v@.len() == 5 && seq_sum(v@) <= voters && gen_pow_bytes(
            weighted_sum(v@, bases@),
        ) == compress_of(m),
        r is Err ==> r == Err::<Vec<u128>, TallyError>(TallyError::TallyUndecodable) && (forall|
            t: Seq<u128>,
        |
            t.len() == 5 && seq_sum(t) <= voters ==> gen_pow_bytes(
                #[trigger] weighted_sum(t, bases@),
            ) != compress_of(m)),
{
    let target = point_compress(&m);
    search_tally(&target, voters, bases)
}

/// Exhaustive tally search over six options: a returned tuple encodes
/// the target, and failure means no tuple in the space does.
pub fn base_search6(m: babyjubjub_rs::PointProjective, voters: u32, bases: &Vec<u128>)
    -> (r: Result<Vec<u128>, TallyError>)
    requires
        bases@.len() == 6,
        forall|j: int| 0 <= j < bases@.len() ==> #[trigger] bases@[j] <= bases@[bases@.len() - 1],
        (voters as nat) * (bases@[bases@.len() - 1] as nat) <= u128::MAX,
    ensures
        r matches Ok(v) ==> v@.len() == 6 && seq_sum(v@) <= voters && gen_pow_bytes(
            weighted_sum(v@, bases@),
        ) == compress_of(m),
        r is Err ==> r == Err::<Vec<u128>, TallyError>(TallyError::TallyUndecodable) && (forall|
            t: Seq<u128>,
        |
            t.len() == 6 && seq_sum(t) <= voters ==> gen_pow_bytes(
                #[trigger] weighted_sum(t, bases@),
            ) != compress_of(m)),
{
    let target = point_compress(&m);
    search_tally(&target, voters, bases)
}

/// Exhaustive tally search over seven options: a returned tuple encodes
/// the target, and failure means no tuple in the space does.
pub fn base_search7(m: babyjubjub_rs::PointProjective, voters: u32, bases: &Vec<u128>)
    -> (r: Result<Vec<u128>, TallyError>)
    requires
        bases@.len() == 7,
        forall|j: int| 0 <= j < bases@.len() ==> #[trigger] bases@[j] <= bases@[bases@.len() - 1],
        (voters as nat) * (bases@[bases@.len() - 1] as nat) <= u128::MAX,
    ensures
        r matches Ok(v) ==> v@.len() == 7 && seq_sum(v@) <= voters && gen_pow_bytes(
            weighted_sum(v@, bases@),
        ) == compress_of(m),
        r is Err ==> r == Err::<Vec<u128>, TallyError>(TallyError::TallyUndecodable) && (forall|
            t: Seq<u128>,
        |
            t.len() == 7 && seq_sum(t) <= voters ==> gen_pow_bytes(
                #[trigger] weighted_sum(t, bases@),
            ) != compress_of(m)),
{
    let target = point_compress(&m);
    search_tally(&target, voters, bases)
}

/// Exhaustive tally search over eight options: a returned tuple encodes
/// the target, and failure means no tuple in the space does.
pub fn base_search8(m: babyjubjub_rs::PointProjective, voters: u32, bases: &Vec<u128>)
    -> (r: Result<Vec<u128>, TallyError>)
    requires
        bases@.len() == 8,
        forall|j: int| 0 <= j < bases@.len() ==> #[trigger] bases@[j] <= bases@[bases@.len() - 1],
        (voters as nat) * (bases@[bases@.len() - 1] as nat) <= u128::MAX,
    ensures
        r matches Ok(v) ==> v@.len() == 8 && seq_sum(v@) <= voters && gen_pow_bytes(
            weighted_sum(v@, bases@),
        ) == compress_of(m),
        r is Err ==> r == Err::<Vec<u128>, TallyError>(TallyError::TallyUndecodable) && (forall|
            t: Seq<u128>,
        |
            t.len() == 8 && seq_sum(t) <= voters ==> gen_pow_bytes(
                #[trigger] weighted_sum(t, bases@),
            ) != compress_of(m)),
{
    let target = point_compress(&m);
    search_tally(&target, voters, bases)
}

/// Exhaustive tally search over nine options: a returned tuple encodes
/// the target, and failure means no tuple in the space does.
pub fn base_search9(m: babyjubjub_rs::PointProjective, voters: u32, bases: &Vec<u128>)
    -> (r: Result<Vec<u128>, TallyError>)
    requires
        bases@.len() == 9,
        forall|j: int| 0 <= j < bases@.len() ==> #[trigger] bases@[j] <= bases@[bases@.len() - 1],
        (voters as nat) * (bases@[bases@.len() - 1] as nat) <= u128::MAX,
    ensures
        r matches Ok(v) ==> v@.len() == 9 && seq_sum(v@) <= voters && gen_pow_bytes(
            weighted_sum(v@, bases@),
        ) == compress_of(m),
        r is Err ==> r == Err::<Vec<u128>, TallyError>(TallyError::TallyUndecodable) && (forall|
            t: Seq<u128>,
        |
            t.len() == 9 && seq_sum(t) <= voters ==> gen_pow_bytes(
                #[trigger] weighted_sum(t, bases@),
            ) != compress_of(m)),
{
    let target = point_compress(&m);
    search_tally(&target, voters, bases)
}

/// Exhaustive tally search over ten options: a returned tuple encodes
/// the target, and failure means no tuple in the space does.
pub fn base_search10(m: babyjubjub_rs::PointProjective, voters: u32, bases: &Vec<u128>)
    -> (r: Result<Vec<u128>, TallyError>)
    requires
        bases@.len() == 10,
        forall|j: int| 0 <= j < bases@.len() ==> #[trigger] bases@[j] <= bases@[bases@.len() - 1],
        (voters as nat) * (bases@[bases@.len() - 1] as nat) <= u128::MAX,
    ensures
        r matches Ok(v) ==> v@.len() == 10 && seq_sum(v@) <= voters && gen_pow_bytes(
            weighted_sum(v@, bases@),
        ) == compress_of(m),
        r is Err ==> r == Err::<Vec<u128>, TallyError>(TallyError::TallyUndecodable) && (forall|
            t: Seq<u128>,
        |
            t.len() == 10 && seq_sum(t) <= voters ==> gen_pow_bytes(
                #[trigger] weighted_sum(t, bases@),
            ) != compress_of(m)),
{
    let target = point_compress(&m);
    search_tally(&target, voters, bases)
}

} // verus!
