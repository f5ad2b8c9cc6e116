//! The library's only source of randomness: thin trusted wrappers around the
//! `rand` crate. Every caller states what holds of any outcome, so the logic
//! that consumes these draws is verified for every value they can return.
use vstd::prelude::*;

use rand::RngExt;

verus! {

/// Relies on rand::random::<u32>: a uniformly random machine word; nothing
/// can be promised of its value.
#[verifier::external_body]
pub fn random_u32() -> u32 {
    rand::random::<u32>()
}

/// Relies on rand::random::<bool>: a fair coin flip; nothing can be promised
/// of its value.
#[verifier::external_body]
pub fn random_flip() -> bool {
    rand::random::<bool>()
}

/// Relies on rand::RngExt::random_range over `lo..hi`: the sample always
/// lies in the half-open range, and the call panics on an empty range, which
/// the precondition rules out.
#[verifier::external_body]
pub fn random_range_i32(lo: i32, hi: i32) -> (r: i32)
    requires
        lo < hi,
    ensures
        lo <= r < hi,
{
    rand::rng().random_range(lo..hi)
}

} // verus!
