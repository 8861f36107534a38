//! The one place the simulation draws randomness: initial agent placement
//! at setup. Nothing is assumed of a draw beyond its range.
use vstd::prelude::*;

verus! {

/// Relies on rand::random_range: a sample drawn from the inclusive range
/// `lo..=hi` lies within it, and the range is non-empty since `lo <= hi`
/// (an empty range would make the draw panic).
#[verifier::external_body]
pub(crate) fn random_in_range(lo: i64, hi: i64) -> (r: i64)
    requires
        lo <= hi,
    ensures
        lo <= r <= hi,
{
    rand::random_range(lo..=hi)
}

} // verus!
