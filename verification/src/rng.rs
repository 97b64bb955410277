use rand::RngExt;
use vstd::prelude::*;

verus! {

/// Relies on rand: `rand::rng().random_range(lo..=hi)` returns a uniformly
/// distributed value of the inclusive range and panics only when the range
/// is empty. Nothing more than membership in the range is assumed of any
/// one draw.
#[verifier::external_body]
pub(crate) fn random_i64_between(lo: i64, hi: i64) -> (r: i64)
    requires
        lo <= hi,
    ensures
        lo <= r <= hi,
{
    rand::rng().random_range(lo..=hi)
}

} // verus!
