//! The one place the library draws randomness: a thin face over the
//! `rand` crate. Every contract downstream holds for every value this
//! may return.
use vstd::prelude::*;

verus! {

/// Relies on `rand::Rng::gen_range` over a half-open integer range:
/// the sampled value lies in `[lo, hi)`; it panics only on an empty
/// range, which the precondition rules out.
#[verifier::external_body]
pub fn random_in_range(lo: i64, hi: i64) -> (r: i64)
    requires
        lo < hi,
    ensures
        lo <= r < hi,
{
    rand::Rng::gen_range(&mut rand::thread_rng(), lo..hi)
}

} // verus!
