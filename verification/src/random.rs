//! Random numbers from the thread-local generator of `rand`.
use rand::Rng;
use vstd::prelude::*;

verus! {

/// A random `u64` from `rand::Rng::gen` on `rand::thread_rng()`. Nothing is promised of the
/// value.
#[verifier::external_body]
pub(crate) fn random_u64() -> u64 {
    rand::thread_rng().gen::<u64>()
}

/// A random value in `lo..hi` from `rand::Rng::gen_range` on `rand::thread_rng()`, which
/// returns a value of the range and panics when the range is empty (ruled out here).
#[verifier::external_body]
pub(crate) fn random_in_range(lo: u64, hi: u64) -> (r: u64)
    requires
        lo < hi,
    ensures
        lo <= r < hi,
{
    rand::thread_rng().gen_range(lo..hi)
}

} // verus!
