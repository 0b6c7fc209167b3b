//! The random source used by map generation: the thread-local generator of
//! the `rand` crate, behind contracts that hold of every outcome.

use vstd::prelude::*;
use rand::Rng;
use rand::rngs::ThreadRng;

verus! {

/// The thread-local random generator of `rand`; opaque to proofs.
#[verifier::external_type_specification]
#[verifier::external_body]
pub struct ExThreadRng(ThreadRng);

/// Calls `rand::thread_rng`, which hands out the thread-local generator.
/// Nothing is claimed of it.
#[verifier::external_body]
pub(crate) fn thread_rng() -> ThreadRng {
    rand::thread_rng()
}

/// Calls `Rng::gen_range` on the half-open range `lo..hi` of `usize`. Its
/// documentation and source promise a value inside the range; the range must
/// not be empty (the call asserts it). Which value comes out is left open.
#[verifier::external_body]
pub(crate) fn gen_range(rng: &mut ThreadRng, lo: usize, hi: usize) -> (r: usize)
    requires
        lo < hi,
    ensures
        lo <= r < hi,
{
    rng.gen_range(lo..hi)
}

/// Calls `Rng::gen_ratio`, which returns true with probability
/// `numerator / denominator`. Its source panics when the denominator is zero
/// or the numerator exceeds it, always answers true when the two are equal,
/// and always answers false for a zero numerator; nothing else is claimed.
#[verifier::external_body]
pub(crate) fn gen_ratio(rng: &mut ThreadRng, numerator: u32, denominator: u32) -> (b: bool)
    requires
        0 < denominator,
        numerator <= denominator,
    ensures
        numerator == denominator ==> b,
        numerator == 0 ==> !b,
{
    rng.gen_ratio(numerator, denominator)
}

} // verus!
