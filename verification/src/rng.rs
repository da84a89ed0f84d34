//! Trusted boundary to the `rand` crate: a thread-local generator and the
//! few draws the simulation makes. Nothing is assumed about a drawn value
//! beyond its documented range.

use vstd::prelude::*;

verus! {

#[verifier::external_type_specification]
#[verifier::external_body]
pub struct ExThreadRng(rand::rngs::ThreadRng);

/// Relies on rand::thread_rng: hands out the thread-local generator.
#[verifier::external_body]
pub fn fresh_rng() -> rand::rngs::ThreadRng {
    rand::thread_rng()
}

/// Relies on rand::Rng::gen_range over `lo..hi`: returns a value in that
/// half-open range and panics only on an empty range, which the
/// precondition rules out.
#[verifier::external_body]
pub fn rng_range_i64(rng: &mut rand::rngs::ThreadRng, lo: i64, hi: i64) -> (r: i64)
    requires
        lo < hi,
    ensures
        lo <= r < hi,
{
    rand::Rng::gen_range(rng, lo..hi)
}

/// Relies on rand::Rng::gen::<u64>: an arbitrary seed. Nothing is promised
/// of the outcome.
#[verifier::external_body]
pub fn rng_u64(rng: &mut rand::rngs::ThreadRng) -> u64 {
    rand::Rng::gen::<u64>(rng)
}

} // verus!
