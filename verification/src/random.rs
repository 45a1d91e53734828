//! Random sizes, from the `rand` crate's thread-local generator.
use vstd::prelude::*;

verus! {

/// `rand::Rng::gen_range` on `rand::thread_rng()` over `0..=bound`: a number
/// chosen at random in that range. Which number is not stated; that it lies
/// in the range is what the crate's documentation promises.
#[verifier::external_body]
pub(crate) fn random_at_most(bound: usize) -> (r: usize)
    ensures
        r <= bound,
{
    rand::Rng::gen_range(&mut rand::thread_rng(), 0..=bound)
}

} // verus!
