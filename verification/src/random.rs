//! The random numbers that the rain is made of.

use rand::rngs::ThreadRng;
use rand::Rng;
use vstd::prelude::*;

verus! {

/// The generator of `rand` that each thread has for itself. Nothing is known
/// of what it holds.
#[verifier::external_type_specification]
#[verifier::external_body]
pub struct ExThreadRng(ThreadRng);

/// `rand::thread_rng` hands out the calling thread's generator. Nothing is
/// claimed of it.
pub assume_specification[ rand::thread_rng ]() -> (rng: ThreadRng);

/// `Rng::gen_range` on the half-open range from nought to `bound`: the
/// number drawn lies in that range, which must not be empty. Which number it
/// is depends on chance, so nothing more is claimed.
#[verifier::external_body]
pub(crate) fn draw_below(rng: &mut ThreadRng, bound: usize) -> (n: usize)
    requires
        bound > 0,
    ensures
        n < bound,
{
    rng.gen_range(0..bound)
}

} // verus!
