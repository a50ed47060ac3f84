//! The random source that scatters the mines.

use rand::rngs::ThreadRng;
use rand::Rng;
use vstd::prelude::*;

verus! {

/// `rand::rngs::ThreadRng`, the handle to the generator that `rand` keeps for
/// each thread. Nothing is known of its state.
#[verifier::external_type_specification]
#[verifier::external_body]
pub struct ExThreadRng(ThreadRng);

/// `rand::thread_rng` hands out the calling thread's generator, which the
/// system seeds on first use. Nothing is claimed of the handle; the call
/// panics only if the system cannot provide a seed.
pub assume_specification[ rand::thread_rng ]() -> (rng: ThreadRng)
;

/// `Rng::gen_range` on the half-open range `0..bound`: the number drawn lies
/// in that range. Which number it is depends on the generator, so nothing
/// more is claimed, and two calls may differ. The call panics on an empty
/// range, which `bound > 0` rules out.
#[verifier::external_body]
pub(crate) fn sample_below(rng: &mut ThreadRng, bound: usize) -> (drawn: usize)
    requires
        bound > 0,
    ensures
        drawn < bound,
{
    rng.gen_range(0..bound)
}

} // verus!
