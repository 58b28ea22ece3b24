//! The one source of chance.

use rand::Rng;
use vstd::prelude::*;

verus! {

/// Draws a position below `n` with `rand::Rng::random_range` on the generator
/// that `rand::rng` keeps for the calling thread. The range `0..n` must not be
/// empty, or `rand` panics. All that is claimed of the draw is that it lies in
/// the range; which position comes is left to chance.
#[verifier::external_body]
pub(crate) fn random_index(n: usize) -> (draw: usize)
    requires
        n > 0,
    ensures
        draw < n,
{
    rand::rng().random_range(0..n)
}

} // verus!
