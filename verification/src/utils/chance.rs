//! Chance.

use vstd::prelude::*;

verus! {

/// `rand::random_range` of the `rand` crate on the range `0..bound`: a number
/// below `bound`, drawn from the generator of the current thread. Which
/// number is not said, and two draws need not agree. The crate panics on an
/// empty range, so `bound` must not be zero.
#[verifier::external_body]
pub(crate) fn random_below(bound: u32) -> (draw: u32)
    requires
        bound > 0,
    ensures
        draw < bound,
{
    rand::random_range(0..bound)
}

} // verus!
