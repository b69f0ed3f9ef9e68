//! Chance.

use vstd::prelude::*;

verus! {

/// A number below `n`, drawn by `rand::Rng::gen_range(0..n)` from the
/// thread's generator. Which number comes is left open; rand promises only
/// that it lies in the range, and panics where the range is empty.
#[verifier::external_body]
pub(crate) fn random_below(n: usize) -> (r: usize)
    requires
        n > 0,
    ensures
        r < n,
{
    rand::Rng::gen_range(&mut rand::thread_rng(), 0..n)
}

} // verus!
