//! The one random choice the game makes: picking which free cell receives
//! the next piece of food.

use rand::Rng;
use vstd::prelude::*;

verus! {

/// Relies on rand's `thread_rng` and `Rng::gen_range`: sampling from the
/// non-empty range `0..n` returns a value in that range. Nothing more is
/// assumed of the value; callers must hold for every outcome.
#[verifier::external_body]
pub(crate) fn random_below(n: usize) -> (r: usize)
    requires
        0 < n,
    ensures
        r < n,
{
    rand::thread_rng().gen_range(0..n)
}

} // verus!
