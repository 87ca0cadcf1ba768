//! The random source of the game.

use rand::Rng;
use vstd::prelude::*;

verus! {

/// Draws a whole number from `low` up to, not including, `high`.
///
/// Calls `Rng::gen_range` on `rand::thread_rng()` with the range
/// `low..high`. An empty range makes `gen_range` panic, so the range must not
/// be empty. For a non-empty range of integers the sampler returns `low`
/// plus an offset below `high - low`: a value of the range. Which one is left
/// open, so two draws may differ. The generator of the thread is seeded by
/// the system when it is first used.
#[verifier::external_body]
pub(crate) fn random_in_range(low: i64, high: i64) -> (out: i64)
    requires
        low < high,
    ensures
        low <= out < high,
{
    rand::thread_rng().gen_range(low..high)
}

} // verus!
