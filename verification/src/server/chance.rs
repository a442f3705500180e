//! The two places where the server asks for something it cannot compute:
//! a random number and a fresh identity.

use vstd::prelude::*;
use rand::Rng;
use crate::shared::player::PlayerId;

verus! {

/// Draws an integer from `low` to `high`, both included, by
/// `rand::Rng::gen_range` on the generator of the current thread
/// (`rand::thread_rng`). `gen_range` panics on an empty range, which
/// `low <= high` rules out; of the value drawn only its range is known.
#[verifier::external_body]
pub(crate) fn random_in(low: u64, high: u64) -> (r: u64)
    requires
        low <= high,
    ensures
        low <= r <= high,
{
    rand::thread_rng().gen_range(low..=high)
}

/// Makes a new random identity with `uuid::Uuid::new_v4` and hands back its
/// 128 bits (`Uuid::as_u128`). Nothing is known of the value.
#[verifier::external_body]
pub(crate) fn fresh_player_id() -> PlayerId {
    uuid::Uuid::new_v4().as_u128()
}

/// A random index below `n`.
pub(crate) fn random_below(n: usize) -> (r: usize)
    requires
        n > 0,
    ensures
        r < n,
{
    let top: u64 = (n - 1) as u64;
    let drawn: u64 = random_in(0, top);
    drawn as usize
}

} // verus!
