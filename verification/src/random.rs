use rand::rngs::SmallRng;
use rand::seq::SliceRandom;
use rand::{Rng, SeedableRng};
use vstd::prelude::*;

use crate::room::game_state::UserState;

verus! {

#[verifier::external_type_specification]
#[verifier::external_body]
pub struct ExSmallRng(SmallRng);

/// `SeedableRng::seed_from_u64` for `SmallRng`. Nothing is claimed of the
/// generator that comes back: what it will draw is not fixed across machines.
#[verifier::external_body]
pub(crate) fn seeded_rng(seed: u64) -> SmallRng {
    SmallRng::seed_from_u64(seed)
}

/// `Rng::random_range` on `low..=high` for `i32`. Claims only that the draw
/// lies in the range; the range must not be empty, or the call panics.
#[verifier::external_body]
pub(crate) fn random_i32_inclusive(rng: &mut SmallRng, low: i32, high: i32) -> (r: i32)
    requires
        low <= high,
    ensures
        low <= r <= high,
{
    rng.random_range(low..=high)
}

/// `Rng::random_range` on `0..high` for `i32`. Claims only that the draw lies
/// in the range; the range must not be empty, or the call panics.
#[verifier::external_body]
pub(crate) fn random_i32_below(rng: &mut SmallRng, high: i32) -> (r: i32)
    requires
        0 < high,
    ensures
        0 <= r < high,
{
    rng.random_range(0..high)
}

/// `Rng::random_range` on `low..=high` for `usize`. Claims only that the draw
/// lies in the range; the range must not be empty, or the call panics.
#[verifier::external_body]
pub(crate) fn random_usize_inclusive(rng: &mut SmallRng, low: usize, high: usize) -> (r: usize)
    requires
        low <= high,
    ensures
        low <= r <= high,
{
    rng.random_range(low..=high)
}

/// `Rng::random_range` on `0..high` for `usize`. Claims only that the draw
/// lies in the range; the range must not be empty, or the call panics.
#[verifier::external_body]
pub(crate) fn random_usize_below(rng: &mut SmallRng, high: usize) -> (r: usize)
    requires
        0 < high,
    ensures
        r < high,
{
    rng.random_range(0..high)
}

/// `Rng::random_ratio` with one chance in two: a coin. Nothing is claimed
/// of how it falls.
#[verifier::external_body]
pub(crate) fn random_coin(rng: &mut SmallRng) -> bool {
    rng.random_ratio(1, 2)
}

/// `rand::random` for `u32`: a number drawn by the generator of the thread.
/// Nothing is claimed of it.
#[verifier::external_body]
pub(crate) fn random_u32() -> u32 {
    rand::random::<u32>()
}

/// `SliceRandom::shuffle` on the players of a game. The shuffle only swaps
/// them: they are the same players afterwards, each as often as before.
/// Nothing is claimed of their order.
#[verifier::external_body]
pub(crate) fn shuffle_users(users: &mut Vec<UserState>, rng: &mut SmallRng)
    ensures
        final(users)@.to_multiset() == old(users)@.to_multiset(),
{
    users.shuffle(rng);
}

} // verus!
