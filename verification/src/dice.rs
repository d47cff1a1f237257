//! Random choices of the game that are whole numbers.
use rand::rngs::ThreadRng;
use rand::RngExt;
use vstd::prelude::*;

verus! {

/// `rand::rngs::ThreadRng`, the thread-local random number generator.
#[verifier::external_type_specification]
#[verifier::external_body]
pub struct ExThreadRng(ThreadRng);

/// The smallest size of an asteroid that enters the game.
pub const MIN_SPAWN_SIZE: u8 = 1;

/// The largest size of an asteroid that enters the game.
pub const MAX_SPAWN_SIZE: u8 = 3;

/// `rand::rng`: a handle to the thread-local generator. (rand panics here
/// only if the operating system's random source fails at first seeding.)
#[verifier::external_body]
fn thread_rng() -> (r: ThreadRng) {
    rand::rng()
}

/// `RngExt::random_range` on `low..=high`: a number from `low` to `high`
/// inclusive (the range is not empty, so rand does not panic). Which one is
/// left to chance.
#[verifier::external_body]
fn random_in(rng: &mut ThreadRng, low: u8, high: u8) -> (r: u8)
    requires
        low <= high,
    ensures
        low <= r <= high,
{
    rng.random_range(low..=high)
}

/// A source of random asteroid sizes.
pub struct Dice {
    rng: ThreadRng,
}

impl Dice {
    /// Dice backed by the thread-local generator.
    pub fn new() -> (d: Self) {
        Dice { rng: thread_rng() }
    }

    /// The size of a newly summoned asteroid: from 1 to 3, at random.
    pub fn asteroid_size(&mut self) -> (size: u8)
        ensures
            MIN_SPAWN_SIZE <= size <= MAX_SPAWN_SIZE,
    {
        random_in(&mut self.rng, MIN_SPAWN_SIZE, MAX_SPAWN_SIZE)
    }
}

} // verus!
