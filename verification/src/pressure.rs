//! Pressure in a single-player game: an asteroid summoned at a fixed rhythm.
use crate::dice::{Dice, MAX_SPAWN_SIZE, MIN_SPAWN_SIZE};
use crate::game::GameState;
use crate::scheduler::{Scheduler, TaskState, any_due, fire_all};
use vstd::prelude::*;

verus! {

/// The nanoseconds between two summoned asteroids.
pub const SUMMON_NS: u64 = 3_000_000_000;

/// The timed task of single-player pressure.
#[derive(PartialEq, Eq, Clone, Copy, Debug, Structural)]
pub enum PressureTask {
    /// Spawns an asteroid.
    SummonAsteroid,
}

/// The pressure of a single-player game: whether it is on, its timer, and
/// the dice for the size of summoned asteroids.
pub struct Pressure {
    scheduler: Scheduler<PressureTask>,
    enabled: bool,
    dice: Dice,
}

impl Pressure {
    pub closed spec fn enabled(&self) -> bool {
        self.enabled
    }

    pub closed spec fn timers(&self) -> Seq<TaskState<PressureTask>> {
        self.scheduler.tasks()
    }

    /// The timers' clock, in nanoseconds.
    pub closed spec fn clock(&self) -> u128 {
        self.scheduler.clock()
    }

    /// Pressure on, with no timer yet.
    pub fn new() -> (p: Self)
        ensures
            p.enabled(),
            p.timers().len() == 0,
            p.clock() == 0,
    {
        Pressure { scheduler: Scheduler::new(), enabled: true, dice: Dice::new() }
    }

    /// Whether pressure is on.
    pub fn is_enabled(&self) -> (b: bool)
        ensures
            b == self.enabled(),
    {
        self.enabled
    }

    /// The pressure button.
    pub fn toggle(&mut self)
        ensures
            final(self).enabled() == !old(self).enabled(),
            final(self).timers() == old(self).timers(),
            final(self).clock() == old(self).clock(),
    {
        self.enabled = !self.enabled;
    }

    /// Starts the repeating timer "summon_asteroid", every three seconds
    /// from a fresh reading of the clock.
    pub fn on_activate(&mut self)
        ensures
            final(self).enabled() == old(self).enabled(),
            final(self).clock() >= old(self).clock(),
            final(self).timers() == old(self).timers().push(
                TaskState {
                    name: "summon_asteroid"@,
                    start_time: final(self).clock(),
                    wait_time: SUMMON_NS,
                    repeat: true,
                    has_ran: false,
                    action: PressureTask::SummonAsteroid,
                },
            ),
    {
        self.scheduler.schedule("summon_asteroid", SUMMON_NS, true, PressureTask::SummonAsteroid);
        proof {
            assert(self.timers() =~= old(self).timers().push(self.timers().last()));
        }
    }

    /// One frame: while pressure is on and the game is active, the clock is
    /// read and every summoning timer whose wait has elapsed fires; then one
    /// asteroid is to be spawned exactly when some timer fired, and its size
    /// (from 1 to 3, at random) is returned. Otherwise nothing runs and
    /// nothing spawns.
    pub fn update(&mut self, state: GameState) -> (spawn: Option<u8>)
        ensures
            !(old(self).enabled() && state == GameState::Active) ==> spawn is None
                && final(self).timers() == old(self).timers() && final(self).clock()
                == old(self).clock(),
            old(self).enabled() && state == GameState::Active ==> {
                &&& final(self).clock() >= old(self).clock()
                &&& final(self).timers() == fire_all(old(self).timers(), final(self).clock())
                &&& (spawn is Some <==> any_due(old(self).timers(), final(self).clock()))
            },
            spawn matches Some(size) ==> MIN_SPAWN_SIZE <= size <= MAX_SPAWN_SIZE,
            final(self).enabled() == old(self).enabled(),
    {
        if !(self.enabled && state == GameState::Active) {
            return None;
        }
        let fired = self.scheduler.update();
        proof {
            crate::scheduler::lemma_fired_iff_any_due(old(self).timers(), fired@, self.scheduler.clock());
        }
        let ghost after = self.scheduler.tasks();
        let ghost c = self.scheduler.clock();
        let mut should_spawn = false;
        let mut i: usize = 0;
        while i < fired.len()
            invariant
                0 <= i <= fired@.len(),
                should_spawn == (i > 0),
                self.scheduler.tasks() == after,
                self.scheduler.clock() == c,
                self.enabled == old(self).enabled(),
                forall|k: int| 0 <= k < fired@.len() ==> fired@[k] < self.scheduler.tasks().len(),
            decreases fired@.len() - i,
        {
            match self.scheduler.action(fired[i]) {
                PressureTask::SummonAsteroid => {
                    should_spawn = true;
                },
            }
            i = i + 1;
        }
        if should_spawn {
            Some(self.dice.asteroid_size())
        } else {
            None
        }
    }
}

} // verus!
