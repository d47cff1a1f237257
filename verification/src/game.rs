//! The rules of one player's game that do not involve positions: the game
//! state, health, the invulnerability window after taking damage, and the
//! count of collected rocks.
use crate::scheduler::{Scheduler, TaskState, any_due, due, fire_all, pending};
use vstd::prelude::*;

verus! {

/// Current state of the game loop.
#[derive(PartialEq, Eq, Clone, Copy, Debug, Structural)]
pub enum GameState {
    /// Waiting for players to ready up.
    Waiting,
    /// Game is active and entities are updating.
    Active,
    /// Game has ended (e.g. player health reached zero).
    GameOver,
}

/// Events emitted by a game update to notify the screen layer.
#[derive(PartialEq, Eq, Clone, Copy, Debug, Structural)]
pub enum GameEvent {
    /// The player took damage; `health` is the remaining health after the hit.
    Damage { health: u8 },
    /// An asteroid was destroyed by a bullet; `size` is the pre-split size.
    AsteroidDestroyed { size: u8 },
    /// Another player is targeting this player.
    PlayerTarget { id: u32 },
}

/// Timed events of a game.
#[derive(PartialEq, Eq, Clone, Copy, Debug, Structural)]
pub enum TimedEvent {
    /// Sets the ship's immunity when it fires.
    Immunity { on: bool },
}

/// The health a game starts with.
pub const START_HEALTH: u8 = 3;

/// The nanoseconds of immunity after taking damage.
pub const IMMUNITY_NS: u64 = 1_000_000_000;

/// The size up to which a destroyed asteroid counts as a collected rock.
pub const ROCK_SIZE: u8 = 1;

/// Health, immunity, collected rocks and the timers of a game.
pub struct GameStatus {
    state: GameState,
    scheduler: Scheduler<TimedEvent>,
    collected_rocks: u32,
    health: u8,
    immune: bool,
}

/// What a hit by an asteroid does to `(health, immune, state)`, and the
/// event it reports: nothing while immune or once health is gone; otherwise
/// one point of health is lost, the ship becomes immune, and the game is over
/// when no health is left.
pub open spec fn hit_outcome(health: u8, immune: bool, state: GameState) -> (
    u8,
    bool,
    GameState,
    Option<GameEvent>,
) {
    if immune || health == 0 {
        (health, immune, state, None)
    } else {
        let h = (health - 1) as u8;
        (h, true, if h == 0 {
            GameState::GameOver
        } else {
            state
        }, Some(GameEvent::Damage { health: h }))
    }
}

/// The rocks collected after an asteroid of `size` is destroyed.
pub open spec fn rocks_after(rocks: u32, size: u8) -> u32 {
    if size <= ROCK_SIZE {
        (rocks + 1) as u32
    } else {
        rocks
    }
}

/// The timer that a hit sets at `clock`: "remove_immunity", one-shot, ending
/// immunity after `IMMUNITY_NS`.
pub open spec fn immunity_timer(clock: u128) -> TaskState<TimedEvent> {
    TaskState {
        name: "remove_immunity"@,
        start_time: clock,
        wait_time: IMMUNITY_NS,
        repeat: false,
        has_ran: false,
        action: TimedEvent::Immunity { on: false },
    }
}

/// What the positions of one frame found, in the order found: a bullet hit
/// an asteroid of `size`, or the ship touched an asteroid.
#[derive(PartialEq, Eq, Clone, Copy, Debug, Structural)]
pub enum Collision {
    BulletHit { size: u8 },
    ShipHit,
}

/// The status the collisions of a frame leave, as `(health, immune, state,
/// collected rocks)`, and the events they report, in order.
pub open spec fn collide(
    health: u8,
    immune: bool,
    state: GameState,
    rocks: u32,
    cs: Seq<Collision>,
) -> (u8, bool, GameState, u32, Seq<GameEvent>)
    decreases cs.len(),
{
    if cs.len() == 0 {
        (health, immune, state, rocks, seq![])
    } else {
        let (h, i, s, r, evs) = collide(health, immune, state, rocks, cs.drop_last());
        match cs.last() {
            Collision::BulletHit { size } => (
                h,
                i,
                s,
                rocks_after(r, size),
                evs.push(GameEvent::AsteroidDestroyed { size }),
            ),
            Collision::ShipHit => {
                let (h2, i2, s2, e) = hit_outcome(h, i, s);
                match e {
                    Some(ev) => (h2, i2, s2, r, evs.push(ev)),
                    None => (h2, i2, s2, r, evs),
                }
            },
        }
    }
}

/// The number of collisions that collect a rock.
pub open spec fn count_rocks(cs: Seq<Collision>) -> nat
    decreases cs.len(),
{
    if cs.len() == 0 {
        0
    } else {
        count_rocks(cs.drop_last()) + match cs.last() {
            Collision::BulletHit { size } => if size <= ROCK_SIZE {
                1nat
            } else {
                0nat
            },
            Collision::ShipHit => 0nat,
        }
    }
}

/// The number of damage events among `evs`.
pub open spec fn count_damage(evs: Seq<GameEvent>) -> nat
    decreases evs.len(),
{
    if evs.len() == 0 {
        0
    } else {
        count_damage(evs.drop_last()) + if evs.last() is Damage {
            1nat
        } else {
            0nat
        }
    }
}

/// The size of each of the two asteroids that a hit splits an asteroid of
/// `size` into.
pub fn split_size(size: u8) -> (s: u8)
    requires
        size > 0,
    ensures
        s == size - 1,
{
    size - 1
}

/// What one frame of an active game did, going from `s0` to `s1`: the
/// immunity timers ran at `c1` (a reading of the clock), then the
/// collisions `cs` applied in order and reported `evs`; a damage set a new
/// immunity timer at the last reading of the clock.
pub open spec fn frame_after(
    s0: GameStatus,
    s1: GameStatus,
    cs: Seq<Collision>,
    evs: Seq<GameEvent>,
    c1: u128,
) -> bool {
    let immune1 = s0.immune() && !any_due(s0.timers(), c1);
    let timers1 = fire_all(s0.timers(), c1).filter(pending());
    let (h, i, st, r, e) = collide(s0.health(), immune1, s0.state(), s0.collected_rocks(), cs);
    &&& s0.clock() <= c1 <= s1.clock()
    &&& s1.health() == h
    &&& s1.immune() == i
    &&& s1.state() == st
    &&& s1.collected_rocks() == r
    &&& evs == e
    &&& s1.timers() == if count_damage(e) > 0 {
        timers1.push(immunity_timer(s1.clock()))
    } else {
        timers1
    }
    &&& count_damage(e) == 0 ==> s1.clock() == c1
}

impl GameStatus {
    pub closed spec fn state(&self) -> GameState {
        self.state
    }

    pub closed spec fn health(&self) -> u8 {
        self.health
    }

    pub closed spec fn immune(&self) -> bool {
        self.immune
    }

    pub closed spec fn collected_rocks(&self) -> u32 {
        self.collected_rocks
    }

    /// The pending timers.
    pub closed spec fn timers(&self) -> Seq<TaskState<TimedEvent>> {
        self.scheduler.tasks()
    }

    /// The timers' clock, in nanoseconds.
    pub closed spec fn clock(&self) -> u128 {
        self.scheduler.clock()
    }

    /// Every timer is a one-shot timer that ends immunity.
    #[verifier::type_invariant]
    spec fn timers_end_immunity(self) -> bool {
        forall|i: int|
            0 <= i < self.scheduler.tasks().len() ==> #[trigger] self.scheduler.tasks()[i].action
                == (TimedEvent::Immunity { on: false }) && !self.scheduler.tasks()[i].repeat
    }

    /// Creates a new game in the waiting state, with full health and no rocks.
    pub fn new() -> (g: Self)
        ensures
            g.state() == GameState::Waiting,
            g.health() == START_HEALTH,
            !g.immune(),
            g.collected_rocks() == 0,
            g.timers().len() == 0,
            g.clock() == 0,
    {
        GameStatus {
            state: GameState::Waiting,
            scheduler: Scheduler::new(),
            collected_rocks: 0,
            health: START_HEALTH,
            immune: false,
        }
    }

    /// Resets health and immunity for a new round. The state, the rocks and
    /// the timers stay as they are.
    pub fn activate(&mut self)
        ensures
            final(self).health() == START_HEALTH,
            !final(self).immune(),
            final(self).state() == old(self).state(),
            final(self).collected_rocks() == old(self).collected_rocks(),
            final(self).timers() == old(self).timers(),
            final(self).clock() == old(self).clock(),
    {
        proof {
            use_type_invariant(&*self);
        }
        self.health = START_HEALTH;
        self.immune = false;
    }

    /// Returns the number of rocks the player has collected.
    pub fn get_collected_rocks(&self) -> (r: u32)
        ensures
            r == self.collected_rocks(),
    {
        self.collected_rocks
    }

    /// Returns the player's current health.
    pub fn get_health(&self) -> (h: u8)
        ensures
            h == self.health(),
    {
        self.health
    }

    /// Returns whether the ship is in its invulnerability window.
    pub fn is_immune(&self) -> (b: bool)
        ensures
            b == self.immune(),
    {
        self.immune
    }

    /// Sets the game state.
    pub fn set_state(&mut self, state: GameState)
        ensures
            final(self).state() == state,
            final(self).health() == old(self).health(),
            final(self).immune() == old(self).immune(),
            final(self).collected_rocks() == old(self).collected_rocks(),
            final(self).timers() == old(self).timers(),
            final(self).clock() == old(self).clock(),
    {
        proof {
            use_type_invariant(&*self);
        }
        self.state = state;
    }

    /// Returns the current game state.
    pub fn get_state(&self) -> (s: GameState)
        ensures
            s == self.state(),
    {
        self.state
    }

    /// Reads the clock, fires every immunity timer whose wait has elapsed,
    /// and drops the fired ones: immunity ends exactly when some timer was due.
    pub fn run_timers(&mut self)
        ensures
            final(self).clock() >= old(self).clock(),
            final(self).timers() == fire_all(old(self).timers(), final(self).clock()).filter(
                pending(),
            ),
            final(self).immune() == (old(self).immune() && !any_due(
                old(self).timers(),
                final(self).clock(),
            )),
            final(self).state() == old(self).state(),
            final(self).health() == old(self).health(),
            final(self).collected_rocks() == old(self).collected_rocks(),
    {
        proof {
            use_type_invariant(&*self);
        }
        let mut scheduler = Scheduler::new();
        std::mem::swap(&mut scheduler, &mut self.scheduler);
        let fired = scheduler.update();
        let ghost after = scheduler.tasks();
        proof {
            crate::scheduler::lemma_fired_iff_any_due(old(self).timers(), fired@, scheduler.clock());
        }
        let mut i: usize = 0;
        while i < fired.len()
            invariant
                0 <= i <= fired@.len(),
                scheduler.tasks() == after,
                after.len() == old(self).timers().len(),
                forall|k: int| 0 <= k < fired@.len() ==> fired@[k] < after.len(),
                forall|k: int|
                    0 <= k < after.len() ==> #[trigger] after[k].action == old(self).timers()[k].action
                        && after[k].repeat == old(self).timers()[k].repeat,
                forall|k: int|
                    0 <= k < old(self).timers().len() ==> #[trigger] old(self).timers()[k].action
                        == (TimedEvent::Immunity { on: false }) && !old(self).timers()[k].repeat,
                self.immune == (old(self).immune() && i == 0),
                self.health == old(self).health(),
                self.state == old(self).state(),
                self.collected_rocks == old(self).collected_rocks(),
                self.scheduler.tasks().len() == 0,
            decreases fired@.len() - i,
        {
            match scheduler.action(fired[i]) {
                TimedEvent::Immunity { on } => {
                    self.immune = *on;
                },
            }
            i = i + 1;
        }
        scheduler.remove_fired();
        proof {
            broadcast use vstd::seq_lib::group_filter_ensures;

            assert forall|k: int| 0 <= k < scheduler.tasks().len() implies #[trigger] scheduler.tasks()[k].action
                == (TimedEvent::Immunity { on: false }) && !scheduler.tasks()[k].repeat by {
                assert(after.filter(pending()).contains(scheduler.tasks()[k]));
                after.lemma_filter_contains_rev(pending(), scheduler.tasks()[k]);
                let j = choose|j: int| 0 <= j < after.len() && after[j] == scheduler.tasks()[k];
                assert(after[j].action == old(self).timers()[j].action);
            }
        }
        self.scheduler = scheduler;
    }

    /// Counts a destroyed asteroid: one of size 1 or less is a collected rock.
    pub fn asteroid_destroyed(&mut self, size: u8) -> (e: GameEvent)
        requires
            size <= ROCK_SIZE ==> old(self).collected_rocks() < u32::MAX,
        ensures
            e == (GameEvent::AsteroidDestroyed { size }),
            final(self).collected_rocks() == rocks_after(old(self).collected_rocks(), size),
            final(self).state() == old(self).state(),
            final(self).health() == old(self).health(),
            final(self).immune() == old(self).immune(),
            final(self).timers() == old(self).timers(),
            final(self).clock() == old(self).clock(),
    {
        proof {
            use_type_invariant(&*self);
        }
        if size <= ROCK_SIZE {
            self.collected_rocks = self.collected_rocks + 1;
        }
        GameEvent::AsteroidDestroyed { size }
    }

    /// The ship hit an asteroid. Unless immune or out of health, it loses
    /// one point of health, becomes immune, the game is over if no health is
    /// left, and a one-shot timer "remove_immunity" is set at a fresh reading
    /// of the clock to end the immunity after `IMMUNITY_NS`.
    pub fn ship_hit(&mut self) -> (e: Option<GameEvent>)
        ensures
            (final(self).health(), final(self).immune(), final(self).state(), e) == hit_outcome(
                old(self).health(),
                old(self).immune(),
                old(self).state(),
            ),
            e is None ==> final(self).timers() == old(self).timers() && final(self).clock()
                == old(self).clock(),
            e is Some ==> {
                &&& final(self).clock() >= old(self).clock()
                &&& final(self).timers() == old(self).timers().push(
                    immunity_timer(final(self).clock()),
                )
            },
            final(self).collected_rocks() == old(self).collected_rocks(),
    {
        proof {
            use_type_invariant(&*self);
        }
        if self.immune || self.health == 0 {
            return None;
        }
        self.health = self.health - 1;
        self.immune = true;
        if self.health == 0 {
            self.state = GameState::GameOver;
        }
        let mut scheduler = Scheduler::new();
        std::mem::swap(&mut scheduler, &mut self.scheduler);
        scheduler.schedule(
            "remove_immunity",
            IMMUNITY_NS,
            false,
            TimedEvent::Immunity { on: false },
        );
        proof {
            assert(scheduler.tasks() =~= old(self).timers().push(scheduler.tasks().last()));
            assert forall|i: int| 0 <= i < scheduler.tasks().len() implies #[trigger] scheduler.tasks()[i].action
                == (TimedEvent::Immunity { on: false }) && !scheduler.tasks()[i].repeat by {
                if i < old(self).timers().len() {
                    assert(scheduler.tasks()[i] == scheduler.tasks().drop_last()[i]);
                }
            }
        }
        self.scheduler = scheduler;
        Some(GameEvent::Damage { health: self.health })
    }

    /// One frame of an active game: the immunity timers run first, then the
    /// collisions found in the frame apply in order, each reporting its
    /// event. While the game is not active, nothing happens.
    pub fn update(&mut self, collisions: &Vec<Collision>) -> (events: Vec<GameEvent>)
        requires
            old(self).collected_rocks() + count_rocks(collisions@) <= u32::MAX,
        ensures
            old(self).state() != GameState::Active ==> {
                &&& events@ == Seq::<GameEvent>::empty()
                &&& final(self).health() == old(self).health()
                &&& final(self).immune() == old(self).immune()
                &&& final(self).state() == old(self).state()
                &&& final(self).collected_rocks() == old(self).collected_rocks()
                &&& final(self).timers() == old(self).timers()
                &&& final(self).clock() == old(self).clock()
            },
            old(self).state() == GameState::Active ==> exists|c1: u128|
                #[trigger] frame_after(*old(self), *final(self), collisions@, events@, c1),
    {
        if self.state != GameState::Active {
            return Vec::new();
        }
        self.run_timers();
        let ghost c1 = self.clock();
        let ghost immune1 = self.immune();
        let ghost timers1 = self.timers();
        let ghost s0 = old(self);
        assert(immune1 == (s0.immune() && !any_due(s0.timers(), c1)));
        assert(timers1 == fire_all(s0.timers(), c1).filter(pending()));
        assert(s0.clock() <= c1);
        let mut events: Vec<GameEvent> = Vec::new();
        let n = collisions.len();
        let mut k: usize = 0;
        assert(collisions@.take(0) =~= Seq::<Collision>::empty());
        while k < n
            invariant
                n == collisions@.len(),
                0 <= k <= n,
                s0.collected_rocks() + count_rocks(collisions@) <= u32::MAX,
                count_rocks(collisions@.take(k as int)) <= count_rocks(collisions@),
                c1 <= self.clock(),
                ({
                    let (h, i, st, r, evs) = collide(
                        s0.health(),
                        immune1,
                        s0.state(),
                        s0.collected_rocks(),
                        collisions@.take(k as int),
                    );
                    &&& self.health() == h
                    &&& self.immune() == i
                    &&& self.state() == st
                    &&& self.collected_rocks() == r
                    &&& events@ == evs
                    &&& r == s0.collected_rocks() + count_rocks(collisions@.take(k as int))
                    &&& count_damage(evs) <= 1
                    &&& count_damage(evs) > 0 ==> i
                    &&& self.timers() == if count_damage(evs) > 0 {
                        timers1.push(immunity_timer(self.clock()))
                    } else {
                        timers1
                    }
                    &&& count_damage(evs) == 0 ==> self.clock() == c1
                }),
            decreases n - k,
        {
            let ghost before = collisions@.take(k as int);
            let ghost after = collisions@.take(k + 1);
            assert(after.drop_last() =~= before);
            proof {
                lemma_count_rocks_prefix(collisions@, k + 1);
                lemma_collide_counts(s0.health(), immune1, s0.state(), s0.collected_rocks(), after);
                lemma_collide_counts(s0.health(), immune1, s0.state(), s0.collected_rocks(), before);
            }
            let ghost evs0 = events@;
            match collisions[k] {
                Collision::BulletHit { size } => {
                    let e = self.asteroid_destroyed(size);
                    events.push(e);
                    assert(events@.drop_last() =~= evs0);
                },
                Collision::ShipHit => {
                    let e = self.ship_hit();
                    match e {
                        Some(ev) => {
                            events.push(ev);
                            assert(events@.drop_last() =~= evs0);
                        },
                        None => {},
                    }
                },
            }
            k = k + 1;
        }
        assert(collisions@.take(n as int) =~= collisions@);
        assert(frame_after(*old(self), *self, collisions@, events@, c1));
        events
    }
}

/// The ship is hurt at most once per invulnerability window: a second hit
/// before the immunity timer fires costs no health and reports nothing.
pub proof fn lemma_second_hit_is_harmless(health: u8, immune: bool, state: GameState)
    ensures
        ({
            let (h1, i1, s1, _) = hit_outcome(health, immune, state);
            let (h2, i2, s2, e2) = hit_outcome(h1, i1, s1);
            h2 == h1 && i2 == i1 && s2 == s1 && e2 is None
        }),
{
}

/// A damage event reports the health that is left, one less than before,
/// and the game is over exactly when that is none.
pub proof fn lemma_damage_reports_remaining_health(health: u8, state: GameState)
    requires
        health > 0,
    ensures
        hit_outcome(health, false, state).3 == Some(GameEvent::Damage { health: (health - 1) as u8 }),
        hit_outcome(health, false, state).0 == health - 1,
        (hit_outcome(health, false, state).2 == GameState::GameOver) <==> (health == 1
            || state == GameState::GameOver),
{
}

/// Once health is gone, hits change nothing.
pub proof fn lemma_no_damage_without_health(immune: bool, state: GameState)
    ensures
        hit_outcome(0, immune, state) == (0u8, immune, state, None::<GameEvent>),
{
}

/// The immunity a hit starts lasts exactly its window: its timer is due at
/// a later instant exactly when `IMMUNITY_NS` have passed since the hit.
pub proof fn lemma_immunity_lasts_its_window(hit_at: u128, now: u128)
    requires
        hit_at <= now,
    ensures
        any_due(seq![immunity_timer(hit_at)], now) <==> now - hit_at >= IMMUNITY_NS,
{
    if now - hit_at >= IMMUNITY_NS {
        assert(due(seq![immunity_timer(hit_at)][0], now));
    }
}

/// A prefix collects no more rocks than the whole.
proof fn lemma_count_rocks_prefix(cs: Seq<Collision>, j: int)
    requires
        0 <= j <= cs.len(),
    ensures
        count_rocks(cs.take(j)) <= count_rocks(cs),
    decreases cs.len(),
{
    if j < cs.len() {
        assert(cs.take(j) =~= cs.drop_last().take(j));
        lemma_count_rocks_prefix(cs.drop_last(), j);
    } else {
        assert(cs.take(j) =~= cs);
    }
}

/// In one frame the ship takes at most one damage: none while immune, and
/// after the first it is immune for the rest of the frame. Health drops by
/// exactly one per damage and never otherwise; the game is over exactly
/// when it was, or a damage took the last point of health; each collected
/// rock is counted.
pub proof fn lemma_collide_counts(
    health: u8,
    immune: bool,
    state: GameState,
    rocks: u32,
    cs: Seq<Collision>,
)
    requires
        rocks + count_rocks(cs) <= u32::MAX,
    ensures
        ({
            let (h, i, st, r, evs) = collide(health, immune, state, rocks, cs);
            &&& count_damage(evs) <= 1
            &&& immune ==> count_damage(evs) == 0
            &&& h == health - count_damage(evs)
            &&& i == (immune || count_damage(evs) == 1)
            &&& (st == GameState::GameOver) <==> (state == GameState::GameOver || (count_damage(evs)
                == 1 && h == 0))
            &&& r == rocks + count_rocks(cs)
        }),
    decreases cs.len(),
{
    if cs.len() > 0 {
        lemma_collide_counts(health, immune, state, rocks, cs.drop_last());
        let (h, i, st, r, evs) = collide(health, immune, state, rocks, cs.drop_last());
        match cs.last() {
            Collision::BulletHit { size } => {
                let e = GameEvent::AsteroidDestroyed { size };
                assert(evs.push(e).drop_last() =~= evs);
            },
            Collision::ShipHit => {
                let (h2, i2, s2, e) = hit_outcome(h, i, st);
                match e {
                    Some(ev) => {
                        assert(evs.push(ev).drop_last() =~= evs);
                    },
                    None => {},
                }
            },
        }
    }
}

} // verus!
