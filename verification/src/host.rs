//! The host's side of a multiplayer game: the connected users, what their
//! messages do, liveness, scores, and when the game starts.
use crate::address::PeerAddr;
use crate::protocol::{Message, NetworkMessage};
use crate::scheduler::{Scheduler, TaskState, fire_all, fires_at, increasing_below};
use crate::seqs::{first_where, lemma_first_where_found, lemma_first_where_none};
use vstd::prelude::*;

verus! {

/// Number of liveness checks a user may miss before it counts as disconnected.
pub const USER_TIMEOUT: u8 = 10;

/// The reason code of a `Reject`: the game has already started.
pub const REJECT_STARTED: u8 = 1;

/// The nanoseconds between two liveness checks.
pub const ALIVE_CHECK_NS: u64 = 1_000_000_000;

/// The nanoseconds between two rounds of summoned asteroids.
pub const SUMMON_NS: u64 = 5_000_000_000;

/// The most liveness-check timers a host keeps: with every user below
/// `USER_TIMEOUT` missed checks, up to this many liveness checks can fire in
/// one frame before a count of missed checks overflows.
pub const MAX_LIVENESS_CHECKS: usize = 245;

/// A connected multiplayer user.
#[derive(Clone)]
pub struct User {
    /// Display name.
    pub name: String,
    /// Network address.
    pub addr: PeerAddr,
    /// Unique ID assigned by the host.
    pub id: u32,
    /// Current score.
    pub score: u32,
    /// Current health.
    pub health: u8,
    /// Liveness checks since a packet was last received from this user.
    pub last_seen: u8,
    /// ID of the player this user is targeting.
    pub target_player_id: Option<u32>,
    /// Whether this user has pressed ready.
    pub is_ready: bool,
    /// Whether this user's data is to be sent to all users.
    pub is_updated: bool,
}

/// The content of a `User`.
pub struct UserState {
    pub name: Seq<char>,
    pub addr: PeerAddr,
    pub id: u32,
    pub score: u32,
    pub health: u8,
    pub last_seen: u8,
    pub target_player_id: Option<u32>,
    pub is_ready: bool,
    pub is_updated: bool,
}

impl View for User {
    type V = UserState;

    open spec fn view(&self) -> UserState {
        UserState {
            name: self.name@,
            addr: self.addr,
            id: self.id,
            score: self.score,
            health: self.health,
            last_seen: self.last_seen,
            target_player_id: self.target_player_id,
            is_ready: self.is_ready,
            is_updated: self.is_updated,
        }
    }
}

/// A newly connected user: no score, no health, just seen, no target,
/// not ready.
pub open spec fn new_user(name: Seq<char>, addr: PeerAddr, id: u32) -> UserState {
    UserState {
        name,
        addr,
        id,
        score: 0,
        health: 0,
        last_seen: 0,
        target_player_id: None,
        is_ready: false,
        is_updated: false,
    }
}

impl User {
    /// Creates a new user with zero score and health.
    pub fn new(name: String, addr: PeerAddr, id: u32) -> (u: Self)
        ensures
            u@ == new_user(name@, addr, id),
    {
        User {
            name,
            addr,
            id,
            score: 0,
            health: 0,
            last_seen: 0,
            target_player_id: None,
            is_ready: false,
            is_updated: false,
        }
    }
}

/// Timed tasks of the host.
#[derive(PartialEq, Eq, Clone, Copy, Debug, Structural)]
pub enum HostTask {
    /// Counts one more missed liveness check for every user.
    CheckAlive,
    /// Summons an asteroid for every user.
    SummonAsteroids,
}

/// What one update of the host sends: an asteroid to summon for each
/// address of `summon_to` (the caller chooses its position and motion), then
/// the messages of `outgoing`, in order.
pub struct HostFrame {
    pub summon_to: Vec<PeerAddr>,
    pub outgoing: Vec<(PeerAddr, NetworkMessage)>,
}

/// The host of a multiplayer game.
pub struct HostSession {
    users: Vec<User>,
    scheduler: Scheduler<HostTask>,
    current_user_id: u32,
    started: bool,
    pressure_enabled: bool,
}

/// The content of a `HostSession`, but for its timers.
pub struct HostModel {
    pub users: Seq<UserState>,
    pub current_user_id: u32,
    pub started: bool,
    pub pressure_enabled: bool,
}

/// A message to send, with the address it goes to.
pub type Outgoing = (PeerAddr, Message);

/// The contents of a list of outgoing messages.
pub open spec fn outgoing_view(v: Seq<(PeerAddr, NetworkMessage)>) -> Seq<Outgoing> {
    v.map_values(|p: (PeerAddr, NetworkMessage)| (p.0, p.1@))
}

/// The contents of a list of users.
pub open spec fn users_view(v: Seq<User>) -> Seq<UserState> {
    v.map_values(|u: User| u@)
}

/// The user sends from `addr`.
pub open spec fn at_addr(addr: PeerAddr) -> spec_fn(UserState) -> bool {
    |u: UserState| u.addr == addr
}

/// The user has the id `id`.
pub open spec fn with_id(id: u32) -> spec_fn(UserState) -> bool {
    |u: UserState| u.id == id
}

/// The user has missed fewer than `USER_TIMEOUT` liveness checks.
pub open spec fn alive() -> spec_fn(UserState) -> bool {
    |u: UserState| u.last_seen < USER_TIMEOUT
}

/// The user's data is to be sent.
pub open spec fn updated() -> spec_fn(UserState) -> bool {
    |u: UserState| u.is_updated
}

/// The addresses of the users.
pub open spec fn addrs(users: Seq<UserState>) -> Seq<PeerAddr> {
    users.map_values(|u: UserState| u.addr)
}

/// `msg` sent to every user, in order.
pub open spec fn to_all(users: Seq<UserState>, msg: Message) -> Seq<Outgoing> {
    users.map_values(|u: UserState| (u.addr, msg))
}

/// The message that shares a user's data (target 0 when it has none).
pub open spec fn user_data(u: UserState) -> Message {
    Message::UserData {
        id: u.id,
        score: u.score,
        health: u.health,
        target_player: match u.target_player_id {
            Some(t) => t,
            None => 0,
        },
        name: u.name,
    }
}

/// The data of each of `subjects`, each sent to all `recipients`.
pub open spec fn data_of_all(recipients: Seq<UserState>, subjects: Seq<UserState>) -> Seq<
    Outgoing,
>
    decreases subjects.len(),
{
    if subjects.len() == 0 {
        seq![]
    } else {
        data_of_all(recipients, subjects.drop_last()) + to_all(
            recipients,
            user_data(subjects.last()),
        )
    }
}

/// The targets of the users that have one, in order.
pub open spec fn targets_of(users: Seq<UserState>) -> Seq<u32>
    decreases users.len(),
{
    if users.len() == 0 {
        seq![]
    } else {
        let rest = targets_of(users.drop_last());
        match users.last().target_player_id {
            Some(t) => rest.push(t),
            None => rest,
        }
    }
}

/// Each user whose id is among `ids` is no longer marked as updated.
pub open spec fn clear_updated(users: Seq<UserState>, ids: Seq<u32>) -> Seq<UserState> {
    users.map_values(
        |u: UserState|
            if ids.contains(u.id) {
                UserState { is_updated: false, ..u }
            } else {
                u
            },
    )
}

/// One more missed liveness check.
pub open spec fn bump(u: UserState) -> UserState {
    UserState { last_seen: (u.last_seen + 1) as u8, ..u }
}

/// The users after the user at `addr` (the first one there, if any) is
/// changed by `f`.
pub open spec fn update_sender(
    users: Seq<UserState>,
    addr: PeerAddr,
    f: spec_fn(UserState) -> UserState,
) -> Seq<UserState> {
    match first_where(users, at_addr(addr)) {
        Some(i) => users.update(i, f(users[i])),
        None => users,
    }
}

/// The fired tasks, in order: a liveness check counts a missed check for
/// every user; a summoning round, once the game has started and pressure is
/// enabled, summons an asteroid for every user.
pub open spec fn run_tasks(m: HostModel, fired: Seq<HostTask>) -> (HostModel, Seq<PeerAddr>)
    decreases fired.len(),
{
    if fired.len() == 0 {
        (m, seq![])
    } else {
        let (m1, to) = run_tasks(m, fired.drop_last());
        match fired.last() {
            HostTask::CheckAlive => (
                HostModel { users: m1.users.map_values(|u: UserState| bump(u)), ..m1 },
                to,
            ),
            HostTask::SummonAsteroids => (
                m1,
                if m1.started && m1.pressure_enabled {
                    to + addrs(m1.users)
                } else {
                    to
                },
            ),
        }
    }
}

/// A message from `addr`: the session after it, the messages it makes the
/// host send, whether the number of users changed, and whether all users
/// are now ready. Any message marks its sender as just seen.
pub open spec fn receive(m: HostModel, addr: PeerAddr, msg: Message) -> (
    HostModel,
    Seq<Outgoing>,
    bool,
    bool,
) {
    let users = update_sender(m.users, addr, |u: UserState| UserState { last_seen: 0, ..u });
    let m0 = HostModel { users, ..m };
    match msg {
        Message::Connect { name } => if m.started {
            (m0, seq![(addr, Message::Reject { reason: REJECT_STARTED })], false, false)
        } else {
            let id = (m.current_user_id + 1) as u32;
            (
                HostModel {
                    users: users.push(new_user(name, addr, id)),
                    current_user_id: id,
                    ..m
                },
                seq![(addr, Message::Accept { id })],
                true,
                false,
            )
        },
        Message::Ready { is_ready } => {
            let us = update_sender(
                users,
                addr,
                |u: UserState| UserState { is_ready: is_ready > 0, ..u },
            );
            (
                HostModel { users: us, ..m },
                seq![],
                false,
                forall|k: int| 0 <= k < us.len() ==> #[trigger] us[k].is_ready,
            )
        },
        Message::AsteroidHit { .. } => (
            HostModel {
                users: update_sender(
                    users,
                    addr,
                    |u: UserState| UserState { score: (u.score + 1) as u32, is_updated: true, ..u },
                ),
                ..m
            },
            seq![],
            false,
            false,
        ),
        Message::TargetPlayer { id } => (
            HostModel {
                users: update_sender(
                    users,
                    addr,
                    |u: UserState| UserState { target_player_id: Some(id), ..u },
                ),
                ..m
            },
            seq![],
            false,
            false,
        ),
        Message::AttackPlayer { amount } => (
            m0,
            match first_where(users, at_addr(addr)) {
                Some(i) => match users[i].target_player_id {
                    Some(t) => match first_where(users, with_id(t)) {
                        Some(j) => seq![(users[j].addr, Message::AttackPlayer { amount })],
                        None => seq![],
                    },
                    None => seq![],
                },
                None => seq![],
            },
            false,
            false,
        ),
        _ => (m0, seq![], false, false),
    }
}

/// The messages of a frame, in order, with the flags of `receive` or-ed.
pub open spec fn receive_all(m: HostModel, incoming: Seq<(PeerAddr, Message)>) -> (
    HostModel,
    Seq<Outgoing>,
    bool,
    bool,
)
    decreases incoming.len(),
{
    if incoming.len() == 0 {
        (m, seq![], false, false)
    } else {
        let (m1, o1, a1, r1) = receive_all(m, incoming.drop_last());
        let (m2, o2, a2, r2) = receive(m1, incoming.last().0, incoming.last().1);
        (m2, o1 + o2, a1 || a2, r1 || r2)
    }
}

/// The end of a frame: users that missed `USER_TIMEOUT` checks are dropped;
/// when the number of users changed, all are told the new number and every
/// user's data; the data of each updated user is sent to all, and the users
/// they target lose their updated mark; the game starts when all were ready
/// and at least two users are connected.
pub open spec fn finish(m: HostModel, amount_changed: bool, all_ready: bool) -> (
    HostModel,
    Seq<Outgoing>,
) {
    let users = m.users.filter(alive());
    let announce = amount_changed || users.len() != m.users.len();
    let out1 = if announce {
        to_all(users, Message::UserAmount { amount: users.len() as u8 }) + data_of_all(users, users)
    } else {
        seq![]
    };
    let marked = users.filter(updated());
    let out2 = data_of_all(users, marked);
    let cleared = clear_updated(users, targets_of(marked));
    let start = cleared.len() > 1 && all_ready;
    let out3 = if start {
        to_all(cleared, Message::StartGame)
    } else {
        seq![]
    };
    (HostModel { users: cleared, started: m.started || start, ..m }, out1 + out2 + out3)
}

/// One update of the host: the fired tasks, then the received messages,
/// then the end of the frame. Gives the session after, the addresses to
/// summon an asteroid for, and the messages to send.
pub open spec fn host_step(
    m: HostModel,
    fired: Seq<HostTask>,
    incoming: Seq<(PeerAddr, Message)>,
) -> (HostModel, Seq<PeerAddr>, Seq<Outgoing>) {
    let (m1, summons) = run_tasks(m, fired);
    let (m2, out_in, amount_changed, all_ready) = receive_all(m1, incoming);
    let (m3, out_fin) = finish(m2, amount_changed, all_ready);
    (m3, summons, out_in + out_fin)
}

/// Users have distinct ids, none above the last id given out, and none has
/// missed `USER_TIMEOUT` liveness checks.
pub open spec fn valid_users(m: HostModel) -> bool {
    &&& forall|i: int, j: int| 0 <= i < j < m.users.len() ==> m.users[i].id != m.users[j].id
    &&& forall|i: int| 0 <= i < m.users.len() ==> #[trigger] m.users[i].id <= m.current_user_id
    &&& forall|i: int| 0 <= i < m.users.len() ==> #[trigger] m.users[i].last_seen < USER_TIMEOUT
}


/// Users have distinct ids, none above `current_user_id`.
pub open spec fn ids_ok(users: Seq<UserState>, current_user_id: u32) -> bool {
    &&& forall|i: int, j: int| 0 <= i < j < users.len() ==> users[i].id != users[j].id
    &&& forall|i: int| 0 <= i < users.len() ==> #[trigger] users[i].id <= current_user_id
}

proof fn lemma_update_sender(users: Seq<UserState>, addr: PeerAddr, f: spec_fn(UserState) -> UserState)
    ensures
        update_sender(users, addr, f).len() == users.len(),
        forall|k: int|
            0 <= k < users.len() ==> #[trigger] update_sender(users, addr, f)[k] == users[k]
                || update_sender(users, addr, f)[k] == f(users[k]),
{
    crate::seqs::lemma_first_where_is_first(users, at_addr(addr));
}

/// The number of `Connect` messages among `inc`.
pub open spec fn count_connects(inc: Seq<(PeerAddr, Message)>) -> nat
    decreases inc.len(),
{
    if inc.len() == 0 {
        0
    } else {
        count_connects(inc.drop_last()) + if inc.last().1 is Connect {
            1nat
        } else {
            0nat
        }
    }
}

/// The number of `AsteroidHit` messages among `inc`.
pub open spec fn count_hits(inc: Seq<(PeerAddr, Message)>) -> nat
    decreases inc.len(),
{
    if inc.len() == 0 {
        0
    } else {
        count_hits(inc.drop_last()) + if inc.last().1 is AsteroidHit {
            1nat
        } else {
            0nat
        }
    }
}

/// Neither the ids given to the connections among `inc` nor the scores
/// its hits raise can overflow.
pub open spec fn fits(m: HostModel, inc: Seq<(PeerAddr, Message)>) -> bool {
    &&& m.current_user_id + count_connects(inc) <= u32::MAX
    &&& count_hits(inc) <= u32::MAX
    &&& forall|k: int| 0 <= k < m.users.len() ==> #[trigger] m.users[k].score + count_hits(inc) <= u32::MAX
}

/// A prefix has no more connections and hits than the whole.
proof fn lemma_count_prefix(inc: Seq<(PeerAddr, Message)>, j: int)
    requires
        0 <= j <= inc.len(),
    ensures
        count_connects(inc.take(j)) <= count_connects(inc),
        count_hits(inc.take(j)) <= count_hits(inc),
    decreases inc.len(),
{
    if j < inc.len() {
        assert(inc.take(j) =~= inc.drop_last().take(j));
        lemma_count_prefix(inc.drop_last(), j);
    } else {
        assert(inc.take(j) =~= inc);
    }
}

/// `receive` keeps ids distinct and bounded, gives out at most one new id,
/// and only for a connection, raises a score by at most one, and only for a
/// hit, and adds users only with a zero score.
proof fn lemma_receive_bounds(m: HostModel, addr: PeerAddr, msg: Message)
    requires
        msg is Connect ==> m.current_user_id < u32::MAX,
    ensures
        ({
            let m2 = receive(m, addr, msg).0;
            &&& !(msg is Connect) ==> m2.current_user_id == m.current_user_id
            &&& !(msg is AsteroidHit) ==> forall|k: int|
                0 <= k < m.users.len() ==> #[trigger] m2.users[k].score == m.users[k].score
            &&& ids_ok(m.users, m.current_user_id) ==> ids_ok(m2.users, m2.current_user_id)
            &&& m2.current_user_id <= m.current_user_id + 1
            &&& m2.users.len() >= m.users.len()
            &&& forall|k: int|
                0 <= k < m2.users.len() ==> #[trigger] m2.users[k].score <= if k < m.users.len() {
                    m.users[k].score + 1
                } else {
                    0
                }
            &&& forall|k: int|
                0 <= k < m2.users.len() ==> #[trigger] m2.users[k].last_seen <= if k < m.users.len() {
                    m.users[k].last_seen as int
                } else {
                    0
                }
        }),
{
    let f0 = |u: UserState| UserState { last_seen: 0, ..u };
    let users = update_sender(m.users, addr, f0);
    lemma_update_sender(m.users, addr, f0);
    assert forall|k: int| 0 <= k < users.len() implies #[trigger] users[k].id == m.users[k].id
        && users[k].score == m.users[k].score && users[k].last_seen <= m.users[k].last_seen by {}
    match msg {
        Message::Connect { name } => {
            if !m.started && ids_ok(m.users, m.current_user_id) {
                let id = (m.current_user_id + 1) as u32;
                let us = users.push(new_user(name, addr, id));
                assert forall|i: int, j: int| 0 <= i < j < us.len() implies us[i].id != us[j].id by {
                    if j == us.len() - 1 {
                        assert(us[i].id == m.users[i].id);
                    } else {
                        assert(us[i].id == m.users[i].id);
                        assert(us[j].id == m.users[j].id);
                    }
                }
            }
        },
        Message::Ready { is_ready } => {
            let f = |u: UserState| UserState { is_ready: is_ready > 0, ..u };
            lemma_update_sender(users, addr, f);
            let us = update_sender(users, addr, f);
            assert forall|k: int| 0 <= k < us.len() implies #[trigger] us[k].id == m.users[k].id
                && us[k].score == m.users[k].score && us[k].last_seen <= m.users[k].last_seen by {
                assert(us[k] == users[k] || us[k] == f(users[k]));
            }
        },
        Message::AsteroidHit { .. } => {
            let f = |u: UserState| UserState { score: (u.score + 1) as u32, is_updated: true, ..u };
            lemma_update_sender(users, addr, f);
            let us = update_sender(users, addr, f);
            assert forall|k: int| 0 <= k < us.len() implies #[trigger] us[k].id == m.users[k].id
                && us[k].score <= m.users[k].score + 1 && us[k].last_seen <= m.users[k].last_seen by {
                assert(us[k] == users[k] || us[k] == f(users[k]));
            }
        },
        Message::TargetPlayer { id } => {
            let f = |u: UserState| UserState { target_player_id: Some(id), ..u };
            lemma_update_sender(users, addr, f);
            let us = update_sender(users, addr, f);
            assert forall|k: int| 0 <= k < us.len() implies #[trigger] us[k].id == m.users[k].id
                && us[k].score == m.users[k].score && us[k].last_seen <= m.users[k].last_seen by {
                assert(us[k] == users[k] || us[k] == f(users[k]));
            }
        },
        _ => {},
    }
}

/// Keeping some of the users keeps their ids distinct and bounded.
proof fn lemma_filter_keeps_ids(users: Seq<UserState>, cur: u32, pred: spec_fn(UserState) -> bool)
    requires
        ids_ok(users, cur),
    ensures
        ids_ok(users.filter(pred), cur),
    decreases users.len(),
{
    reveal(Seq::filter);
    if users.len() > 0 {
        let rest = users.drop_last();
        assert(ids_ok(rest, cur));
        lemma_filter_keeps_ids(rest, cur, pred);
        if pred(users.last()) {
            let f = rest.filter(pred);
            let g = f.push(users.last());
            assert forall|i: int, j: int| 0 <= i < j < g.len() implies g[i].id != g[j].id by {
                if j == g.len() - 1 {
                    assert(f.contains(g[i]));
                    rest.lemma_filter_contains_rev(pred, g[i]);
                    let k = choose|k: int| 0 <= k < rest.len() && rest[k] == g[i];
                    assert(users[k] == rest[k]);
                }
            }
            assert forall|i: int| 0 <= i < g.len() implies #[trigger] g[i].id <= cur by {
                if i < g.len() - 1 {
                    assert(f.contains(g[i]));
                    rest.lemma_filter_contains_rev(pred, g[i]);
                    let k = choose|k: int| 0 <= k < rest.len() && rest[k] == g[i];
                    assert(users[k] == rest[k]);
                }
            }
        }
    }
}

/// The fired tasks leave ids alone and add at most one missed check per task.
proof fn lemma_run_tasks_bounds(m: HostModel, fired: Seq<HostTask>)
    ensures
        ({
            let m1 = run_tasks(m, fired).0;
            &&& m1.users.len() == m.users.len()
            &&& m1.current_user_id == m.current_user_id
            &&& forall|k: int|
                0 <= k < m.users.len() ==> #[trigger] m1.users[k].id == m.users[k].id
                    && m1.users[k].score == m.users[k].score
        }),
    decreases fired.len(),
{
    if fired.len() > 0 {
        lemma_run_tasks_bounds(m, fired.drop_last());
        let m1 = run_tasks(m, fired.drop_last()).0;
        let m2 = run_tasks(m, fired).0;
        match fired.last() {
            HostTask::CheckAlive => {
                assert(m2.users == m1.users.map_values(|u: UserState| bump(u)));
                assert forall|k: int| 0 <= k < m.users.len() implies #[trigger] m2.users[k].id
                    == m.users[k].id && m2.users[k].score == m.users[k].score by {
                    assert(m2.users[k] == bump(m1.users[k]));
                }
            },
            HostTask::SummonAsteroids => {
                assert(m2 == m1);
            },
        }
    }
}

/// The end of a frame keeps ids distinct and bounded, and leaves only users
/// that missed fewer than `USER_TIMEOUT` checks.
proof fn lemma_finish_valid(m: HostModel, amount_changed: bool, all_ready: bool)
    ensures
        ids_ok(m.users, m.current_user_id) ==> valid_users(finish(m, amount_changed, all_ready).0),
        forall|k: int|
            0 <= k < finish(m, amount_changed, all_ready).0.users.len() ==> #[trigger] finish(
                m,
                amount_changed,
                all_ready,
            ).0.users[k].last_seen < USER_TIMEOUT,
{
    broadcast use vstd::seq_lib::group_filter_ensures;

    let users = m.users.filter(alive());
    if ids_ok(m.users, m.current_user_id) {
        lemma_filter_keeps_ids(m.users, m.current_user_id, alive());
    }
    let marked = users.filter(updated());
    let cleared = clear_updated(users, targets_of(marked));
    assert forall|k: int| 0 <= k < cleared.len() implies #[trigger] cleared[k].id == users[k].id
        && cleared[k].last_seen == users[k].last_seen by {}
    assert forall|k: int| 0 <= k < users.len() implies #[trigger] users[k].last_seen
        < USER_TIMEOUT by {
        m.users.lemma_filter_pred(alive(), k);
    }
}


/// Once the game has started, a connecting player is rejected (reason 1)
/// and no user is added.
pub proof fn lemma_connect_rejected_after_start(m: HostModel, addr: PeerAddr, name: Seq<char>)
    requires
        m.started,
    ensures
        ({
            let (m2, out, amount_changed, _) = receive(m, addr, Message::Connect { name });
            &&& out == seq![(addr, Message::Reject { reason: REJECT_STARTED })]
            &&& m2.users.len() == m.users.len()
            &&& m2.current_user_id == m.current_user_id
            &&& !amount_changed
        }),
{
    lemma_update_sender(m.users, addr, |u: UserState| UserState { last_seen: 0, ..u });
}

/// Before the game starts, a connecting player is accepted with a fresh id,
/// one above the last given out and unlike every connected user's.
pub proof fn lemma_connect_accepted_with_fresh_id(
    m: HostModel,
    addr: PeerAddr,
    name: Seq<char>,
)
    requires
        !m.started,
        ids_ok(m.users, m.current_user_id),
        m.current_user_id < u32::MAX,
    ensures
        ({
            let (m2, out, amount_changed, _) = receive(m, addr, Message::Connect { name });
            let id = (m.current_user_id + 1) as u32;
            &&& out == seq![(addr, Message::Accept { id })]
            &&& m2.users.last() == new_user(name, addr, id)
            &&& m2.users.len() == m.users.len() + 1
            &&& forall|k: int| 0 <= k < m.users.len() ==> #[trigger] m.users[k].id != id
            &&& ids_ok(m2.users, m2.current_user_id)
            &&& amount_changed
        }),
{
    lemma_receive_bounds(m, addr, Message::Connect { name });
    lemma_update_sender(m.users, addr, |u: UserState| UserState { last_seen: 0, ..u });
    assert forall|k: int| 0 <= k < m.users.len() implies #[trigger] m.users[k].id != (
    m.current_user_id + 1) as u32 by {
        assert(m.users[k].id <= m.current_user_id);
    }
}

proof fn lemma_run_tasks_keeps_started(m: HostModel, fired: Seq<HostTask>)
    ensures
        run_tasks(m, fired).0.started == m.started,
        run_tasks(m, fired).0.pressure_enabled == m.pressure_enabled,
    decreases fired.len(),
{
    if fired.len() > 0 {
        lemma_run_tasks_keeps_started(m, fired.drop_last());
    }
}

proof fn lemma_receive_all_keeps_started(m: HostModel, incoming: Seq<(PeerAddr, Message)>)
    ensures
        receive_all(m, incoming).0.started == m.started,
    decreases incoming.len(),
{
    if incoming.len() > 0 {
        lemma_receive_all_keeps_started(m, incoming.drop_last());
    }
}

/// A started game stays started, whatever fires and whatever arrives.
pub proof fn lemma_started_stays_started(
    m: HostModel,
    fired: Seq<HostTask>,
    incoming: Seq<(PeerAddr, Message)>,
)
    requires
        m.started,
    ensures
        host_step(m, fired, incoming).0.started,
{
    lemma_run_tasks_keeps_started(m, fired);
    lemma_receive_all_keeps_started(run_tasks(m, fired).0, incoming);
}

/// The game starts at the end of a frame exactly when it had started, or
/// some `Ready` of the frame found every user ready and at least two users
/// remain connected.
pub proof fn lemma_start_rule(m: HostModel, amount_changed: bool, all_ready: bool)
    ensures
        finish(m, amount_changed, all_ready).0.started == (m.started || (all_ready
            && m.users.filter(alive()).len() > 1)),
{
}

/// The number of liveness-check timers among `tasks`.
pub open spec fn checks_in(tasks: Seq<TaskState<HostTask>>) -> nat
    decreases tasks.len(),
{
    if tasks.len() == 0 {
        0
    } else {
        checks_in(tasks.drop_last()) + if tasks.last().action == HostTask::CheckAlive {
            1nat
        } else {
            0nat
        }
    }
}

/// Firing timers changes none of their actions, so not their number of
/// liveness checks.
proof fn lemma_fire_all_keeps_checks(tasks: Seq<TaskState<HostTask>>, now: u128)
    ensures
        checks_in(fire_all(tasks, now)) == checks_in(tasks),
    decreases tasks.len(),
{
    if tasks.len() > 0 {
        assert(fire_all(tasks, now).drop_last() =~= fire_all(tasks.drop_last(), now));
        lemma_fire_all_keeps_checks(tasks.drop_last(), now);
    }
}

/// The timers that fire, each at most once, hold no more liveness checks
/// than all the timers do.
proof fn lemma_fired_checks(tasks: Seq<TaskState<HostTask>>, fired: Seq<usize>)
    requires
        increasing_below(fired, tasks.len()),
    ensures
        count_checks(fired.map_values(|i: usize| tasks[i as int].action)) <= checks_in(tasks),
    decreases tasks.len(),
{
    let acts = fired.map_values(|i: usize| tasks[i as int].action);
    if tasks.len() == 0 {
        if fired.len() > 0 {
            assert(fired[0] < 0);
        }
        assert(acts.len() == 0);
    } else {
        let rest = tasks.drop_last();
        let n = rest.len();
        if fired.len() > 0 && fired.last() == n {
            let f1 = fired.drop_last();
            assert(increasing_below(f1, n as nat)) by {
                assert forall|k: int| 0 <= k < f1.len() implies f1[k] < n by {
                    assert(fired[k] < fired[fired.len() - 1]);
                }
            }
            lemma_fired_checks(rest, f1);
            assert(acts.drop_last() =~= f1.map_values(|i: usize| rest[i as int].action));
        } else {
            assert(increasing_below(fired, n as nat)) by {
                assert forall|k: int| 0 <= k < fired.len() implies fired[k] < n by {
                    if fired[k] == n {
                        assert(fired[k] <= fired[fired.len() - 1]);
                        if k < fired.len() - 1 {
                            assert(fired[k] < fired[fired.len() - 1]);
                        }
                    }
                }
            }
            lemma_fired_checks(rest, fired);
            assert(acts =~= fired.map_values(|i: usize| rest[i as int].action));
        }
    }
}

/// The number of liveness checks among `fired`.
pub open spec fn count_checks(fired: Seq<HostTask>) -> nat
    decreases fired.len(),
{
    if fired.len() == 0 {
        0
    } else {
        count_checks(fired.drop_last()) + if fired.last() == HostTask::CheckAlive {
            1nat
        } else {
            0nat
        }
    }
}

/// A prefix holds no more liveness checks than the whole.
proof fn lemma_count_checks_prefix(fired: Seq<HostTask>, j: int)
    requires
        0 <= j <= fired.len(),
    ensures
        count_checks(fired.take(j)) <= count_checks(fired),
    decreases fired.len(),
{
    if j < fired.len() {
        assert(fired.take(j) =~= fired.drop_last().take(j));
        lemma_count_checks_prefix(fired.drop_last(), j);
    } else {
        assert(fired.take(j) =~= fired);
    }
}

/// No user before position `k` shares the address of user `k`: messages
/// from that address are taken as coming from user `k`.
pub open spec fn first_at(users: Seq<UserState>, k: int) -> bool {
    forall|j: int| 0 <= j < k ==> #[trigger] users[j].addr != users[k].addr
}

/// User `k` was heard from in `inc`: some message came from its address,
/// and no earlier user has that address.
pub open spec fn heard(users: Seq<UserState>, k: int, inc: Seq<(PeerAddr, Message)>) -> bool {
    &&& first_at(users, k)
    &&& exists|j: int| 0 <= j < inc.len() && #[trigger] inc[j].0 == users[k].addr
}

proof fn lemma_first_at(users: Seq<UserState>, a: PeerAddr, k: int)
    requires
        0 <= k < users.len(),
    ensures
        (first_where(users, at_addr(a)) == Some(k)) <==> (users[k].addr == a && first_at(users, k)),
{
    crate::seqs::lemma_first_where_is_first(users, at_addr(a));
    if users[k].addr == a && first_at(users, k) {
        assert forall|j: int| 0 <= j < k implies !(at_addr(a))(#[trigger] users[j]) by {}
        lemma_first_where_found(users, at_addr(a), k);
    }
}

/// The fired tasks add one missed check to every user per liveness check,
/// and change nothing else of the users.
proof fn lemma_run_tasks_missed_checks(m: HostModel, fired: Seq<HostTask>)
    requires
        forall|k: int|
            0 <= k < m.users.len() ==> #[trigger] m.users[k].last_seen + count_checks(fired) <= u8::MAX,
    ensures
        count_checks(fired) <= fired.len(),
        run_tasks(m, fired).0.users.len() == m.users.len(),
        forall|k: int|
            0 <= k < m.users.len() ==> #[trigger] run_tasks(m, fired).0.users[k] == (UserState {
                last_seen: (m.users[k].last_seen + count_checks(fired)) as u8,
                ..m.users[k]
            }),
    decreases fired.len(),
{
    if fired.len() > 0 {
        lemma_run_tasks_missed_checks(m, fired.drop_last());
        let m1 = run_tasks(m, fired.drop_last()).0;
        let m2 = run_tasks(m, fired).0;
        if fired.last() == HostTask::CheckAlive {
            assert(m2.users == m1.users.map_values(|u: UserState| bump(u)));
            assert forall|k: int| 0 <= k < m.users.len() implies #[trigger] m2.users[k] == (UserState {
                last_seen: (m.users[k].last_seen + count_checks(fired)) as u8,
                ..m.users[k]
            }) by {
                assert(m2.users[k] == bump(m1.users[k]));
            }
        } else {
            assert(m2 == m1);
        }
    }
}

/// A message leaves the users before it in place, with their addresses,
/// and marks as just seen only the user it is taken as coming from.
proof fn lemma_receive_seen(m: HostModel, a: PeerAddr, msg: Message)
    ensures
        ({
            let m2 = receive(m, a, msg).0;
            &&& m2.users.len() >= m.users.len()
            &&& forall|k: int|
                0 <= k < m.users.len() ==> {
                    &&& #[trigger] m2.users[k].addr == m.users[k].addr
                    &&& m2.users[k].id == m.users[k].id
                    &&& m2.users[k].last_seen == if m.users[k].addr == a && first_at(m.users, k) {
                        0
                    } else {
                        m.users[k].last_seen
                    }
                }
        }),
{
    let f0 = |u: UserState| UserState { last_seen: 0, ..u };
    let users = update_sender(m.users, a, f0);
    crate::seqs::lemma_first_where_is_first(m.users, at_addr(a));
    assert forall|k: int| 0 <= k < m.users.len() implies #[trigger] users[k].addr == m.users[k].addr
        && users[k].id == m.users[k].id && users[k].last_seen == if m.users[k].addr == a
        && first_at(m.users, k) {
        0
    } else {
        m.users[k].last_seen
    } by {
        lemma_first_at(m.users, a, k);
    }
    crate::seqs::lemma_first_where_is_first(users, at_addr(a));
    lemma_update_sender(users, a, |u: UserState| u);
    match msg {
        Message::Ready { is_ready } => {
            let f = |u: UserState| UserState { is_ready: is_ready > 0, ..u };
            lemma_update_sender(users, a, f);
        },
        Message::AsteroidHit { .. } => {
            let f = |u: UserState| UserState { score: (u.score + 1) as u32, is_updated: true, ..u };
            lemma_update_sender(users, a, f);
        },
        Message::TargetPlayer { id } => {
            let f = |u: UserState| UserState { target_player_id: Some(id), ..u };
            lemma_update_sender(users, a, f);
        },
        _ => {},
    }
}

/// Over the messages of a frame, each user already connected keeps its
/// place and address, and its missed checks are reset exactly when it was
/// heard from.
proof fn lemma_receive_all_seen(m: HostModel, inc: Seq<(PeerAddr, Message)>)
    ensures
        ({
            let m2 = receive_all(m, inc).0;
            &&& m2.users.len() >= m.users.len()
            &&& forall|k: int|
                0 <= k < m.users.len() ==> {
                    &&& #[trigger] m2.users[k].addr == m.users[k].addr
                    &&& m2.users[k].id == m.users[k].id
                    &&& m2.users[k].last_seen == if heard(m.users, k, inc) {
                        0
                    } else {
                        m.users[k].last_seen
                    }
                }
        }),
    decreases inc.len(),
{
    if inc.len() > 0 {
        let rest = inc.drop_last();
        lemma_receive_all_seen(m, rest);
        let m1 = receive_all(m, rest).0;
        let (a, msg) = inc.last();
        lemma_receive_seen(m1, a, msg);
        let m2 = receive_all(m, inc).0;
        assert(m2 == receive(m1, a, msg).0);
        assert forall|k: int| 0 <= k < m.users.len() implies {
            &&& #[trigger] m2.users[k].addr == m.users[k].addr
            &&& m2.users[k].id == m.users[k].id
            &&& m2.users[k].last_seen == if heard(m.users, k, inc) {
                0
            } else {
                m.users[k].last_seen
            }
        } by {
            assert(first_at(m1.users, k) == first_at(m.users, k)) by {
                assert forall|j: int| 0 <= j < k implies m1.users[j].addr == m.users[j].addr by {
                    assert(m1.users[j].addr == m.users[j].addr);
                }
            }
            if heard(m.users, k, inc) && !heard(m.users, k, rest) {
                let j = choose|j: int| 0 <= j < inc.len() && #[trigger] inc[j].0 == m.users[k].addr;
                if j < rest.len() {
                    assert(rest[j].0 == m.users[k].addr);
                }
            }
            if heard(m.users, k, rest) {
                let j = choose|j: int| 0 <= j < rest.len() && #[trigger] rest[j].0 == m.users[k].addr;
                assert(inc[j].0 == m.users[k].addr);
            }
            if first_at(m.users, k) && a == m.users[k].addr {
                assert(inc[inc.len() - 1].0 == m.users[k].addr);
            }
        }
    }
}

/// Over the messages of a frame, ids stay distinct and bounded, and the last
/// id given out grows by at most the number of connections.
proof fn lemma_receive_all_ids(m: HostModel, inc: Seq<(PeerAddr, Message)>)
    requires
        ids_ok(m.users, m.current_user_id),
        m.current_user_id + count_connects(inc) <= u32::MAX,
    ensures
        ids_ok(receive_all(m, inc).0.users, receive_all(m, inc).0.current_user_id),
        receive_all(m, inc).0.current_user_id <= m.current_user_id + count_connects(inc),
    decreases inc.len(),
{
    if inc.len() > 0 {
        let rest = inc.drop_last();
        lemma_receive_all_ids(m, rest);
        let m1 = receive_all(m, rest).0;
        lemma_receive_bounds(m1, inc.last().0, inc.last().1);
    }
}

/// A user is dropped at the end of a frame exactly when it has missed
/// `USER_TIMEOUT` liveness checks: its count of missed checks is reset to
/// zero when it was heard from in the frame, and otherwise grows by one per
/// liveness check that fired. The users that stay keep their order, and
/// when any user was dropped, every remaining user is told the new number
/// of users.
pub proof fn lemma_silent_users_are_dropped(
    m: HostModel,
    fired: Seq<HostTask>,
    inc: Seq<(PeerAddr, Message)>,
    k: int,
)
    requires
        valid_users(m),
        0 <= k < m.users.len(),
        count_checks(fired) + USER_TIMEOUT <= u8::MAX,
        m.current_user_id + count_connects(inc) <= u32::MAX,
    ensures
        ({
            let mid = receive_all(run_tasks(m, fired).0, inc).0;
            let (m3, _, out) = host_step(m, fired, inc);
            let missed = if heard(m.users, k, inc) {
                0
            } else {
                m.users[k].last_seen + count_checks(fired)
            };
            &&& mid.users[k].id == m.users[k].id
            &&& mid.users[k].last_seen == missed
            &&& (exists|j: int| 0 <= j < m3.users.len() && #[trigger] m3.users[j].id == m.users[k].id)
                <==> missed < USER_TIMEOUT
            &&& m3.users.len() == mid.users.filter(alive()).len()
            &&& forall|j: int|
                0 <= j < m3.users.len() ==> #[trigger] m3.users[j].id == mid.users.filter(alive())[j].id
            &&& m3.users.len() < mid.users.len() ==> forall|j: int|
                0 <= j < m3.users.len() ==> out.contains(
                    (#[trigger] m3.users[j].addr, Message::UserAmount { amount: m3.users.len() as u8 }),
                )
        }),
{
    broadcast use vstd::seq_lib::group_filter_ensures;

    let m1 = run_tasks(m, fired).0;
    lemma_run_tasks_missed_checks(m, fired);
    lemma_run_tasks_bounds(m, fired);
    lemma_run_tasks_keeps_started(m, fired);
    assert forall|j: int| 0 <= j < m1.users.len() implies #[trigger] m1.users[j].id == m.users[j].id
        && m1.users[j].addr == m.users[j].addr by {}
    assert(ids_ok(m1.users, m1.current_user_id));
    let (mid, out_in, amount_changed, all_ready) = receive_all(m1, inc);
    lemma_receive_all_seen(m1, inc);
    lemma_receive_all_ids(m1, inc);
    assert(heard(m1.users, k, inc) == heard(m.users, k, inc)) by {
        assert(first_at(m1.users, k) == first_at(m.users, k)) by {
            assert forall|j: int| 0 <= j < k implies m1.users[j].addr == m.users[j].addr by {}
        }
    }
    let users = mid.users.filter(alive());
    let (m3, out_fin) = finish(mid, amount_changed, all_ready);
    let marked = users.filter(updated());
    let cleared = clear_updated(users, targets_of(marked));
    assert(m3.users == cleared);
    let id = m.users[k].id;
    if mid.users[k].last_seen < USER_TIMEOUT {
        mid.users.lemma_filter_contains(alive(), k);
        let j = choose|j: int| 0 <= j < users.len() && users[j] == mid.users[k];
        assert(m3.users[j].id == id);
    }
    if exists|j: int| 0 <= j < m3.users.len() && #[trigger] m3.users[j].id == id {
        let j = choose|j: int| 0 <= j < m3.users.len() && #[trigger] m3.users[j].id == id;
        assert(users[j].id == id);
        mid.users.lemma_filter_pred(alive(), j);
        assert(users.contains(users[j]));
        mid.users.lemma_filter_contains_rev(alive(), users[j]);
        let i = choose|i: int| 0 <= i < mid.users.len() && mid.users[i] == users[j];
        if i != k {
            if i < k {
                assert(mid.users[i].id != mid.users[k].id);
            } else {
                assert(mid.users[k].id != mid.users[i].id);
            }
        }
    }
    if m3.users.len() < mid.users.len() {
        let n = users.len();
        let amount = Message::UserAmount { amount: n as u8 };
        let out1 = to_all(users, amount) + data_of_all(users, users);
        assert forall|j: int| 0 <= j < m3.users.len() implies host_step(m, fired, inc).2.contains(
            (#[trigger] m3.users[j].addr, Message::UserAmount { amount: m3.users.len() as u8 }),
        ) by {
            let out = host_step(m, fired, inc).2;
            assert(out == out_in + out_fin);
            assert(out1[j] == (users[j].addr, amount));
            assert(out_fin[j] == out1[j]);
            assert(out[out_in.len() + j] == out_fin[j]);
        }
    }
}

/// A repeating timer that has not fired yet, started at `start`.
pub open spec fn repeating(name: Seq<char>, wait: u64, action: HostTask, start: u128) -> TaskState<
    HostTask,
> {
    TaskState { name, start_time: start, wait_time: wait, repeat: true, has_ran: false, action }
}

/// `update_sender` changes exactly the user the message is taken as coming
/// from: the first one at its address.
proof fn lemma_update_sender_exact(
    users: Seq<UserState>,
    addr: PeerAddr,
    f: spec_fn(UserState) -> UserState,
)
    ensures
        update_sender(users, addr, f).len() == users.len(),
        forall|k: int|
            0 <= k < users.len() ==> #[trigger] update_sender(users, addr, f)[k] == if users[k].addr
                == addr && first_at(users, k) {
                f(users[k])
            } else {
                users[k]
            },
{
    crate::seqs::lemma_first_where_is_first(users, at_addr(addr));
    assert forall|k: int| 0 <= k < users.len() implies #[trigger] update_sender(users, addr, f)[k]
        == if users[k].addr == addr && first_at(users, k) {
        f(users[k])
    } else {
        users[k]
    } by {
        lemma_first_at(users, addr, k);
    }
}

/// The users as a message from `addr` first leaves them: the same users,
/// at the same places, with the same ids, addresses, scores, readiness and
/// targets.
proof fn lemma_seen_keeps_users(m: HostModel, addr: PeerAddr)
    ensures
        ({
            let users = update_sender(m.users, addr, |u: UserState| UserState { last_seen: 0, ..u });
            &&& users.len() == m.users.len()
            &&& forall|k: int|
                0 <= k < m.users.len() ==> {
                    &&& #[trigger] users[k].id == m.users[k].id
                    &&& users[k].addr == m.users[k].addr
                    &&& users[k].score == m.users[k].score
                    &&& users[k].is_ready == m.users[k].is_ready
                    &&& users[k].is_updated == m.users[k].is_updated
                    &&& users[k].target_player_id == m.users[k].target_player_id
                }
            &&& forall|k: int| 0 <= k < m.users.len() ==> (first_at(users, k) <==> first_at(m.users, k))
        }),
{
    let f0 = |u: UserState| UserState { last_seen: 0, ..u };
    let users = update_sender(m.users, addr, f0);
    lemma_update_sender_exact(m.users, addr, f0);
    assert forall|k: int| 0 <= k < m.users.len() implies (first_at(users, k) <==> first_at(m.users, k)) by {
        assert(users[k].addr == m.users[k].addr);
        assert forall|j: int| 0 <= j < k implies users[j].addr == m.users[j].addr by {
            assert(users[j].addr == m.users[j].addr);
        }
        if first_at(m.users, k) {
            assert forall|j: int| 0 <= j < k implies #[trigger] users[j].addr != users[k].addr by {
                assert(users[j].addr == m.users[j].addr);
                assert(m.users[j].addr != m.users[k].addr);
            }
        }
        if first_at(users, k) {
            assert forall|j: int| 0 <= j < k implies #[trigger] m.users[j].addr != m.users[k].addr by {
                assert(users[j].addr == m.users[j].addr);
                assert(users[j].addr != users[k].addr);
            }
        }
    }
}

/// A `Ready` message sets the readiness of the user it comes from (ready for
/// any byte above 0) and of no one else, and it reports that all users are
/// ready exactly when every connected user, after it, is ready: a game
/// never starts while a connected user has not said it is ready.
pub proof fn lemma_ready_reports_all_ready(m: HostModel, addr: PeerAddr, is_ready: u8)
    ensures
        ({
            let (m2, out, amount_changed, all_ready) = receive(
                m,
                addr,
                Message::Ready { is_ready },
            );
            &&& all_ready <==> forall|k: int| 0 <= k < m2.users.len() ==> #[trigger] m2.users[k].is_ready
            &&& m2.users.len() == m.users.len()
            &&& forall|k: int|
                0 <= k < m.users.len() ==> #[trigger] m2.users[k].is_ready == if m.users[k].addr
                    == addr && first_at(m.users, k) {
                    is_ready > 0
                } else {
                    m.users[k].is_ready
                }
            &&& out.len() == 0
            &&& !amount_changed
            &&& m2.started == m.started
        }),
{
    let f0 = |u: UserState| UserState { last_seen: 0, ..u };
    let users = update_sender(m.users, addr, f0);
    lemma_seen_keeps_users(m, addr);
    let f = |u: UserState| UserState { is_ready: is_ready > 0, ..u };
    lemma_update_sender_exact(users, addr, f);
    let us = update_sender(users, addr, f);
    assert forall|k: int| 0 <= k < m.users.len() implies #[trigger] us[k].is_ready == if m.users[k].addr
        == addr && first_at(m.users, k) {
        is_ready > 0
    } else {
        m.users[k].is_ready
    } by {
        assert(users[k].id == m.users[k].id);
        assert(first_at(users, k) <==> first_at(m.users, k));
        assert(us[k] == if users[k].addr == addr && first_at(users, k) {
            f(users[k])
        } else {
            users[k]
        });
    }
}

/// An `AsteroidHit` adds exactly one point to the score of the user it
/// comes from, and marks that user's data to be sent; no other score
/// changes.
pub proof fn lemma_hit_scores_one_point(m: HostModel, addr: PeerAddr, size: u8, i: int)
    requires
        0 <= i < m.users.len(),
        m.users[i].addr == addr,
        first_at(m.users, i),
        m.users[i].score < u32::MAX,
    ensures
        ({
            let (m2, out, _, _) = receive(m, addr, Message::AsteroidHit { size });
            &&& m2.users.len() == m.users.len()
            &&& m2.users[i].score == m.users[i].score + 1
            &&& m2.users[i].is_updated
            &&& forall|k: int| 0 <= k < m.users.len() && k != i ==> #[trigger] m2.users[k].score
                == m.users[k].score
            &&& out.len() == 0
        }),
{
    let f0 = |u: UserState| UserState { last_seen: 0, ..u };
    let users = update_sender(m.users, addr, f0);
    lemma_seen_keeps_users(m, addr);
    let f = |u: UserState| UserState { score: (u.score + 1) as u32, is_updated: true, ..u };
    lemma_update_sender_exact(users, addr, f);
    let us = update_sender(users, addr, f);
    assert(users[i].id == m.users[i].id);
    assert(first_at(users, i) <==> first_at(m.users, i));
    assert(us[i] == f(users[i]));
    assert forall|k: int| 0 <= k < m.users.len() && k != i implies #[trigger] us[k].score
        == m.users[k].score by {
        assert(users[k].id == m.users[k].id);
        assert(us[k] == if users[k].addr == addr && first_at(users, k) {
            f(users[k])
        } else {
            users[k]
        });
        if users[k].addr == addr && first_at(users, k) {
            if k < i {
                assert(m.users[k].addr != m.users[i].addr);
            } else {
                assert(users[i].addr != users[k].addr);
            }
        }
    }
}

/// An `AttackPlayer` from a user that targets a connected user is sent on,
/// with its amount, to that user and to no one else; with no target, or no
/// connected user of that id, nothing is sent.
pub proof fn lemma_attack_goes_to_target(m: HostModel, addr: PeerAddr, amount: u8, i: int)
    requires
        0 <= i < m.users.len(),
        m.users[i].addr == addr,
        first_at(m.users, i),
    ensures
        ({
            let out = receive(m, addr, Message::AttackPlayer { amount }).1;
            match m.users[i].target_player_id {
                Some(t) => if exists|j: int| 0 <= j < m.users.len() && #[trigger] m.users[j].id == t {
                    &&& out.len() == 1
                    &&& out[0].1 == Message::AttackPlayer { amount }
                    &&& exists|j: int|
                        0 <= j < m.users.len() && #[trigger] m.users[j].id == t && out[0].0
                            == m.users[j].addr
                } else {
                    out.len() == 0
                },
                None => out.len() == 0,
            }
        }),
{
    let f0 = |u: UserState| UserState { last_seen: 0, ..u };
    let users = update_sender(m.users, addr, f0);
    lemma_seen_keeps_users(m, addr);
    assert(users[i].id == m.users[i].id);
    assert(first_at(users, i) <==> first_at(m.users, i));
    lemma_first_at(users, addr, i);
    assert(first_where(users, at_addr(addr)) == Some(i));
    match m.users[i].target_player_id {
        Some(t) => {
            assert(users[i].target_player_id == Some(t));
            crate::seqs::lemma_first_where_is_first(users, with_id(t));
            if exists|j: int| 0 <= j < m.users.len() && #[trigger] m.users[j].id == t {
                let j0 = choose|j: int| 0 <= j < m.users.len() && #[trigger] m.users[j].id == t;
                assert(users[j0].id == m.users[j0].id);
                assert((with_id(t))(users[j0]));
                match first_where(users, with_id(t)) {
                    Some(j) => {
                        assert(users[j].id == m.users[j].id);
                        assert(m.users[j].id == t);
                    },
                    None => {
                        assert(!(with_id(t))(users[j0]));
                    },
                }
            } else {
                match first_where(users, with_id(t)) {
                    Some(j) => {
                        assert(users[j].id == m.users[j].id);
                        assert(m.users[j].id == t);
                    },
                    None => {},
                }
            }
        },
        None => {
            assert(users[i].target_player_id is None);
        },
    }
}

/// The data a user's `UserData` message shares: its id, score, health and
/// name, and the id it targets, 0 when it targets no one.
pub proof fn lemma_user_data_shares_target(u: UserState)
    ensures
        user_data(u) matches Message::UserData { id, score, health, target_player, name } && id
            == u.id && score == u.score && health == u.health && name == u.name && (
        u.target_player_id matches Some(t) ==> target_player == t) && (u.target_player_id is None
            ==> target_player == 0),
{
}

/// Only a `Ready` message reports that all users are ready.
proof fn lemma_only_ready_reports(m: HostModel, addr: PeerAddr, msg: Message)
    ensures
        receive(m, addr, msg).3 ==> msg is Ready,
{
}

/// The frame's messages report that all users are ready exactly when, just
/// after some `Ready` message among them, every user then connected was
/// ready.
pub proof fn lemma_frame_all_ready(m: HostModel, inc: Seq<(PeerAddr, Message)>)
    ensures
        receive_all(m, inc).3 <==> exists|p: int|
            0 <= p < inc.len() && #[trigger] inc[p].1 is Ready && forall|k: int|
                0 <= k < receive_all(m, inc.take(p + 1)).0.users.len() ==> #[trigger] receive_all(
                    m,
                    inc.take(p + 1),
                ).0.users[k].is_ready,
    decreases inc.len(),
{
    if inc.len() > 0 {
        let rest = inc.drop_last();
        let n = rest.len() as int;
        lemma_frame_all_ready(m, rest);
        let m1 = receive_all(m, rest).0;
        let (a, msg) = inc.last();
        lemma_only_ready_reports(m1, a, msg);
        assert(inc.take(n + 1) =~= inc);
        assert forall|p: int| 0 <= p < n implies #[trigger] inc.take(p + 1) == rest.take(p + 1) by {
            assert(inc.take(p + 1) =~= rest.take(p + 1));
        }
        match msg {
            Message::Ready { is_ready } => {
                lemma_ready_reports_all_ready(m1, a, is_ready);
            },
            _ => {},
        }
        if receive_all(m, inc).3 {
            if receive_all(m, rest).3 {
                let p = choose|p: int|
                    0 <= p < rest.len() && #[trigger] rest[p].1 is Ready && forall|k: int|
                        0 <= k < receive_all(m, rest.take(p + 1)).0.users.len() ==> #[trigger] receive_all(
                            m,
                            rest.take(p + 1),
                        ).0.users[k].is_ready;
                assert(inc.take(p + 1) == rest.take(p + 1));
                assert(inc[p] == rest[p]);
            } else {
                assert(inc[n].1 is Ready);
                assert(receive_all(m, inc.take(n + 1)).0 == receive(m1, a, msg).0);
            }
        }
        if exists|p: int|
            0 <= p < inc.len() && #[trigger] inc[p].1 is Ready && forall|k: int|
                0 <= k < receive_all(m, inc.take(p + 1)).0.users.len() ==> #[trigger] receive_all(
                    m,
                    inc.take(p + 1),
                ).0.users[k].is_ready {
            let p = choose|p: int|
                0 <= p < inc.len() && #[trigger] inc[p].1 is Ready && forall|k: int|
                    0 <= k < receive_all(m, inc.take(p + 1)).0.users.len() ==> #[trigger] receive_all(
                        m,
                        inc.take(p + 1),
                    ).0.users[k].is_ready;
            if p < n {
                assert(inc.take(p + 1) == rest.take(p + 1));
                assert(inc[p] == rest[p]);
                assert(receive_all(m, rest).3);
            } else {
                assert(receive_all(m, inc.take(n + 1)).0 == receive(m1, a, msg).0);
            }
        }
    }
}

/// The shared data of each subject reaches each recipient.
proof fn lemma_data_of_all_contains(
    recipients: Seq<UserState>,
    subjects: Seq<UserState>,
    s: int,
    j: int,
)
    requires
        0 <= s < subjects.len(),
        0 <= j < recipients.len(),
    ensures
        data_of_all(recipients, subjects).contains((recipients[j].addr, user_data(subjects[s]))),
    decreases subjects.len(),
{
    let d = data_of_all(recipients, subjects.drop_last());
    let t = to_all(recipients, user_data(subjects.last()));
    assert(data_of_all(recipients, subjects) == d + t);
    if s == subjects.len() - 1 {
        assert((d + t)[d.len() + j] == t[j]);
    } else {
        lemma_data_of_all_contains(recipients, subjects.drop_last(), s, j);
        let idx = choose|idx: int|
            0 <= idx < d.len() && d[idx] == (recipients[j].addr, user_data(subjects[s]));
        assert((d + t)[idx] == d[idx]);
    }
}

/// At the end of a frame, the data of every remaining user marked as
/// updated, with its id, score, health, name and the id it targets, is sent
/// to every remaining user.
pub proof fn lemma_updated_data_reaches_everyone(
    m: HostModel,
    amount_changed: bool,
    all_ready: bool,
    k: int,
    j: int,
    t: u32,
)
    requires
        0 <= k < m.users.filter(alive()).len(),
        0 <= j < m.users.filter(alive()).len(),
        m.users.filter(alive())[k].is_updated,
        m.users.filter(alive())[k].target_player_id == Some(t),
    ensures
        ({
            let users = m.users.filter(alive());
            let u = users[k];
            finish(m, amount_changed, all_ready).1.contains(
                (
                    users[j].addr,
                    Message::UserData {
                        id: u.id,
                        score: u.score,
                        health: u.health,
                        target_player: t,
                        name: u.name,
                    },
                ),
            )
        }),
{
    broadcast use vstd::seq_lib::group_filter_ensures;

    let users = m.users.filter(alive());
    let marked = users.filter(updated());
    users.lemma_filter_contains(updated(), k);
    let s = choose|s: int| 0 <= s < marked.len() && marked[s] == users[k];
    lemma_data_of_all_contains(users, marked, s, j);
    let out = finish(m, amount_changed, all_ready).1;
    let announce = amount_changed || users.len() != m.users.len();
    let out1 = if announce {
        to_all(users, Message::UserAmount { amount: users.len() as u8 }) + data_of_all(users, users)
    } else {
        seq![]
    };
    let out2 = data_of_all(users, marked);
    let cleared = clear_updated(users, targets_of(marked));
    let out3 = if cleared.len() > 1 && all_ready {
        to_all(cleared, Message::StartGame)
    } else {
        seq![]
    };
    assert(out == out1 + out2 + out3);
    let msg = (users[j].addr, user_data(users[k]));
    let idx = choose|idx: int| 0 <= idx < out2.len() && out2[idx] == msg;
    assert((out1 + out2 + out3)[out1.len() + idx] == msg);
}

/// Whether `id` is among `ids`.
fn contains_id(ids: &Vec<u32>, id: u32) -> (b: bool)
    ensures
        b == ids@.contains(id),
{
    let mut i: usize = 0;
    while i < ids.len()
        invariant
            0 <= i <= ids@.len(),
            forall|k: int| 0 <= k < i ==> ids@[k] != id,
        decreases ids@.len() - i,
    {
        if ids[i] == id {
            assert(ids@[i as int] == id);
            return true;
        }
        i = i + 1;
    }
    false
}

impl HostSession {
    pub closed spec fn model(&self) -> HostModel {
        HostModel {
            users: users_view(self.users@),
            current_user_id: self.current_user_id,
            started: self.started,
            pressure_enabled: self.pressure_enabled,
        }
    }

    /// The timers.
    pub closed spec fn timers(&self) -> Seq<TaskState<HostTask>> {
        self.scheduler.tasks()
    }

    /// The timers' clock, in nanoseconds.
    pub closed spec fn clock(&self) -> u128 {
        self.scheduler.clock()
    }

    pub open spec fn wf(&self) -> bool {
        &&& valid_users(self.model())
        &&& checks_in(self.timers()) <= MAX_LIVENESS_CHECKS
    }

    /// A host with no users, not started, with pressure enabled.
    pub fn new() -> (h: Self)
        ensures
            h.wf(),
            h.model() == (HostModel {
                users: seq![],
                current_user_id: 0,
                started: false,
                pressure_enabled: true,
            }),
            h.timers().len() == 0,
    {
        let h = HostSession {
            users: Vec::new(),
            scheduler: Scheduler::new(),
            current_user_id: 0,
            started: false,
            pressure_enabled: true,
        };
        assert(h.model().users =~= seq![]);
        h
    }

    /// The connected users.
    pub fn users(&self) -> (u: &Vec<User>)
        ensures
            users_view(u@) == self.model().users,
    {
        &self.users
    }

    /// Whether summoned asteroids are sent.
    pub fn pressure_enabled(&self) -> (b: bool)
        ensures
            b == self.model().pressure_enabled,
    {
        self.pressure_enabled
    }

    /// Whether the game has started.
    pub fn started(&self) -> (b: bool)
        ensures
            b == self.model().started,
    {
        self.started
    }

    /// The number of liveness-check timers.
    pub fn liveness_checks(&self) -> (n: usize)
        ensures
            n == checks_in(self.timers()),
    {
        let ghost tasks = self.timers();
        let mut n: usize = 0;
        let mut i: usize = 0;
        while i < self.scheduler.len()
            invariant
                0 <= i <= tasks.len(),
                tasks == self.timers(),
                n == checks_in(tasks.take(i as int)),
                n <= i,
            decreases tasks.len() - i,
        {
            assert(tasks.take(i + 1).drop_last() =~= tasks.take(i as int));
            if *self.scheduler.action(i) == HostTask::CheckAlive {
                n = n + 1;
            }
            i = i + 1;
        }
        assert(tasks.take(i as int) =~= tasks);
        n
    }

    /// The id given to the last user that connected.
    pub fn current_user_id(&self) -> (id: u32)
        ensures
            id == self.model().current_user_id,
    {
        self.current_user_id
    }

    /// Whether `update` may take the messages `incoming`: at most
    /// `MAX_LIVENESS_CHECKS` liveness checks, every user below `USER_TIMEOUT`
    /// missed checks,
    /// and neither the ids of its connections nor the scores of its hits
    /// can overflow.
    pub fn can_update(&self, incoming: &Vec<(PeerAddr, NetworkMessage)>) -> (b: bool)
        ensures
            b == ({
                &&& checks_in(self.timers()) <= MAX_LIVENESS_CHECKS
                &&& forall|k: int|
                    0 <= k < self.model().users.len() ==> #[trigger] self.model().users[k].last_seen
                        < USER_TIMEOUT
                &&& fits(self.model(), outgoing_view(incoming@))
            }),
    {
        let ghost inc = outgoing_view(incoming@);
        if self.liveness_checks() > MAX_LIVENESS_CHECKS {
            return false;
        }
        let mut connects: usize = 0;
        let mut hits: usize = 0;
        let mut j: usize = 0;
        while j < incoming.len()
            invariant
                0 <= j <= incoming@.len(),
                inc == outgoing_view(incoming@),
                connects == count_connects(inc.take(j as int)),
                hits == count_hits(inc.take(j as int)),
                connects <= j,
                hits <= j,
            decreases incoming@.len() - j,
        {
            assert(inc.take(j + 1).drop_last() =~= inc.take(j as int));
            match &incoming[j].1 {
                NetworkMessage::Connect { .. } => {
                    connects = connects + 1;
                },
                NetworkMessage::AsteroidHit { .. } => {
                    hits = hits + 1;
                },
                _ => {},
            }
            j = j + 1;
        }
        assert(inc.take(j as int) =~= inc);
        assert(connects == count_connects(inc) && hits == count_hits(inc));
        if connects as u64 > (u32::MAX - self.current_user_id) as u64 || hits as u64 > u32::MAX
            as u64 {
            assert(!fits(self.model(), inc));
            return false;
        }
        let mut i: usize = 0;
        while i < self.users.len()
            invariant
                0 <= i <= self.model().users.len(),
                inc == outgoing_view(incoming@),
                checks_in(self.timers()) <= MAX_LIVENESS_CHECKS,
                self.model().current_user_id + count_connects(inc) <= u32::MAX,
                count_hits(inc) <= u32::MAX,
                hits == count_hits(inc),
                forall|k: int|
                    0 <= k < i ==> #[trigger] self.model().users[k].last_seen < USER_TIMEOUT
                        && self.model().users[k].score + count_hits(inc) <= u32::MAX,
            decreases self.model().users.len() - i,
        {
            let u = &self.users[i];
            assert(self.model().users[i as int] == u@);
            if u.last_seen >= USER_TIMEOUT {
                assert(self.model().users[i as int].last_seen >= USER_TIMEOUT);
                return false;
            }
            if hits as u64 > (u32::MAX - u.score) as u64 {
                assert(self.model().users[i as int].score + count_hits(inc) > u32::MAX);
                assert(!fits(self.model(), inc));
                return false;
            }
            assert(self.model().users[i as int].last_seen < USER_TIMEOUT
                && self.model().users[i as int].score + count_hits(inc) <= u32::MAX);
            i = i + 1;
        }
        assert forall|k: int| 0 <= k < self.model().users.len() implies #[trigger] self.model().users[k].score
            + count_hits(inc) <= u32::MAX by {
            assert(self.model().users[k].last_seen < USER_TIMEOUT);
        }
        true
    }

    /// The pressure button: summoned asteroids on or off.
    pub fn toggle_pressure(&mut self)
        ensures
            final(self).model() == (HostModel {
                pressure_enabled: !old(self).model().pressure_enabled,
                ..old(self).model()
            }),
            final(self).timers() == old(self).timers(),
            final(self).clock() == old(self).clock(),
    {
        self.pressure_enabled = !self.pressure_enabled;
    }

    /// Starts the two repeating timers of the host, each at a fresh reading
    /// of the clock: a liveness check every second ("alive_check") and a
    /// round of summoned asteroids every five seconds ("spawn_asteroid").
    pub fn on_activate(&mut self)
        requires
            checks_in(old(self).timers()) + 1 <= MAX_LIVENESS_CHECKS,
        ensures
            old(self).wf() ==> final(self).wf(),
            final(self).model() == old(self).model(),
            final(self).clock() >= old(self).clock(),
            ({
                let alive_at = final(self).timers()[old(self).timers().len() as int].start_time;
                &&& old(self).clock() <= alive_at <= final(self).clock()
                &&& final(self).timers() == old(self).timers().push(
                    repeating("alive_check"@, ALIVE_CHECK_NS, HostTask::CheckAlive, alive_at),
                ).push(
                    repeating(
                        "spawn_asteroid"@,
                        SUMMON_NS,
                        HostTask::SummonAsteroids,
                        final(self).clock(),
                    ),
                )
            }),
    {
        self.scheduler.schedule("alive_check", ALIVE_CHECK_NS, true, HostTask::CheckAlive);
        let ghost mid = self.scheduler.tasks();
        let ghost c1 = self.scheduler.clock();
        self.scheduler.schedule("spawn_asteroid", SUMMON_NS, true, HostTask::SummonAsteroids);
        assert(mid =~= old(self).timers().push(
            repeating("alive_check"@, ALIVE_CHECK_NS, HostTask::CheckAlive, c1),
        ));
        assert(self.timers() =~= mid.push(
            repeating("spawn_asteroid"@, SUMMON_NS, HostTask::SummonAsteroids, self.clock()),
        ));
        assert(self.timers().drop_last() == mid);
        assert(mid.drop_last() == old(self).timers());
        assert(mid.last().action == HostTask::CheckAlive);
        assert(self.timers().last().action == HostTask::SummonAsteroids);
        assert(checks_in(mid) == checks_in(old(self).timers()) + 1);
        assert(checks_in(self.timers()) == checks_in(mid));
    }

    /// Counts one more missed liveness check for every user.
    fn bump_all(&mut self)
        requires
            forall|k: int|
                0 <= k < old(self).model().users.len() ==> #[trigger] old(self).model().users[k].last_seen
                    < u8::MAX,
        ensures
            final(self).model() == (HostModel {
                users: old(self).model().users.map_values(|u: UserState| bump(u)),
                ..old(self).model()
            }),
            final(self).timers() == old(self).timers(),
            final(self).clock() == old(self).clock(),
    {
        let ghost before = old(self).model().users;
        let mut j: usize = 0;
        while j < self.users.len()
            invariant
                0 <= j <= before.len(),
                self.users@.len() == before.len(),
                forall|k: int| 0 <= k < before.len() ==> #[trigger] before[k].last_seen < u8::MAX,
                forall|k: int|
                    0 <= k < before.len() ==> #[trigger] self.users@[k]@ == if k < j {
                        bump(before[k])
                    } else {
                        before[k]
                    },
                self.current_user_id == old(self).model().current_user_id,
                self.started == old(self).model().started,
                self.pressure_enabled == old(self).model().pressure_enabled,
                self.timers() == old(self).timers(),
                self.clock() == old(self).clock(),
            decreases before.len() - j,
        {
            assert(self.users@[j as int]@ == before[j as int]);
            self.users[j].last_seen = self.users[j].last_seen + 1;
            j = j + 1;
        }
        assert(self.model().users =~= before.map_values(|u: UserState| bump(u)));
    }

    /// Runs the fired tasks, in order; returns the addresses to summon an
    /// asteroid for.
    fn run_tasks(&mut self, fired: &Vec<HostTask>) -> (summon_to: Vec<PeerAddr>)
        requires
            count_checks(fired@) + USER_TIMEOUT <= u8::MAX,
            forall|k: int|
                0 <= k < old(self).model().users.len() ==> #[trigger] old(self).model().users[k].last_seen
                    < USER_TIMEOUT,
        ensures
            (final(self).model(), summon_to@) == run_tasks(old(self).model(), fired@),
            final(self).timers() == old(self).timers(),
            final(self).clock() == old(self).clock(),
    {
        let ghost m0 = old(self).model();
        let mut summon_to: Vec<PeerAddr> = Vec::new();
        let mut i: usize = 0;
        assert(fired@.take(0) =~= seq![]);
        while i < fired.len()
            invariant
                0 <= i <= fired@.len(),
                count_checks(fired@) + USER_TIMEOUT <= u8::MAX,
                count_checks(fired@.take(i as int)) <= count_checks(fired@),
                (self.model(), summon_to@) == run_tasks(m0, fired@.take(i as int)),
                forall|k: int|
                    0 <= k < self.model().users.len() ==> #[trigger] self.model().users[k].last_seen
                        < USER_TIMEOUT + count_checks(fired@.take(i as int)),
                self.timers() == old(self).timers(),
                self.clock() == old(self).clock(),
            decreases fired@.len() - i,
        {
            assert(fired@.take(i + 1).drop_last() =~= fired@.take(i as int));
            proof {
                lemma_count_checks_prefix(fired@, i + 1);
            }
            match fired[i] {
                HostTask::CheckAlive => {
                    self.bump_all();
                },
                HostTask::SummonAsteroids => {
                    if self.started && self.pressure_enabled {
                        let ghost to0 = summon_to@;
                        let mut j: usize = 0;
                        while j < self.users.len()
                            invariant
                                0 <= j <= self.users@.len(),
                                summon_to@ == to0 + addrs(self.model().users).take(j as int),
                            decreases self.users@.len() - j,
                        {
                            summon_to.push(self.users[j].addr);
                            j = j + 1;
                            assert(summon_to@ =~= to0 + addrs(self.model().users).take(j as int));
                        }
                        assert(addrs(self.model().users).take(j as int) =~= addrs(self.model().users));
                    }
                },
            }
            i = i + 1;
        }
        assert(fired@.take(i as int) =~= fired@);
        summon_to
    }

    /// The position of the first user at `addr`.
    fn sender_index(&self, addr: PeerAddr) -> (r: Option<usize>)
        ensures
            match r {
                Some(i) => first_where(self.model().users, at_addr(addr)) == Some(i as int),
                None => first_where(self.model().users, at_addr(addr)) is None,
            },
    {
        let ghost us = self.model().users;
        let mut i: usize = 0;
        while i < self.users.len()
            invariant
                us == self.model().users,
                0 <= i <= us.len(),
                forall|k: int| 0 <= k < i ==> !(at_addr(addr))(#[trigger] us[k]),
            decreases us.len() - i,
        {
            if self.users[i].addr == addr {
                proof {
                    lemma_first_where_found(us, at_addr(addr), i as int);
                }
                return Some(i);
            }
            i = i + 1;
        }
        proof {
            lemma_first_where_none(us, at_addr(addr));
        }
        None
    }

    /// The position of the first user with id `id`.
    fn index_of_id(&self, id: u32) -> (r: Option<usize>)
        ensures
            match r {
                Some(i) => first_where(self.model().users, with_id(id)) == Some(i as int),
                None => first_where(self.model().users, with_id(id)) is None,
            },
    {
        let ghost us = self.model().users;
        let mut i: usize = 0;
        while i < self.users.len()
            invariant
                us == self.model().users,
                0 <= i <= us.len(),
                forall|k: int| 0 <= k < i ==> !(with_id(id))(#[trigger] us[k]),
            decreases us.len() - i,
        {
            if self.users[i].id == id {
                proof {
                    lemma_first_where_found(us, with_id(id), i as int);
                }
                return Some(i);
            }
            i = i + 1;
        }
        proof {
            lemma_first_where_none(us, with_id(id));
        }
        None
    }

    /// Whether every user is ready.
    fn all_ready(&self) -> (b: bool)
        ensures
            b == forall|k: int|
                0 <= k < self.model().users.len() ==> #[trigger] self.model().users[k].is_ready,
    {
        let mut i: usize = 0;
        while i < self.users.len()
            invariant
                0 <= i <= self.model().users.len(),
                forall|k: int| 0 <= k < i ==> #[trigger] self.model().users[k].is_ready,
            decreases self.model().users.len() - i,
        {
            if !self.users[i].is_ready {
                assert(!self.model().users[i as int].is_ready);
                return false;
            }
            i = i + 1;
        }
        true
    }

    /// Handles a message from `addr`, appending what it makes the host send.
    fn receive(
        &mut self,
        addr: PeerAddr,
        msg: &NetworkMessage,
        out: &mut Vec<(PeerAddr, NetworkMessage)>,
    ) -> (flags: (bool, bool))
        requires
            msg@ is Connect ==> old(self).model().current_user_id < u32::MAX,
            msg@ is AsteroidHit ==> forall|k: int|
                0 <= k < old(self).model().users.len() ==> #[trigger] old(self).model().users[k].score
                    < u32::MAX,
        ensures
            ({
                let (m, o, a, r) = receive(old(self).model(), addr, msg@);
                &&& final(self).model() == m
                &&& outgoing_view(final(out)@) == outgoing_view(old(out)@) + o
                &&& flags == (a, r)
            }),
            final(self).timers() == old(self).timers(),
            final(self).clock() == old(self).clock(),
    {
        let ghost m = old(self).model();
        let ghost out0 = outgoing_view(out@);
        let idx = self.sender_index(addr);
        let ghost seen_users = update_sender(
            m.users,
            addr,
            |u: UserState| UserState { last_seen: 0, ..u },
        );
        proof {
            crate::seqs::lemma_first_where_is_first(m.users, at_addr(addr));
        }
        if let Some(i) = idx {
            self.users[i].last_seen = 0;
            proof {
                assert forall|k: int| 0 <= k < i implies !(at_addr(addr))(
                    #[trigger] self.model().users[k],
                ) by {
                    assert(self.model().users[k] == m.users[k]);
                }
                lemma_first_where_found(self.model().users, at_addr(addr), i as int);
            }
        }
        assert(self.model().users =~= seen_users);
        match msg {
            NetworkMessage::Connect { name } => {
                if self.started {
                    out.push((addr, NetworkMessage::Reject { reason: REJECT_STARTED }));
                    assert(outgoing_view(out@) =~= out0 + seq![
                        (addr, Message::Reject { reason: REJECT_STARTED }),
                    ]);
                    return (false, false);
                }
                self.current_user_id = self.current_user_id + 1;
                let id = self.current_user_id;
                self.users.push(User::new(name.clone(), addr, id));
                out.push((addr, NetworkMessage::Accept { id }));
                assert(self.model().users =~= seen_users.push(new_user(name@, addr, id)));
                assert(outgoing_view(out@) =~= out0 + seq![(addr, Message::Accept { id })]);
                (true, false)
            },
            NetworkMessage::Ready { is_ready } => {
                if let Some(i) = idx {
                    self.users[i].is_ready = *is_ready > 0;
                }
                assert(self.model().users =~= update_sender(
                    seen_users,
                    addr,
                    |u: UserState| UserState { is_ready: *is_ready > 0, ..u },
                ));
                assert(outgoing_view(out@) =~= out0 + seq![]);
                let all = self.all_ready();
                (false, all)
            },
            NetworkMessage::AsteroidHit { .. } => {
                if let Some(i) = idx {
                    self.users[i].score = self.users[i].score + 1;
                    self.users[i].is_updated = true;
                }
                assert(self.model().users =~= update_sender(
                    seen_users,
                    addr,
                    |u: UserState| UserState { score: (u.score + 1) as u32, is_updated: true, ..u },
                ));
                assert(outgoing_view(out@) =~= out0 + seq![]);
                (false, false)
            },
            NetworkMessage::TargetPlayer { id } => {
                if let Some(i) = idx {
                    self.users[i].target_player_id = Some(*id);
                }
                assert(self.model().users =~= update_sender(
                    seen_users,
                    addr,
                    |u: UserState| UserState { target_player_id: Some(*id), ..u },
                ));
                assert(outgoing_view(out@) =~= out0 + seq![]);
                (false, false)
            },
            NetworkMessage::AttackPlayer { amount } => {
                if let Some(i) = idx {
                    if let Some(t) = self.users[i].target_player_id {
                        if let Some(j) = self.index_of_id(t) {
                            proof {
                                crate::seqs::lemma_first_where_is_first(seen_users, with_id(t));
                            }
                            out.push((self.users[j].addr, NetworkMessage::AttackPlayer { amount: *amount }));
                            assert(outgoing_view(out@) =~= out0 + seq![
                                (seen_users[j as int].addr, Message::AttackPlayer { amount: *amount }),
                            ]);
                            return (false, false);
                        }
                    }
                }
                assert(outgoing_view(out@) =~= out0 + seq![]);
                (false, false)
            },
            _ => {
                assert(outgoing_view(out@) =~= out0 + seq![]);
                (false, false)
            },
        }
    }

    /// Drops the users that missed `USER_TIMEOUT` liveness checks.
    fn drop_timed_out(&mut self)
        ensures
            final(self).model() == (HostModel {
                users: old(self).model().users.filter(alive()),
                ..old(self).model()
            }),
            final(self).timers() == old(self).timers(),
            final(self).clock() == old(self).clock(),
    {
        let mut rest: Vec<User> = Vec::new();
        std::mem::swap(&mut rest, &mut self.users);
        let ghost all = old(self).model().users;
        let n_users = rest.len();
        let ghost n = n_users as nat;
        let ghost pred = alive();
        assert(self.model().users =~= all.take(0).filter(pred)) by {
            reveal(Seq::filter);
        }
        assert(users_view(rest@) =~= all.skip(0));
        let mut i: usize = 0;
        while rest.len() > 0
            invariant
                i + rest@.len() == n,
                n == all.len(),
                n <= usize::MAX,
                pred == alive(),
                self.model().users == all.take(i as int).filter(pred),
                users_view(rest@) == all.skip(i as int),
                self.current_user_id == old(self).model().current_user_id,
                self.started == old(self).model().started,
                self.pressure_enabled == old(self).model().pressure_enabled,
                self.timers() == old(self).timers(),
                self.clock() == old(self).clock(),
            decreases rest@.len(),
        {
            let ghost rest_before = rest@;
            let ghost before = self.model().users;
            let u = rest.remove(0);
            assert(all[i as int] == u@) by {
                assert(all.skip(i as int)[0] == users_view(rest_before)[0]);
            }
            if u.last_seen < USER_TIMEOUT {
                self.users.push(u);
            }
            proof {
                reveal(Seq::filter);
                assert(all.take(i + 1).drop_last() =~= all.take(i as int));
                assert(all.take(i + 1).last() == all[i as int]);
                assert(self.model().users =~= all.take(i + 1).filter(pred)) by {
                    if pred(all[i as int]) {
                        assert(self.model().users =~= before.push(all[i as int]));
                    } else {
                        assert(self.model().users =~= before);
                    }
                }
                assert(rest@ == rest_before.remove(0));
                assert forall|k: int| 0 <= k < rest@.len() implies #[trigger] users_view(rest@)[k]
                    == all.skip(i + 1)[k] by {
                    assert(users_view(rest_before)[k + 1] == all.skip(i as int)[k + 1]);
                }
                assert(users_view(rest@) =~= all.skip(i + 1));
            }
            i = i + 1;
        }
        assert(all.take(n as int) =~= all);
    }

    /// Sends `msg` to every user.
    fn send_to_all(&self, msg: &NetworkMessage, out: &mut Vec<(PeerAddr, NetworkMessage)>)
        ensures
            outgoing_view(final(out)@) == outgoing_view(old(out)@) + to_all(
                self.model().users,
                msg@,
            ),
    {
        let ghost us = self.model().users;
        let ghost out0 = outgoing_view(out@);
        let mut j: usize = 0;
        while j < self.users.len()
            invariant
                us == self.model().users,
                0 <= j <= us.len(),
                outgoing_view(out@) == out0 + to_all(us, msg@).take(j as int),
            decreases us.len() - j,
        {
            let ghost prev = out@;
            out.push((self.users[j].addr, msg.duplicate()));
            assert(outgoing_view(out@) =~= outgoing_view(prev).push((us[j as int].addr, msg@)));
            assert(to_all(us, msg@).take(j + 1) =~= to_all(us, msg@).take(j as int).push(
                (us[j as int].addr, msg@),
            ));
            j = j + 1;
            assert(outgoing_view(out@) =~= out0 + to_all(us, msg@).take(j as int));
        }
        assert(to_all(us, msg@).take(j as int) =~= to_all(us, msg@));
    }

    /// The message that shares the data of the user at `j`.
    fn user_data_message(&self, j: usize) -> (m: NetworkMessage)
        requires
            j < self.model().users.len(),
        ensures
            m@ == user_data(self.model().users[j as int]),
    {
        let u = &self.users[j];
        let target_player = match u.target_player_id {
            Some(t) => t,
            None => 0,
        };
        NetworkMessage::UserData {
            id: u.id,
            score: u.score,
            health: u.health,
            target_player,
            name: u.name.clone(),
        }
    }

    /// Ends the frame: drops timed-out users, announces, shares updated
    /// users' data, and starts the game when all are ready.
    fn finish(
        &mut self,
        amount_changed: bool,
        all_ready: bool,
        out: &mut Vec<(PeerAddr, NetworkMessage)>,
    )
        ensures
            ({
                let (m, o) = finish(old(self).model(), amount_changed, all_ready);
                &&& final(self).model() == m
                &&& outgoing_view(final(out)@) == outgoing_view(old(out)@) + o
            }),
            final(self).timers() == old(self).timers(),
            final(self).clock() == old(self).clock(),
    {
        let ghost m = old(self).model();
        let ghost out0 = outgoing_view(out@);
        let old_len = self.users.len();
        self.drop_timed_out();
        let ghost us = self.model().users;
        let n = self.users.len();
        // The number of users, and each user's data.
        let announce = amount_changed || n != old_len;
        if announce {
            self.send_to_all(&NetworkMessage::UserAmount { amount: n as u8 }, out);
            let mut j: usize = 0;
            assert(us.take(0) =~= seq![]);
            while j < n
                invariant
                    n == us.len(),
                    us == self.model().users,
                    0 <= j <= n,
                    outgoing_view(out@) == out0 + to_all(
                        us,
                        Message::UserAmount { amount: n as u8 },
                    ) + data_of_all(us, us.take(j as int)),
                decreases n - j,
            {
                let msg = self.user_data_message(j);
                self.send_to_all(&msg, out);
                assert(us.take(j + 1).drop_last() =~= us.take(j as int));
                j = j + 1;
                assert(outgoing_view(out@) =~= out0 + to_all(
                    us,
                    Message::UserAmount { amount: n as u8 },
                ) + data_of_all(us, us.take(j as int)));
            }
            assert(us.take(n as int) =~= us);
        }
        let ghost out1 = outgoing_view(out@);
        assert(out1 == out0 + if announce {
            to_all(us, Message::UserAmount { amount: us.len() as u8 }) + data_of_all(us, us)
        } else {
            seq![]
        }) by {
            if !announce {
                assert(out1 =~= out0 + seq![]);
            }
        }
        // The data of each updated user, and the users they target.
        let mut targets: Vec<u32> = Vec::new();
        let mut j: usize = 0;
        let ghost pred = updated();
        assert(us.take(0).filter(pred) =~= seq![]) by {
            reveal(Seq::filter);
        }
        while j < n
            invariant
                n == us.len(),
                us == self.model().users,
                pred == updated(),
                0 <= j <= n,
                outgoing_view(out@) == out1 + data_of_all(us, us.take(j as int).filter(pred)),
                targets@ == targets_of(us.take(j as int).filter(pred)),
            decreases n - j,
        {
            let ghost marked0 = us.take(j as int).filter(pred);
            proof {
                reveal(Seq::filter);
                assert(us.take(j + 1).drop_last() =~= us.take(j as int));
                assert(us.take(j + 1).last() == us[j as int]);
            }
            if self.users[j].is_updated {
                let ghost marked1 = marked0.push(us[j as int]);
                assert(us.take(j + 1).filter(pred) == marked1);
                assert(marked1.drop_last() =~= marked0);
                if let Some(t) = self.users[j].target_player_id {
                    targets.push(t);
                }
                let msg = self.user_data_message(j);
                self.send_to_all(&msg, out);
            } else {
                assert(us.take(j + 1).filter(pred) == marked0);
            }
            j = j + 1;
        }
        assert(us.take(n as int) =~= us);
        // Clear the mark of targeted users.
        let ghost cleared = clear_updated(us, targets@);
        let mut k: usize = 0;
        while k < n
            invariant
                n == us.len(),
                0 <= k <= n,
                self.users@.len() == n,
                cleared == clear_updated(us, targets@),
                cleared.len() == n,
                forall|q: int|
                    0 <= q < n ==> #[trigger] self.users@[q]@ == if q < k {
                        cleared[q]
                    } else {
                        us[q]
                    },
                self.current_user_id == m.current_user_id,
                self.started == m.started,
                self.pressure_enabled == m.pressure_enabled,
                self.timers() == old(self).timers(),
                self.clock() == old(self).clock(),
            decreases n - k,
        {
            assert(self.users@[k as int]@ == us[k as int]);
            assert(cleared[k as int] == if targets@.contains(us[k as int].id) {
                UserState { is_updated: false, ..us[k as int] }
            } else {
                us[k as int]
            });
            if contains_id(&targets, self.users[k].id) {
                self.users[k].is_updated = false;
            }
            k = k + 1;
        }
        assert(self.model().users =~= cleared);
        // Start the game.
        let ghost out2 = outgoing_view(out@);
        if n > 1 && all_ready {
            self.started = true;
            self.send_to_all(&NetworkMessage::StartGame, out);
        } else {
            assert(outgoing_view(out@) =~= out2 + seq![]);
        }
    }

    /// One update of the host, given the tasks that fired and the messages
    /// received (in order): as `host_step` says.
    pub fn step(&mut self, fired: &Vec<HostTask>, incoming: &Vec<(PeerAddr, NetworkMessage)>) -> (frame:
        HostFrame)
        requires
            count_checks(fired@) + USER_TIMEOUT <= u8::MAX,
            forall|k: int|
                0 <= k < old(self).model().users.len() ==> #[trigger] old(self).model().users[k].last_seen
                    < USER_TIMEOUT,
            fits(old(self).model(), outgoing_view(incoming@)),
        ensures
            valid_users(old(self).model()) ==> valid_users(final(self).model()),
            forall|k: int|
                0 <= k < final(self).model().users.len() ==> #[trigger] final(self).model().users[k].last_seen
                    < USER_TIMEOUT,
            (final(self).model(), frame.summon_to@, outgoing_view(frame.outgoing@)) == host_step(
                old(self).model(),
                fired@,
                outgoing_view(incoming@),
            ),
            final(self).timers() == old(self).timers(),
            final(self).clock() == old(self).clock(),
    {
        let ghost m0 = old(self).model();
        let ghost inc = outgoing_view(incoming@);
        proof {
            lemma_run_tasks_bounds(m0, fired@);
        }
        let summon_to = self.run_tasks(fired);
        let ghost m1 = self.model();
        assert(m1 == run_tasks(m0, fired@).0);
        assert(m1.users.len() == m0.users.len());
        assert forall|k: int| 0 <= k < m1.users.len() implies #[trigger] m1.users[k].score
            + count_hits(inc) <= u32::MAX by {
            assert(m1.users[k].id == m0.users[k].id);
            assert(m1.users[k].score == m0.users[k].score);
        }
        let mut outgoing: Vec<(PeerAddr, NetworkMessage)> = Vec::new();
        let mut amount_changed = false;
        let mut all_ready = false;
        let n = incoming.len();
        let mut i: usize = 0;
        assert(inc.take(0) =~= seq![]);
        assert(outgoing_view(outgoing@) =~= seq![]);
        while i < n
            invariant
                n == incoming@.len(),
                inc == outgoing_view(incoming@),
                0 <= i <= n,
                ({
                    let (m, o, a, r) = receive_all(m1, inc.take(i as int));
                    &&& self.model() == m
                    &&& outgoing_view(outgoing@) == o
                    &&& amount_changed == a
                    &&& all_ready == r
                }),
                ids_ok(m0.users, m0.current_user_id) ==> ids_ok(
                    self.model().users,
                    self.model().current_user_id,
                ),
                self.model().current_user_id + count_connects(inc) - count_connects(inc.take(i as int))
                    <= u32::MAX,
                count_hits(inc) <= u32::MAX,
                forall|k: int|
                    0 <= k < self.model().users.len() ==> #[trigger] self.model().users[k].score
                        + count_hits(inc) - count_hits(inc.take(i as int)) <= u32::MAX,
                self.timers() == old(self).timers(),
                self.clock() == old(self).clock(),
            decreases n - i,
        {
            let ghost before = self.model();
            assert(inc.take(i + 1).drop_last() =~= inc.take(i as int));
            assert(inc.take(i + 1).last() == (incoming@[i as int].0, incoming@[i as int].1@));
            proof {
                lemma_count_prefix(inc, i + 1);
                lemma_receive_bounds(before, incoming@[i as int].0, incoming@[i as int].1@);
                assert(count_connects(inc.take(i + 1)) == count_connects(inc.take(i as int)) + if inc[i as int].1 is Connect {
                    1nat
                } else {
                    0nat
                });
                assert(count_hits(inc.take(i + 1)) == count_hits(inc.take(i as int)) + if inc[i as int].1 is AsteroidHit {
                    1nat
                } else {
                    0nat
                });
            }
            let (a, r) = self.receive(incoming[i].0, &incoming[i].1, &mut outgoing);
            amount_changed = amount_changed || a;
            all_ready = all_ready || r;
            i = i + 1;
            proof {
                let after = self.model();
                assert forall|k: int| 0 <= k < after.users.len() implies #[trigger] after.users[k].score
                    + count_hits(inc) - count_hits(inc.take(i as int)) <= u32::MAX by {
                    if k < before.users.len() {
                        assert(before.users[k].score + count_hits(inc) - count_hits(
                            inc.take(i - 1),
                        ) <= u32::MAX);
                    }
                }
            }
        }
        assert(inc.take(n as int) =~= inc);
        let ghost m2 = self.model();
        let ghost out_in = outgoing_view(outgoing@);
        self.finish(amount_changed, all_ready, &mut outgoing);
        proof {
            lemma_finish_valid(m2, amount_changed, all_ready);
        }
        HostFrame { summon_to, outgoing }
    }

    /// One update of the host with the messages received since the last one:
    /// the timers whose wait has elapsed fire (which ones depends on the
    /// clock), then the frame goes as `host_step` says for those tasks.
    pub fn update(&mut self, incoming: &Vec<(PeerAddr, NetworkMessage)>) -> (frame: HostFrame)
        requires
            checks_in(old(self).timers()) <= MAX_LIVENESS_CHECKS,
            forall|k: int|
                0 <= k < old(self).model().users.len() ==> #[trigger] old(self).model().users[k].last_seen
                    < USER_TIMEOUT,
            fits(old(self).model(), outgoing_view(incoming@)),
        ensures
            old(self).wf() ==> final(self).wf(),
            forall|k: int|
                0 <= k < final(self).model().users.len() ==> #[trigger] final(self).model().users[k].last_seen
                    < USER_TIMEOUT,
            final(self).clock() >= old(self).clock(),
            final(self).timers() == fire_all(old(self).timers(), final(self).clock()),
            exists|fired: Seq<usize>|
                #![trigger fires_at(old(self).timers(), fired, final(self).clock())]
                {
                    let tasks = old(self).timers();
                    let actions = fired.map_values(|i: usize| tasks[i as int].action);
                    &&& fires_at(tasks, fired, final(self).clock())
                    &&& (final(self).model(), frame.summon_to@, outgoing_view(frame.outgoing@))
                        == host_step(old(self).model(), actions, outgoing_view(incoming@))
                },
    {
        let ghost tasks = self.scheduler.tasks();
        let fired = self.scheduler.update();
        let ghost after = self.scheduler.tasks();
        let ghost c = self.scheduler.clock();
        let ghost m0 = self.model();
        proof {
            crate::scheduler::lemma_increasing_below_len(fired@, tasks.len());
            lemma_fired_checks(tasks, fired@);
            lemma_fire_all_keeps_checks(tasks, c);
        }
        let mut actions: Vec<HostTask> = Vec::new();
        let mut i: usize = 0;
        while i < fired.len()
            invariant
                0 <= i <= fired@.len(),
                fired@.len() <= tasks.len(),
                forall|k: int| 0 <= k < fired@.len() ==> fired@[k] < tasks.len(),
                self.scheduler.tasks().len() == tasks.len(),
                self.scheduler.tasks() == after,
                self.scheduler.clock() == c,
                self.model() == m0,
                forall|k: int|
                    0 <= k < tasks.len() ==> #[trigger] self.scheduler.tasks()[k].action
                        == tasks[k].action,
                actions@ == fired@.take(i as int).map_values(|j: usize| tasks[j as int].action),
            decreases fired@.len() - i,
        {
            actions.push(*self.scheduler.action(fired[i]));
            i = i + 1;
            assert(actions@ =~= fired@.take(i as int).map_values(
                |j: usize| tasks[j as int].action,
            ));
        }
        assert(fired@.take(i as int) =~= fired@);
        let frame = self.step(&actions, incoming);
        frame
    }
}

} // verus!
