//! A player's side of a multiplayer game: what the host tells it, and what
//! it tells the host.
use crate::game::GameEvent;
use crate::protocol::{Message, NetworkMessage};
use crate::screens::{ScreenCommand, command_after};
use crate::seqs::{first_where, lemma_first_where_found, lemma_first_where_none};
use vstd::prelude::*;

verus! {

/// Another player of the same game, as the host reported it.
pub struct OtherPlayer {
    name: String,
    health: u8,
    score: u32,
    id: u32,
    targets_you: bool,
}

/// The content of an `OtherPlayer`.
pub struct OtherPlayerState {
    pub name: Seq<char>,
    pub health: u8,
    pub score: u32,
    pub id: u32,
    pub targets_you: bool,
}

impl View for OtherPlayer {
    type V = OtherPlayerState;

    closed spec fn view(&self) -> OtherPlayerState {
        OtherPlayerState {
            name: self.name@,
            health: self.health,
            score: self.score,
            id: self.id,
            targets_you: self.targets_you,
        }
    }
}

impl OtherPlayer {
    /// The player's name.
    pub fn name(&self) -> (n: &String)
        ensures
            n@ == self@.name,
    {
        &self.name
    }

    /// The player's health.
    pub fn health(&self) -> (h: u8)
        ensures
            h == self@.health,
    {
        self.health
    }

    /// The player's score.
    pub fn score(&self) -> (s: u32)
        ensures
            s == self@.score,
    {
        self.score
    }

    /// The player's id.
    pub fn id(&self) -> (i: u32)
        ensures
            i == self@.id,
    {
        self.id
    }

    /// Whether the player targets this one.
    pub fn targets_you(&self) -> (t: bool)
        ensures
            t == self@.targets_you,
    {
        self.targets_you
    }
}

/// What the game screen does after a message from the host.
#[derive(PartialEq, Eq, Clone, Copy, Debug, Structural)]
pub enum PlayerReaction {
    /// Nothing beyond the session's own bookkeeping.
    Nothing,
    /// The host refused the connection: back to the start screen.
    ReturnToStart,
    /// The host started the game: the game becomes active.
    StartGame,
    /// The host checks liveness: answer with an `Alive` message.
    ReplyAlive,
    /// Spawn an asteroid (coordinates as `f32` bit patterns).
    SummonAsteroid { x: u32, y: u32, direction: u32, speed: u32, size: u8 },
}

/// The player's view of a multiplayer session.
pub struct PlayerSession {
    other_players: Vec<OtherPlayer>,
    hostname: String,
    username: String,
    user_amount: u8,
    my_id: u32,
    is_ready: bool,
}

/// The content of a `PlayerSession`.
pub struct PlayerModel {
    pub others: Seq<OtherPlayerState>,
    pub hostname: Seq<char>,
    pub username: Seq<char>,
    pub user_amount: u8,
    pub my_id: u32,
    pub is_ready: bool,
}

/// Finds the other player with the given id.
pub open spec fn has_id(id: u32) -> spec_fn(OtherPlayerState) -> bool {
    |p: OtherPlayerState| p.id == id
}

/// The other players after the host reports a player's data: a known player
/// is updated (and marked as targeting this player when its target is this
/// player's id); an unknown one is added, not marked.
pub open spec fn record_user_data(
    others: Seq<OtherPlayerState>,
    my_id: u32,
    id: u32,
    score: u32,
    health: u8,
    target: u32,
    name: Seq<char>,
) -> Seq<OtherPlayerState> {
    match first_where(others, has_id(id)) {
        Some(i) => others.update(
            i,
            OtherPlayerState { name, health, score, id, targets_you: target == my_id },
        ),
        None => others.push(OtherPlayerState { name, health, score, id, targets_you: false }),
    }
}

/// The session and the reaction after a message from the host.
pub open spec fn react(m: PlayerModel, msg: Message) -> (PlayerModel, PlayerReaction) {
    match msg {
        Message::Reject { .. } => (m, PlayerReaction::ReturnToStart),
        Message::Accept { id } => (PlayerModel { my_id: id, ..m }, PlayerReaction::Nothing),
        Message::StartGame => (m, PlayerReaction::StartGame),
        Message::UserData { id, score, health, target_player, name } => (
            PlayerModel {
                others: record_user_data(m.others, m.my_id, id, score, health, target_player, name),
                ..m
            },
            PlayerReaction::Nothing,
        ),
        Message::Alive => (m, PlayerReaction::ReplyAlive),
        Message::UserAmount { amount } => (
            PlayerModel { user_amount: amount, ..m },
            PlayerReaction::Nothing,
        ),
        Message::SummonAsteroid { x, y, direction, speed, size } => (
            m,
            PlayerReaction::SummonAsteroid { x, y, direction, speed, size },
        ),
        _ => (m, PlayerReaction::Nothing),
    }
}

/// No two other players share an id.
pub open spec fn distinct_ids(others: Seq<OtherPlayerState>) -> bool {
    forall|i: int, j: int| 0 <= i < j < others.len() ==> others[i].id != others[j].id
}

/// The message a game event makes the player send to the host.
pub open spec fn report_of(event: GameEvent) -> Option<Message> {
    match event {
        GameEvent::Damage { .. } => Some(Message::PlayerDamaged),
        GameEvent::AsteroidDestroyed { size } => Some(Message::AsteroidHit { size }),
        GameEvent::PlayerTarget { .. } => None,
    }
}

impl PlayerSession {
    pub closed spec fn model(&self) -> PlayerModel {
        PlayerModel {
            others: self.other_players@.map_values(|p: OtherPlayer| p@),
            hostname: self.hostname@,
            username: self.username@,
            user_amount: self.user_amount,
            my_id: self.my_id,
            is_ready: self.is_ready,
        }
    }

    /// A session with the given host and user name, with no other players,
    /// id 0, and not ready.
    pub fn new(hostname: String, username: String) -> (s: Self)
        ensures
            distinct_ids(s.model().others),
            s.model() == (PlayerModel {
                others: Seq::empty(),
                hostname: hostname@,
                username: username@,
                user_amount: 0,
                my_id: 0,
                is_ready: false,
            }),
    {
        let s = PlayerSession {
            other_players: Vec::new(),
            hostname,
            username,
            user_amount: 0,
            my_id: 0,
            is_ready: false,
        };
        assert(s.model().others =~= Seq::<OtherPlayerState>::empty());
        s
    }

    /// The host's address as entered.
    pub fn hostname(&self) -> (h: &String)
        ensures
            h@ == self.model().hostname,
    {
        &self.hostname
    }

    /// The number of connected players, as the host last reported it.
    pub fn user_amount(&self) -> (n: u8)
        ensures
            n == self.model().user_amount,
    {
        self.user_amount
    }

    /// The id the host assigned to this player.
    pub fn my_id(&self) -> (i: u32)
        ensures
            i == self.model().my_id,
    {
        self.my_id
    }

    /// Whether this player has declared itself ready.
    pub fn is_ready(&self) -> (b: bool)
        ensures
            b == self.model().is_ready,
    {
        self.is_ready
    }

    /// The other players, in the order the host first reported them.
    pub fn other_players(&self) -> (ps: &Vec<OtherPlayer>)
        ensures
            ps@.map_values(|p: OtherPlayer| p@) == self.model().others,
    {
        &self.other_players
    }

    /// The message that opens the session when the screen is activated: a
    /// `Connect` with the user name when a host is given; none for a
    /// single-player game, which starts at once.
    pub fn connect_message(&self) -> (m: Option<NetworkMessage>)
        ensures
            self.model().hostname.len() == 0 ==> m is None,
            self.model().hostname.len() > 0 ==> (m matches Some(msg) && msg@ == (Message::Connect {
                name: self.model().username,
            })),
    {
        if self.hostname.as_str().is_empty() {
            None
        } else {
            Some(NetworkMessage::Connect { name: self.username.clone() })
        }
    }

    /// The Ready button: flips readiness and returns the message that tells
    /// the host (1 for ready, 0 for not ready).
    pub fn toggle_ready(&mut self) -> (m: NetworkMessage)
        ensures
            final(self).model() == toggled(old(self).model()),
            m@ == ready_message(final(self).model().is_ready),
    {
        self.is_ready = !self.is_ready;
        NetworkMessage::Ready { is_ready: if self.is_ready { 1 } else { 0 } }
    }

    /// Handles a message from the host.
    pub fn handle_message(&mut self, msg: &NetworkMessage) -> (r: PlayerReaction)
        ensures
            (final(self).model(), r) == react(old(self).model(), msg@),
            distinct_ids(old(self).model().others) ==> distinct_ids(final(self).model().others),
    {
        match msg {
            NetworkMessage::Reject { .. } => PlayerReaction::ReturnToStart,
            NetworkMessage::Accept { id } => {
                self.my_id = *id;
                PlayerReaction::Nothing
            },
            NetworkMessage::StartGame => PlayerReaction::StartGame,
            NetworkMessage::UserData { id, score, health, target_player, name } => {
                self.record_user_data(*id, *score, *health, *target_player, name);
                PlayerReaction::Nothing
            },
            NetworkMessage::Alive => PlayerReaction::ReplyAlive,
            NetworkMessage::UserAmount { amount } => {
                self.user_amount = *amount;
                PlayerReaction::Nothing
            },
            NetworkMessage::SummonAsteroid { x, y, direction, speed, size } => {
                PlayerReaction::SummonAsteroid {
                    x: *x,
                    y: *y,
                    direction: *direction,
                    speed: *speed,
                    size: *size,
                }
            },
            _ => PlayerReaction::Nothing,
        }
    }

    fn record_user_data(&mut self, id: u32, score: u32, health: u8, target: u32, name: &String)
        ensures
            final(self).model() == (PlayerModel {
                others: record_user_data(
                    old(self).model().others,
                    old(self).model().my_id,
                    id,
                    score,
                    health,
                    target,
                    name@,
                ),
                ..old(self).model()
            }),
            distinct_ids(old(self).model().others) ==> distinct_ids(final(self).model().others),
    {
        let ghost others = old(self).model().others;
        let mut i: usize = 0;
        while i < self.other_players.len()
            invariant
                self.model() == old(self).model(),
                others == self.model().others,
                others.len() == self.other_players@.len(),
                0 <= i <= others.len(),
                forall|k: int| 0 <= k < i ==> !(has_id(id))(#[trigger] others[k]),
            decreases others.len() - i,
        {
            if self.other_players[i].id == id {
                proof {
                    assert(others[i as int] == self.other_players@[i as int]@);
                    lemma_first_where_found(others, has_id(id), i as int);
                }
                let targets_you = target == self.my_id;
                self.other_players[i] = OtherPlayer {
                    name: name.clone(),
                    health,
                    score,
                    id,
                    targets_you,
                };
                assert(self.model().others =~= others.update(
                    i as int,
                    OtherPlayerState { name: name@, health, score, id, targets_you },
                ));
                return;
            }
            assert(others[i as int] == self.other_players@[i as int]@);
            i = i + 1;
        }
        proof {
            lemma_first_where_none(others, has_id(id));
        }
        self.other_players.push(
            OtherPlayer { name: name.clone(), health, score, id, targets_you: false },
        );
        assert(self.model().others =~= others.push(
            OtherPlayerState { name: name@, health, score, id, targets_you: false },
        ));
    }

    /// What a game event does on the player's side: the screen command
    /// (back to the start screen when health runs out) and the report sent
    /// to the host (damage, or the size of a destroyed asteroid).
    pub fn handle_game_event(&self, event: &GameEvent) -> (r: (
        Option<ScreenCommand>,
        Option<NetworkMessage>,
    ))
        ensures
            r.0 is Some <==> *event == (GameEvent::Damage { health: 0 }),
            r.0 matches Some(c) ==> c is Start,
            match (r.1, report_of(*event)) {
                (Some(m), Some(expected)) => m@ == expected,
                (None, None) => true,
                _ => false,
            },
    {
        let cmd = command_after(event);
        let msg = match event {
            GameEvent::Damage { .. } => Some(NetworkMessage::PlayerDamaged),
            GameEvent::AsteroidDestroyed { size } => Some(NetworkMessage::AsteroidHit { size: *size }),
            GameEvent::PlayerTarget { .. } => None,
        };
        (cmd, msg)
    }
}

/// The host reads a player's readiness back from its `Ready` message: the
/// byte is 1 for ready, 0 for not ready, and the host counts any byte above 0
/// as ready.
pub proof fn lemma_ready_flag_round_trips(is_ready: bool)
    ensures
        ((if is_ready { 1u8 } else { 0u8 }) > 0) == is_ready,
{
}

/// After the host reports a player's data, the session knows a player of
/// that id with exactly the reported name, score and health; players of
/// other ids stay as they were, and the number of players grows by at most
/// one.
pub proof fn lemma_user_data_is_recorded(
    m: PlayerModel,
    id: u32,
    score: u32,
    health: u8,
    target_player: u32,
    name: Seq<char>,
)
    ensures
        ({
            let others = react(m, Message::UserData { id, score, health, target_player, name }).0.others;
            &&& exists|i: int|
                0 <= i < others.len() && #[trigger] others[i].id == id && others[i].name == name
                    && others[i].score == score && others[i].health == health
            &&& m.others.len() <= others.len() <= m.others.len() + 1
            &&& forall|j: int|
                0 <= j < m.others.len() && m.others[j].id != id ==> #[trigger] others[j] == m.others[j]
        }),
{
    crate::seqs::lemma_first_where_is_first(m.others, has_id(id));
    let others = record_user_data(m.others, m.my_id, id, score, health, target_player, name);
    match first_where(m.others, has_id(id)) {
        Some(i) => {
            assert((has_id(id))(m.others[i]));
            assert(others == m.others.update(
                i,
                OtherPlayerState { name, health, score, id, targets_you: target_player == m.my_id },
            ));
            assert(others[i].id == id);
            assert forall|j: int|
                0 <= j < m.others.len() && m.others[j].id != id implies #[trigger] others[j]
                == m.others[j] by {
                assert(j != i);
            }
        },
        None => {
            assert(others == m.others.push(
                OtherPlayerState { name, health, score, id, targets_you: false },
            ));
            assert(others[m.others.len() as int].id == id);
        },
    }
}

/// The session after the Ready button is pressed.
pub open spec fn toggled(m: PlayerModel) -> PlayerModel {
    PlayerModel { is_ready: !m.is_ready, ..m }
}

/// The message that tells the host whether the player is ready.
pub open spec fn ready_message(ready: bool) -> Message {
    Message::Ready { is_ready: if ready { 1u8 } else { 0u8 } }
}

/// Pressing Ready twice restores the session, and the second message tells
/// the host the readiness the player started with.
pub proof fn lemma_toggle_twice(m: PlayerModel)
    ensures
        toggled(toggled(m)) == m,
        ready_message(toggled(toggled(m)).is_ready) matches Message::Ready { is_ready } && (is_ready
            > 0) == m.is_ready,
{
}

} // verus!
