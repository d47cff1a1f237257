//! The network protocol: one leading message-id byte, then the message's
//! fields in big-endian order. A name takes all the bytes that follow the
//! fixed fields, as UTF-8.
use vstd::prelude::*;
use vstd::utf8::*;

verus! {

broadcast use vstd::utf8::group_utf8_lib;

/// Message ids, as the first byte of every datagram.
pub const ID_START_GAME: u8 = 0;
pub const ID_READY: u8 = 1;
pub const ID_ALIVE: u8 = 2;
pub const ID_SHARE_SEED: u8 = 3;
pub const ID_ASTEROID_HIT: u8 = 4;
pub const ID_CONNECT: u8 = 5;
pub const ID_TARGET_PLAYER: u8 = 6;
pub const ID_ATTACK_PLAYER: u8 = 7;
pub const ID_USER_AMOUNT: u8 = 8;
pub const ID_SUMMON_ASTEROID: u8 = 9;
pub const ID_USER_DATA: u8 = 10;
pub const ID_REJECT: u8 = 11;
pub const ID_ACCEPT: u8 = 12;
pub const ID_PLAYER_DAMAGED: u8 = 13;

/// A message exchanged between the host and the players.
///
/// The four coordinates of `SummonAsteroid` travel as the bit patterns of
/// IEEE-754 single-precision numbers (`f32::to_bits`), which is exactly what
/// goes on the wire.
#[derive(Debug, PartialEq)]
pub enum NetworkMessage {
    StartGame,
    Ready { is_ready: u8 },
    Alive,
    ShareSeed { spawn_seed: u32, destroy_seed: u32 },
    AsteroidHit { size: u8 },
    Connect { name: String },
    TargetPlayer { id: u32 },
    AttackPlayer { amount: u8 },
    UserAmount { amount: u8 },
    SummonAsteroid { x: u32, y: u32, direction: u32, speed: u32, size: u8 },
    UserData { id: u32, score: u32, health: u8, target_player: u32, name: String },
    Reject { reason: u8 },
    Accept { id: u32 },
    PlayerDamaged,
}

/// The mathematical content of a `NetworkMessage`: names as character sequences.
pub enum Message {
    StartGame,
    Ready { is_ready: u8 },
    Alive,
    ShareSeed { spawn_seed: u32, destroy_seed: u32 },
    AsteroidHit { size: u8 },
    Connect { name: Seq<char> },
    TargetPlayer { id: u32 },
    AttackPlayer { amount: u8 },
    UserAmount { amount: u8 },
    SummonAsteroid { x: u32, y: u32, direction: u32, speed: u32, size: u8 },
    UserData { id: u32, score: u32, health: u8, target_player: u32, name: Seq<char> },
    Reject { reason: u8 },
    Accept { id: u32 },
    PlayerDamaged,
}

impl View for NetworkMessage {
    type V = Message;

    open spec fn view(&self) -> Message {
        match self {
            NetworkMessage::StartGame => Message::StartGame,
            NetworkMessage::Ready { is_ready } => Message::Ready { is_ready: *is_ready },
            NetworkMessage::Alive => Message::Alive,
            NetworkMessage::ShareSeed { spawn_seed, destroy_seed } => Message::ShareSeed {
                spawn_seed: *spawn_seed,
                destroy_seed: *destroy_seed,
            },
            NetworkMessage::AsteroidHit { size } => Message::AsteroidHit { size: *size },
            NetworkMessage::Connect { name } => Message::Connect { name: name@ },
            NetworkMessage::TargetPlayer { id } => Message::TargetPlayer { id: *id },
            NetworkMessage::AttackPlayer { amount } => Message::AttackPlayer { amount: *amount },
            NetworkMessage::UserAmount { amount } => Message::UserAmount { amount: *amount },
            NetworkMessage::SummonAsteroid { x, y, direction, speed, size } =>
                Message::SummonAsteroid {
                x: *x,
                y: *y,
                direction: *direction,
                speed: *speed,
                size: *size,
            },
            NetworkMessage::UserData { id, score, health, target_player, name } =>
                Message::UserData {
                id: *id,
                score: *score,
                health: *health,
                target_player: *target_player,
                name: name@,
            },
            NetworkMessage::Reject { reason } => Message::Reject { reason: *reason },
            NetworkMessage::Accept { id } => Message::Accept { id: *id },
            NetworkMessage::PlayerDamaged => Message::PlayerDamaged,
        }
    }
}

/// The four big-endian bytes of `x`, most significant first.
pub open spec fn be_bytes(x: u32) -> Seq<u8> {
    seq![(x >> 24u32) as u8, (x >> 16u32) as u8, (x >> 8u32) as u8, x as u8]
}

/// The number whose big-endian bytes are `b0 b1 b2 b3`.
pub open spec fn be_value(b0: u8, b1: u8, b2: u8, b3: u8) -> u32 {
    ((b0 as u32) << 24u32) | ((b1 as u32) << 16u32) | ((b2 as u32) << 8u32) | (b3 as u32)
}

/// The big-endian number held by the four bytes of `b` from position `at`.
pub open spec fn read_be(b: Seq<u8>, at: int) -> u32 {
    be_value(b[at], b[at + 1], b[at + 2], b[at + 3])
}

/// The bytes of a message, as `to_bytes` writes them.
pub open spec fn encode(m: Message) -> Seq<u8> {
    match m {
        Message::StartGame => seq![ID_START_GAME],
        Message::Ready { is_ready } => seq![ID_READY, is_ready],
        Message::Alive => seq![ID_ALIVE],
        Message::ShareSeed { spawn_seed, destroy_seed } => seq![ID_SHARE_SEED] + be_bytes(
            spawn_seed,
        ) + be_bytes(destroy_seed),
        Message::AsteroidHit { size } => seq![ID_ASTEROID_HIT, size],
        Message::Connect { name } => seq![ID_CONNECT] + encode_utf8(name),
        Message::TargetPlayer { id } => seq![ID_TARGET_PLAYER] + be_bytes(id),
        Message::AttackPlayer { amount } => seq![ID_ATTACK_PLAYER, amount],
        Message::UserAmount { amount } => seq![ID_USER_AMOUNT, amount],
        Message::SummonAsteroid { x, y, direction, speed, size } => seq![ID_SUMMON_ASTEROID]
            + be_bytes(x) + be_bytes(y) + be_bytes(direction) + be_bytes(speed) + seq![size],
        Message::UserData { id, score, health, target_player, name } => seq![ID_USER_DATA]
            + be_bytes(id) + be_bytes(score) + seq![health] + be_bytes(target_player)
            + encode_utf8(name),
        Message::Reject { reason } => seq![ID_REJECT, reason],
        Message::Accept { id } => seq![ID_ACCEPT] + be_bytes(id),
        Message::PlayerDamaged => seq![ID_PLAYER_DAMAGED],
    }
}

/// The message that a datagram holds, as `from_bytes` reads it: `None` for
/// an empty datagram, an unknown id, a datagram shorter than its message's
/// fixed part (a `Connect` needs at least one byte of name), or a name that
/// is not UTF-8. Bytes after a fixed-size message are ignored.
pub open spec fn decode(b: Seq<u8>) -> Option<Message> {
    if b.len() == 0 {
        None
    } else {
        let id = b[0];
        if id == ID_START_GAME {
            Some(Message::StartGame)
        } else if id == ID_READY && b.len() >= 2 {
            Some(Message::Ready { is_ready: b[1] })
        } else if id == ID_ALIVE {
            Some(Message::Alive)
        } else if id == ID_SHARE_SEED && b.len() >= 9 {
            Some(Message::ShareSeed { spawn_seed: read_be(b, 1), destroy_seed: read_be(b, 5) })
        } else if id == ID_ASTEROID_HIT && b.len() >= 2 {
            Some(Message::AsteroidHit { size: b[1] })
        } else if id == ID_CONNECT && b.len() >= 2 {
            let rest = b.subrange(1, b.len() as int);
            if valid_utf8(rest) {
                Some(Message::Connect { name: decode_utf8(rest) })
            } else {
                None
            }
        } else if id == ID_TARGET_PLAYER && b.len() >= 5 {
            Some(Message::TargetPlayer { id: read_be(b, 1) })
        } else if id == ID_ATTACK_PLAYER && b.len() >= 2 {
            Some(Message::AttackPlayer { amount: b[1] })
        } else if id == ID_USER_AMOUNT && b.len() >= 2 {
            Some(Message::UserAmount { amount: b[1] })
        } else if id == ID_SUMMON_ASTEROID && b.len() >= 18 {
            Some(
                Message::SummonAsteroid {
                    x: read_be(b, 1),
                    y: read_be(b, 5),
                    direction: read_be(b, 9),
                    speed: read_be(b, 13),
                    size: b[17],
                },
            )
        } else if id == ID_USER_DATA && b.len() >= 14 {
            let rest = b.subrange(14, b.len() as int);
            if valid_utf8(rest) {
                Some(
                    Message::UserData {
                        id: read_be(b, 1),
                        score: read_be(b, 5),
                        health: b[9],
                        target_player: read_be(b, 10),
                        name: decode_utf8(rest),
                    },
                )
            } else {
                None
            }
        } else if id == ID_REJECT && b.len() >= 2 {
            Some(Message::Reject { reason: b[1] })
        } else if id == ID_ACCEPT && b.len() >= 5 {
            Some(Message::Accept { id: read_be(b, 1) })
        } else if id == ID_PLAYER_DAMAGED {
            Some(Message::PlayerDamaged)
        } else {
            None
        }
    }
}


/// A message is encodable and decodable back when it is not a `Connect` with
/// an empty name (such a datagram is a lone id byte, which `decode` refuses).
pub open spec fn round_trips(m: Message) -> bool {
    m matches Message::Connect { name } ==> name.len() > 0
}

/// Every datagram starts with the id of its message, a number from 0 to 13.
pub proof fn lemma_leading_id(m: Message)
    ensures
        encode(m).len() >= 1,
        encode(m)[0] <= ID_PLAYER_DAMAGED,
        encode(m)[0] == ID_CONNECT <==> m is Connect,
        encode(m)[0] == ID_USER_DATA <==> m is UserData,
{
}

/// Decoding the bytes of a message gives the message back.
pub proof fn lemma_decode_encode(m: Message)
    requires
        round_trips(m),
    ensures
        decode(encode(m)) == Some(m),
{
    let b = encode(m);
    match m {
        Message::ShareSeed { spawn_seed, destroy_seed } => {
            lemma_be_bytes_value(spawn_seed);
            lemma_be_bytes_value(destroy_seed);
        },
        Message::Connect { name } => {
            let rest = b.subrange(1, b.len() as int);
            assert(rest =~= encode_utf8(name));
            encode_utf8_valid_utf8(name);
            encode_utf8_decode_utf8(name);
            assert(name.len() > 0);
            assert(encode_utf8(name).len() > 0) by {
                if encode_utf8(name).len() == 0 {
                    assert(decode_utf8(encode_utf8(name)) =~= Seq::<char>::empty());
                }
            }
        },
        Message::TargetPlayer { id } => {
            lemma_be_bytes_value(id);
        },
        Message::SummonAsteroid { x, y, direction, speed, size } => {
            lemma_be_bytes_value(x);
            lemma_be_bytes_value(y);
            lemma_be_bytes_value(direction);
            lemma_be_bytes_value(speed);
        },
        Message::UserData { id, score, health, target_player, name } => {
            lemma_be_bytes_value(id);
            lemma_be_bytes_value(score);
            lemma_be_bytes_value(target_player);
            let rest = b.subrange(14, b.len() as int);
            assert(rest =~= encode_utf8(name));
            encode_utf8_valid_utf8(name);
            encode_utf8_decode_utf8(name);
        },
        Message::Accept { id } => {
            lemma_be_bytes_value(id);
        },
        _ => {},
    }
}

/// What a datagram decodes to is written back as the datagram's first bytes;
/// a message with a name is written back as the whole datagram.
pub proof fn lemma_encode_decode(b: Seq<u8>)
    requires
        decode(b) is Some,
    ensures
        encode(decode(b).unwrap()).len() <= b.len(),
        encode(decode(b).unwrap()) == b.subrange(0, encode(decode(b).unwrap()).len() as int),
        (decode(b).unwrap() is Connect || decode(b).unwrap() is UserData) ==> encode(
            decode(b).unwrap(),
        ) == b,
{
    let m = decode(b).unwrap();
    match m {
        Message::ShareSeed { spawn_seed, destroy_seed } => {
            lemma_be_value_bytes(b[1], b[2], b[3], b[4]);
            lemma_be_value_bytes(b[5], b[6], b[7], b[8]);
            assert(encode(m) =~= b.subrange(0, 9));
        },
        Message::Connect { name } => {
            let rest = b.subrange(1, b.len() as int);
            decode_utf8_encode_utf8(rest);
            assert(encode(m) =~= b);
        },
        Message::TargetPlayer { id } => {
            lemma_be_value_bytes(b[1], b[2], b[3], b[4]);
            assert(encode(m) =~= b.subrange(0, 5));
        },
        Message::SummonAsteroid { x, y, direction, speed, size } => {
            lemma_be_value_bytes(b[1], b[2], b[3], b[4]);
            lemma_be_value_bytes(b[5], b[6], b[7], b[8]);
            lemma_be_value_bytes(b[9], b[10], b[11], b[12]);
            lemma_be_value_bytes(b[13], b[14], b[15], b[16]);
            assert(encode(m) =~= b.subrange(0, 18));
        },
        Message::UserData { id, score, health, target_player, name } => {
            lemma_be_value_bytes(b[1], b[2], b[3], b[4]);
            lemma_be_value_bytes(b[5], b[6], b[7], b[8]);
            lemma_be_value_bytes(b[10], b[11], b[12], b[13]);
            let rest = b.subrange(14, b.len() as int);
            decode_utf8_encode_utf8(rest);
            assert(encode(m) =~= b);
        },
        Message::Accept { id } => {
            lemma_be_value_bytes(b[1], b[2], b[3], b[4]);
            assert(encode(m) =~= b.subrange(0, 5));
        },
        Message::StartGame | Message::Alive | Message::PlayerDamaged => {
            assert(encode(m) =~= b.subrange(0, 1));
        },
        _ => {
            assert(encode(m) =~= b.subrange(0, 2));
        },
    }
}

proof fn lemma_be_bytes_value(x: u32)
    ensures
        be_value((x >> 24u32) as u8, (x >> 16u32) as u8, (x >> 8u32) as u8, x as u8) == x,
{
    assert(((((x >> 24u32) as u8) as u32) << 24u32) | ((((x >> 16u32) as u8) as u32) << 16u32)
        | ((((x >> 8u32) as u8) as u32) << 8u32) | ((x as u8) as u32) == x) by (bit_vector);
}

proof fn lemma_be_value_bytes(b0: u8, b1: u8, b2: u8, b3: u8)
    ensures
        be_bytes(be_value(b0, b1, b2, b3)) == seq![b0, b1, b2, b3],
{
    let v = be_value(b0, b1, b2, b3);
    assert(((((b0 as u32) << 24u32) | ((b1 as u32) << 16u32) | ((b2 as u32) << 8u32) | (
    b3 as u32)) >> 24u32) as u8 == b0) by (bit_vector);
    assert(((((b0 as u32) << 24u32) | ((b1 as u32) << 16u32) | ((b2 as u32) << 8u32) | (
    b3 as u32)) >> 16u32) as u8 == b1) by (bit_vector);
    assert(((((b0 as u32) << 24u32) | ((b1 as u32) << 16u32) | ((b2 as u32) << 8u32) | (
    b3 as u32)) >> 8u32) as u8 == b2) by (bit_vector);
    assert((((b0 as u32) << 24u32) | ((b1 as u32) << 16u32) | ((b2 as u32) << 8u32) | (
    b3 as u32)) as u8 == b3) by (bit_vector);
    assert(be_bytes(v) =~= seq![b0, b1, b2, b3]);
}

/// Appends the big-endian bytes of `x`.
fn push_be(out: &mut Vec<u8>, x: u32)
    ensures
        final(out)@ == old(out)@ + be_bytes(x),
{
    out.push((x >> 24u32) as u8);
    out.push((x >> 16u32) as u8);
    out.push((x >> 8u32) as u8);
    out.push(x as u8);
    assert(final(out)@ =~= old(out)@ + be_bytes(x));
}

/// Appends the UTF-8 bytes of `s`.
fn push_utf8(out: &mut Vec<u8>, s: &String)
    ensures
        final(out)@ == old(out)@ + encode_utf8(s@),
{
    let bytes = s.as_str().as_bytes();
    let ghost start = out@;
    let mut i: usize = 0;
    while i < bytes.len()
        invariant
            0 <= i <= bytes@.len(),
            bytes@ == encode_utf8(s@),
            out@ == start + bytes@.subrange(0, i as int),
        decreases bytes@.len() - i,
    {
        out.push(bytes[i]);
        i = i + 1;
        assert(out@ =~= start + bytes@.subrange(0, i as int));
    }
    assert(bytes@.subrange(0, bytes@.len() as int) =~= bytes@);
}

/// Reads the big-endian number at `at`.
fn read_be_at(bytes: &[u8], at: usize) -> (v: u32)
    requires
        at + 4 <= bytes@.len(),
    ensures
        v == read_be(bytes@, at as int),
{
    ((bytes[at] as u32) << 24u32) | ((bytes[at + 1] as u32) << 16u32) | ((bytes[at + 2] as u32)
        << 8u32) | (bytes[at + 3] as u32)
}

/// `String::from_utf8`: the string that `bytes` encode, if they are UTF-8.
#[verifier::external_body]
fn string_from_utf8(bytes: Vec<u8>) -> (res: Option<String>)
    ensures
        res is Some <==> valid_utf8(bytes@),
        res matches Some(s) ==> s@ == decode_utf8(bytes@),
{
    String::from_utf8(bytes).ok()
}

/// The string held by `bytes` from position `from` to the end, if it is UTF-8.
fn utf8_tail(bytes: &[u8], from: usize) -> (res: Option<String>)
    requires
        from <= bytes@.len(),
    ensures
        res is Some <==> valid_utf8(bytes@.subrange(from as int, bytes@.len() as int)),
        res matches Some(s) ==> s@ == decode_utf8(bytes@.subrange(from as int, bytes@.len() as int)),
{
    let mut rest: Vec<u8> = Vec::new();
    let mut i: usize = from;
    while i < bytes.len()
        invariant
            from <= i <= bytes@.len(),
            rest@ == bytes@.subrange(from as int, i as int),
        decreases bytes@.len() - i,
    {
        rest.push(bytes[i]);
        i = i + 1;
        assert(rest@ =~= bytes@.subrange(from as int, i as int));
    }
    string_from_utf8(rest)
}

impl NetworkMessage {

    /// A copy of this message.
    pub fn duplicate(&self) -> (m: NetworkMessage)
        ensures
            m@ == self@,
    {
        match self {
            NetworkMessage::StartGame => NetworkMessage::StartGame,
            NetworkMessage::Ready { is_ready } => NetworkMessage::Ready { is_ready: *is_ready },
            NetworkMessage::Alive => NetworkMessage::Alive,
            NetworkMessage::ShareSeed { spawn_seed, destroy_seed } => NetworkMessage::ShareSeed {
                spawn_seed: *spawn_seed,
                destroy_seed: *destroy_seed,
            },
            NetworkMessage::AsteroidHit { size } => NetworkMessage::AsteroidHit { size: *size },
            NetworkMessage::Connect { name } => NetworkMessage::Connect { name: name.clone() },
            NetworkMessage::TargetPlayer { id } => NetworkMessage::TargetPlayer { id: *id },
            NetworkMessage::AttackPlayer { amount } => NetworkMessage::AttackPlayer {
                amount: *amount,
            },
            NetworkMessage::UserAmount { amount } => NetworkMessage::UserAmount { amount: *amount },
            NetworkMessage::SummonAsteroid { x, y, direction, speed, size } =>
                NetworkMessage::SummonAsteroid {
                x: *x,
                y: *y,
                direction: *direction,
                speed: *speed,
                size: *size,
            },
            NetworkMessage::UserData { id, score, health, target_player, name } =>
                NetworkMessage::UserData {
                id: *id,
                score: *score,
                health: *health,
                target_player: *target_player,
                name: name.clone(),
            },
            NetworkMessage::Reject { reason } => NetworkMessage::Reject { reason: *reason },
            NetworkMessage::Accept { id } => NetworkMessage::Accept { id: *id },
            NetworkMessage::PlayerDamaged => NetworkMessage::PlayerDamaged,
        }
    }
    /// The datagram that carries this message.
    pub fn to_bytes(&self) -> (bytes: Vec<u8>)
        ensures
            bytes@ == encode(self@),
    {
        match self {
            NetworkMessage::StartGame => {
                let bytes = vec![ID_START_GAME];
                assert(bytes@ =~= encode(self@));
                bytes
            },
            NetworkMessage::Ready { is_ready } => {
                let bytes = vec![ID_READY, *is_ready];
                assert(bytes@ =~= encode(self@));
                bytes
            },
            NetworkMessage::Alive => {
                let bytes = vec![ID_ALIVE];
                assert(bytes@ =~= encode(self@));
                bytes
            },
            NetworkMessage::ShareSeed { spawn_seed, destroy_seed } => {
                let mut bytes = vec![ID_SHARE_SEED];
                push_be(&mut bytes, *spawn_seed);
                push_be(&mut bytes, *destroy_seed);
                assert(bytes@ =~= encode(self@));
                bytes
            },
            NetworkMessage::AsteroidHit { size } => {
                let bytes = vec![ID_ASTEROID_HIT, *size];
                assert(bytes@ =~= encode(self@));
                bytes
            },
            NetworkMessage::Connect { name } => {
                let mut bytes = vec![ID_CONNECT];
                push_utf8(&mut bytes, name);
                assert(bytes@ =~= encode(self@));
                bytes
            },
            NetworkMessage::TargetPlayer { id } => {
                let mut bytes = vec![ID_TARGET_PLAYER];
                push_be(&mut bytes, *id);
                assert(bytes@ =~= encode(self@));
                bytes
            },
            NetworkMessage::AttackPlayer { amount } => {
                let bytes = vec![ID_ATTACK_PLAYER, *amount];
                assert(bytes@ =~= encode(self@));
                bytes
            },
            NetworkMessage::UserAmount { amount } => {
                let bytes = vec![ID_USER_AMOUNT, *amount];
                assert(bytes@ =~= encode(self@));
                bytes
            },
            NetworkMessage::SummonAsteroid { x, y, direction, speed, size } => {
                let mut bytes = vec![ID_SUMMON_ASTEROID];
                push_be(&mut bytes, *x);
                push_be(&mut bytes, *y);
                push_be(&mut bytes, *direction);
                push_be(&mut bytes, *speed);
                bytes.push(*size);
                assert(bytes@ =~= encode(self@));
                bytes
            },
            NetworkMessage::UserData { id, score, health, target_player, name } => {
                let mut bytes = vec![ID_USER_DATA];
                push_be(&mut bytes, *id);
                push_be(&mut bytes, *score);
                bytes.push(*health);
                push_be(&mut bytes, *target_player);
                push_utf8(&mut bytes, name);
                assert(bytes@ =~= encode(self@));
                bytes
            },
            NetworkMessage::Reject { reason } => {
                let bytes = vec![ID_REJECT, *reason];
                assert(bytes@ =~= encode(self@));
                bytes
            },
            NetworkMessage::Accept { id } => {
                let mut bytes = vec![ID_ACCEPT];
                push_be(&mut bytes, *id);
                assert(bytes@ =~= encode(self@));
                bytes
            },
            NetworkMessage::PlayerDamaged => {
                let bytes = vec![ID_PLAYER_DAMAGED];
                assert(bytes@ =~= encode(self@));
                bytes
            },
        }
    }

    /// The message that a datagram carries, or `None` where `decode` has none.
    pub fn from_bytes(bytes: &[u8]) -> (res: Option<NetworkMessage>)
        ensures
            match res {
                Some(m) => decode(bytes@) == Some(m@),
                None => decode(bytes@) is None,
            },
    {
        let len = bytes.len();
        if len == 0 {
            return None;
        }
        let id = bytes[0];
        if id == ID_START_GAME {
            Some(NetworkMessage::StartGame)
        } else if id == ID_READY && len >= 2 {
            Some(NetworkMessage::Ready { is_ready: bytes[1] })
        } else if id == ID_ALIVE {
            Some(NetworkMessage::Alive)
        } else if id == ID_SHARE_SEED && len >= 9 {
            let spawn_seed = read_be_at(bytes, 1);
            let destroy_seed = read_be_at(bytes, 5);
            Some(NetworkMessage::ShareSeed { spawn_seed, destroy_seed })
        } else if id == ID_ASTEROID_HIT && len >= 2 {
            Some(NetworkMessage::AsteroidHit { size: bytes[1] })
        } else if id == ID_CONNECT && len >= 2 {
            match utf8_tail(bytes, 1) {
                Some(name) => Some(NetworkMessage::Connect { name }),
                None => None,
            }
        } else if id == ID_TARGET_PLAYER && len >= 5 {
            Some(NetworkMessage::TargetPlayer { id: read_be_at(bytes, 1) })
        } else if id == ID_ATTACK_PLAYER && len >= 2 {
            Some(NetworkMessage::AttackPlayer { amount: bytes[1] })
        } else if id == ID_USER_AMOUNT && len >= 2 {
            Some(NetworkMessage::UserAmount { amount: bytes[1] })
        } else if id == ID_SUMMON_ASTEROID && len >= 18 {
            let x = read_be_at(bytes, 1);
            let y = read_be_at(bytes, 5);
            let direction = read_be_at(bytes, 9);
            let speed = read_be_at(bytes, 13);
            Some(NetworkMessage::SummonAsteroid { x, y, direction, speed, size: bytes[17] })
        } else if id == ID_USER_DATA && len >= 14 {
            let uid = read_be_at(bytes, 1);
            let score = read_be_at(bytes, 5);
            let target_player = read_be_at(bytes, 10);
            match utf8_tail(bytes, 14) {
                Some(name) => Some(
                    NetworkMessage::UserData {
                        id: uid,
                        score,
                        health: bytes[9],
                        target_player,
                        name,
                    },
                ),
                None => None,
            }
        } else if id == ID_REJECT && len >= 2 {
            Some(NetworkMessage::Reject { reason: bytes[1] })
        } else if id == ID_ACCEPT && len >= 5 {
            Some(NetworkMessage::Accept { id: read_be_at(bytes, 1) })
        } else if id == ID_PLAYER_DAMAGED {
            Some(NetworkMessage::PlayerDamaged)
        } else {
            None
        }
    }
}

} // verus!
