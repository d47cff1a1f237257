use masteroids::address::{bind_address, preferred_address, PeerAddr, HOST_PORT, LOCALHOST_V4};
use masteroids::protocol::NetworkMessage;

fn round_trip(msg: NetworkMessage) {
    let bytes = msg.to_bytes();
    assert_eq!(NetworkMessage::from_bytes(&bytes), Some(msg));
}

#[test]
fn fixed_messages_have_documented_bytes() {
    assert_eq!(NetworkMessage::StartGame.to_bytes(), vec![0]);
    assert_eq!(NetworkMessage::Ready { is_ready: 1 }.to_bytes(), vec![1, 1]);
    assert_eq!(NetworkMessage::Alive.to_bytes(), vec![2]);
    assert_eq!(
        NetworkMessage::ShareSeed { spawn_seed: 0x01020304, destroy_seed: 0xA0B0C0D0 }.to_bytes(),
        vec![3, 1, 2, 3, 4, 0xA0, 0xB0, 0xC0, 0xD0]
    );
    assert_eq!(NetworkMessage::AsteroidHit { size: 3 }.to_bytes(), vec![4, 3]);
    assert_eq!(NetworkMessage::TargetPlayer { id: 258 }.to_bytes(), vec![6, 0, 0, 1, 2]);
    assert_eq!(NetworkMessage::AttackPlayer { amount: 7 }.to_bytes(), vec![7, 7]);
    assert_eq!(NetworkMessage::UserAmount { amount: 5 }.to_bytes(), vec![8, 5]);
    assert_eq!(NetworkMessage::Reject { reason: 1 }.to_bytes(), vec![11, 1]);
    assert_eq!(NetworkMessage::Accept { id: 1 }.to_bytes(), vec![12, 0, 0, 0, 1]);
    assert_eq!(NetworkMessage::PlayerDamaged.to_bytes(), vec![13]);
}

#[test]
fn connect_carries_utf8_name() {
    let msg = NetworkMessage::Connect { name: "héllo".to_string() };
    let mut expected = vec![5u8];
    expected.extend_from_slice("héllo".as_bytes());
    assert_eq!(msg.to_bytes(), expected);
    round_trip(msg);
}

#[test]
fn summon_asteroid_carries_float_bits() {
    let msg = NetworkMessage::SummonAsteroid {
        x: 12.5f32.to_bits(),
        y: 99.0f32.to_bits(),
        direction: 270.0f32.to_bits(),
        speed: 3.25f32.to_bits(),
        size: 2,
    };
    let bytes = msg.to_bytes();
    assert_eq!(bytes.len(), 18);
    assert_eq!(bytes[0], 9);
    assert_eq!(&bytes[1..5], &12.5f32.to_be_bytes());
    assert_eq!(&bytes[13..17], &3.25f32.to_be_bytes());
    assert_eq!(bytes[17], 2);
    round_trip(msg);
}

#[test]
fn user_data_layout() {
    let msg = NetworkMessage::UserData {
        id: 2,
        score: 300,
        health: 3,
        target_player: 1,
        name: "bob".to_string(),
    };
    assert_eq!(
        msg.to_bytes(),
        vec![10, 0, 0, 0, 2, 0, 0, 1, 44, 3, 0, 0, 0, 1, b'b', b'o', b'b']
    );
    round_trip(msg);
}

#[test]
fn every_message_round_trips() {
    round_trip(NetworkMessage::StartGame);
    round_trip(NetworkMessage::Ready { is_ready: 0 });
    round_trip(NetworkMessage::Alive);
    round_trip(NetworkMessage::ShareSeed { spawn_seed: u32::MAX, destroy_seed: 7 });
    round_trip(NetworkMessage::AsteroidHit { size: 255 });
    round_trip(NetworkMessage::Connect { name: "x".to_string() });
    round_trip(NetworkMessage::TargetPlayer { id: 42 });
    round_trip(NetworkMessage::AttackPlayer { amount: 1 });
    round_trip(NetworkMessage::UserAmount { amount: 9 });
    round_trip(NetworkMessage::UserData {
        id: 1,
        score: 0,
        health: 0,
        target_player: 0,
        name: String::new(),
    });
    round_trip(NetworkMessage::Reject { reason: 1 });
    round_trip(NetworkMessage::Accept { id: 123456 });
    round_trip(NetworkMessage::PlayerDamaged);
}

#[test]
fn connect_with_empty_name_is_not_readable() {
    let bytes = NetworkMessage::Connect { name: String::new() }.to_bytes();
    assert_eq!(bytes, vec![5]);
    assert_eq!(NetworkMessage::from_bytes(&bytes), None);
}

#[test]
fn malformed_datagrams_are_refused() {
    assert_eq!(NetworkMessage::from_bytes(&[]), None);
    assert_eq!(NetworkMessage::from_bytes(&[14]), None);
    assert_eq!(NetworkMessage::from_bytes(&[255, 1, 2]), None);
    assert_eq!(NetworkMessage::from_bytes(&[1]), None);
    assert_eq!(NetworkMessage::from_bytes(&[3, 1, 2, 3, 4, 5, 6, 7]), None);
    assert_eq!(NetworkMessage::from_bytes(&[6, 0, 0, 1]), None);
    assert_eq!(NetworkMessage::from_bytes(&[9; 17]), None);
    assert_eq!(NetworkMessage::from_bytes(&[10, 0, 0, 0, 1, 0, 0, 0, 1, 3, 0, 0, 0]), None);
    assert_eq!(NetworkMessage::from_bytes(&[12, 0, 0]), None);
}

#[test]
fn invalid_utf8_name_is_refused() {
    assert_eq!(NetworkMessage::from_bytes(&[5, 0xff, 0xfe]), None);
    assert_eq!(
        NetworkMessage::from_bytes(&[10, 0, 0, 0, 1, 0, 0, 0, 1, 3, 0, 0, 0, 0, 0xc3]),
        None
    );
}

#[test]
fn trailing_bytes_after_fixed_message_are_ignored() {
    assert_eq!(NetworkMessage::from_bytes(&[0, 9, 9]), Some(NetworkMessage::StartGame));
    assert_eq!(
        NetworkMessage::from_bytes(&[4, 2, 77]),
        Some(NetworkMessage::AsteroidHit { size: 2 })
    );
    assert_eq!(
        NetworkMessage::from_bytes(&[12, 0, 0, 0, 7, 1]),
        Some(NetworkMessage::Accept { id: 7 })
    );
}

#[test]
fn decoding_reads_utf8_name_from_bytes() {
    let bytes = [5u8, b'a', 0xc3, 0xa9];
    assert_eq!(
        NetworkMessage::from_bytes(&bytes),
        Some(NetworkMessage::Connect { name: "aé".to_string() })
    );
}

#[test]
fn duplicate_copies_message() {
    let msg = NetworkMessage::UserData {
        id: 3,
        score: 4,
        health: 2,
        target_player: 9,
        name: "z".to_string(),
    };
    assert_eq!(msg.duplicate(), msg);
}

#[test]
fn resolver_prefers_ipv4() {
    let v6 = PeerAddr::V6 { ip6: 1, port: 5, flowinfo: 0, scope_id: 0 };
    let v4a = PeerAddr::V4 { ip: 10, port: 1 };
    let v4b = PeerAddr::V4 { ip: 11, port: 2 };
    assert_eq!(preferred_address(&vec![v6, v4a, v4b]), Some(v4a));
    assert_eq!(preferred_address(&vec![v6]), Some(v6));
    assert_eq!(preferred_address(&vec![]), None);
}

#[test]
fn bind_falls_back_to_localhost() {
    assert_eq!(bind_address(None), PeerAddr::V4 { ip: LOCALHOST_V4, port: HOST_PORT });
    let a = PeerAddr::V4 { ip: 1, port: 2 };
    assert_eq!(bind_address(Some(a)), a);
}
