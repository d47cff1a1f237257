use masteroids::game::GameEvent;
use masteroids::player::{PlayerReaction, PlayerSession};
use masteroids::protocol::NetworkMessage;
use masteroids::screens::ScreenCommand;

fn session() -> PlayerSession {
    PlayerSession::new("example.org:42069".to_string(), "ann".to_string())
}

#[test]
fn connects_with_username_when_a_host_is_given() {
    let s = session();
    assert_eq!(s.connect_message(), Some(NetworkMessage::Connect { name: "ann".to_string() }));
    let single = PlayerSession::new(String::new(), "ann".to_string());
    assert_eq!(single.connect_message(), None);
}

#[test]
fn ready_button_toggles() {
    let mut s = session();
    assert_eq!(s.toggle_ready(), NetworkMessage::Ready { is_ready: 1 });
    assert!(s.is_ready());
    assert_eq!(s.toggle_ready(), NetworkMessage::Ready { is_ready: 0 });
    assert!(!s.is_ready());
}

#[test]
fn host_messages_update_the_session() {
    let mut s = session();
    assert_eq!(s.handle_message(&NetworkMessage::Accept { id: 2 }), PlayerReaction::Nothing);
    assert_eq!(s.my_id(), 2);
    assert_eq!(s.handle_message(&NetworkMessage::UserAmount { amount: 3 }), PlayerReaction::Nothing);
    assert_eq!(s.user_amount(), 3);
    assert_eq!(s.handle_message(&NetworkMessage::StartGame), PlayerReaction::StartGame);
    assert_eq!(s.handle_message(&NetworkMessage::Alive), PlayerReaction::ReplyAlive);
    assert_eq!(
        s.handle_message(&NetworkMessage::Reject { reason: 1 }),
        PlayerReaction::ReturnToStart
    );
    assert_eq!(s.handle_message(&NetworkMessage::PlayerDamaged), PlayerReaction::Nothing);
    assert_eq!(
        s.handle_message(&NetworkMessage::SummonAsteroid { x: 1, y: 2, direction: 3, speed: 4, size: 2 }),
        PlayerReaction::SummonAsteroid { x: 1, y: 2, direction: 3, speed: 4, size: 2 }
    );
}

#[test]
fn user_data_is_recorded_and_updated() {
    let mut s = session();
    s.handle_message(&NetworkMessage::Accept { id: 2 });
    s.handle_message(&NetworkMessage::UserData {
        id: 1,
        score: 4,
        health: 3,
        target_player: 2,
        name: "bob".to_string(),
    });
    assert_eq!(s.other_players().len(), 1);
    let p = &s.other_players()[0];
    assert_eq!(p.id(), 1);
    assert_eq!(p.score(), 4);
    assert_eq!(p.name(), "bob");
    // A new player is not yet marked as targeting us.
    assert!(!p.targets_you());
    s.handle_message(&NetworkMessage::UserData {
        id: 1,
        score: 5,
        health: 2,
        target_player: 2,
        name: "bobby".to_string(),
    });
    assert_eq!(s.other_players().len(), 1);
    let p = &s.other_players()[0];
    assert_eq!(p.score(), 5);
    assert_eq!(p.health(), 2);
    assert_eq!(p.name(), "bobby");
    assert!(p.targets_you());
}

#[test]
fn game_events_become_reports() {
    let s = session();
    let (cmd, msg) = s.handle_game_event(&GameEvent::Damage { health: 2 });
    assert_eq!(cmd, None);
    assert_eq!(msg, Some(NetworkMessage::PlayerDamaged));
    let (cmd, msg) = s.handle_game_event(&GameEvent::Damage { health: 0 });
    assert_eq!(cmd, Some(ScreenCommand::Start));
    assert_eq!(msg, Some(NetworkMessage::PlayerDamaged));
    let (cmd, msg) = s.handle_game_event(&GameEvent::AsteroidDestroyed { size: 3 });
    assert_eq!(cmd, None);
    assert_eq!(msg, Some(NetworkMessage::AsteroidHit { size: 3 }));
    let (cmd, msg) = s.handle_game_event(&GameEvent::PlayerTarget { id: 1 });
    assert_eq!(cmd, None);
    assert_eq!(msg, None);
}
