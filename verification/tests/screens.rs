use masteroids::dice::Dice;
use masteroids::game::{GameEvent, GameState};
use masteroids::pressure::Pressure;
use masteroids::screens::{command_after, ScreenCommand, Settings, Start};

#[test]
fn start_screen_begins_empty_and_plays_with_its_fields() {
    let mut s = Start::new();
    assert_eq!(
        s.play_command(),
        ScreenCommand::Play { hostname: String::new(), username: String::new() }
    );
    {
        let (host, user) = s.fields_mut();
        host.push_str("localhost");
        user.push_str("ann");
    }
    assert_eq!(
        s.play_command(),
        ScreenCommand::Play { hostname: "localhost".to_string(), username: "ann".to_string() }
    );
}

#[test]
fn settings_screen_exists() {
    let _s = Settings::new();
}

#[test]
fn game_ends_only_when_health_runs_out() {
    assert_eq!(command_after(&GameEvent::Damage { health: 0 }), Some(ScreenCommand::Start));
    assert_eq!(command_after(&GameEvent::Damage { health: 1 }), None);
    assert_eq!(command_after(&GameEvent::AsteroidDestroyed { size: 0 }), None);
    assert_eq!(command_after(&GameEvent::PlayerTarget { id: 0 }), None);
}

#[test]
fn summoned_sizes_are_one_to_three() {
    let mut d = Dice::new();
    let mut seen = [false; 4];
    for _ in 0..2000 {
        let s = d.asteroid_size();
        assert!((1..=3).contains(&s));
        seen[s as usize] = true;
    }
    assert!(seen[1] && seen[2] && seen[3]);
}

#[test]
fn pressure_spawns_only_when_on_and_active() {
    let mut p = Pressure::new();
    assert!(p.is_enabled());
    p.on_activate();
    assert_eq!(p.update(GameState::Waiting), None);
    // The timer waits three seconds.
    assert_eq!(p.update(GameState::Active), None);
    p.toggle();
    assert!(!p.is_enabled());
    assert_eq!(p.update(GameState::Active), None);
}

#[test]
fn pressure_spawns_once_its_wait_has_passed() {
    let mut p = Pressure::new();
    p.on_activate();
    assert_eq!(p.update(GameState::Active), None);
    let start = std::time::Instant::now();
    while start.elapsed() < std::time::Duration::from_millis(3100) {}
    let spawned = p.update(GameState::Active);
    assert!(matches!(spawned, Some(1..=3)));
    // The timer starts its wait anew.
    assert_eq!(p.update(GameState::Active), None);
}
