use masteroids::game::{split_size, Collision, GameEvent, GameState, GameStatus};

#[test]
fn new_game_waits_with_full_health() {
    let g = GameStatus::new();
    assert_eq!(g.get_state(), GameState::Waiting);
    assert_eq!(g.get_health(), 3);
    assert_eq!(g.get_collected_rocks(), 0);
    assert!(!g.is_immune());
}

#[test]
fn a_hit_costs_one_health_and_grants_immunity() {
    let mut g = GameStatus::new();
    assert_eq!(g.ship_hit(), Some(GameEvent::Damage { health: 2 }));
    assert!(g.is_immune());
    assert_eq!(g.ship_hit(), None);
    assert_eq!(g.get_health(), 2);
}

#[test]
fn immunity_lasts_until_its_timer_fires() {
    let mut g = GameStatus::new();
    g.ship_hit();
    g.run_timers();
    assert!(g.is_immune());
    let start = std::time::Instant::now();
    while start.elapsed() < std::time::Duration::from_millis(1100) {}
    g.run_timers();
    assert!(!g.is_immune());
    assert_eq!(g.ship_hit(), Some(GameEvent::Damage { health: 1 }));
}

#[test]
fn small_asteroids_count_as_rocks() {
    let mut g = GameStatus::new();
    assert_eq!(g.asteroid_destroyed(3), GameEvent::AsteroidDestroyed { size: 3 });
    assert_eq!(g.get_collected_rocks(), 0);
    assert_eq!(g.asteroid_destroyed(1), GameEvent::AsteroidDestroyed { size: 1 });
    assert_eq!(g.asteroid_destroyed(0), GameEvent::AsteroidDestroyed { size: 0 });
    assert_eq!(g.get_collected_rocks(), 2);
}

#[test]
fn activate_restores_health_but_keeps_state() {
    let mut g = GameStatus::new();
    g.set_state(GameState::Active);
    g.ship_hit();
    g.asteroid_destroyed(1);
    g.activate();
    assert_eq!(g.get_health(), 3);
    assert!(!g.is_immune());
    assert_eq!(g.get_state(), GameState::Active);
    assert_eq!(g.get_collected_rocks(), 1);
}

#[test]
fn a_second_hit_in_the_window_is_harmless() {
    let mut g = GameStatus::new();
    assert_eq!(g.ship_hit(), Some(GameEvent::Damage { health: 2 }));
    g.activate();
    g.ship_hit();
    g.ship_hit();
    assert_eq!(g.get_health(), 2);
}

#[test]
fn the_last_hit_ends_the_game_and_later_hits_do_nothing() {
    let mut g = GameStatus::new();
    g.set_state(GameState::Active);
    assert_eq!(g.ship_hit(), Some(GameEvent::Damage { health: 2 }));
    let start = std::time::Instant::now();
    while start.elapsed() < std::time::Duration::from_millis(1100) {}
    g.run_timers();
    assert_eq!(g.ship_hit(), Some(GameEvent::Damage { health: 1 }));
    assert_eq!(g.get_state(), GameState::Active);
    let start = std::time::Instant::now();
    while start.elapsed() < std::time::Duration::from_millis(1100) {}
    g.run_timers();
    assert_eq!(g.ship_hit(), Some(GameEvent::Damage { health: 0 }));
    assert_eq!(g.get_state(), GameState::GameOver);
    let start = std::time::Instant::now();
    while start.elapsed() < std::time::Duration::from_millis(1100) {}
    g.run_timers();
    assert!(!g.is_immune());
    assert_eq!(g.ship_hit(), None);
    assert_eq!(g.get_health(), 0);
}

#[test]
fn a_frame_takes_at_most_one_damage() {
    let mut g = GameStatus::new();
    g.set_state(GameState::Active);
    let events = g.update(&vec![
        Collision::ShipHit,
        Collision::BulletHit { size: 1 },
        Collision::ShipHit,
        Collision::BulletHit { size: 3 },
    ]);
    assert_eq!(
        events,
        vec![
            GameEvent::Damage { health: 2 },
            GameEvent::AsteroidDestroyed { size: 1 },
            GameEvent::AsteroidDestroyed { size: 3 },
        ]
    );
    assert_eq!(g.get_health(), 2);
    assert_eq!(g.get_collected_rocks(), 1);
    assert!(g.is_immune());
}

#[test]
fn nothing_happens_unless_the_game_is_active() {
    let mut g = GameStatus::new();
    assert_eq!(g.update(&vec![Collision::ShipHit, Collision::BulletHit { size: 1 }]), vec![]);
    assert_eq!(g.get_health(), 3);
    assert_eq!(g.get_collected_rocks(), 0);
}

#[test]
fn immunity_ends_in_a_later_frame_after_its_window() {
    let mut g = GameStatus::new();
    g.set_state(GameState::Active);
    assert_eq!(g.update(&vec![Collision::ShipHit]), vec![GameEvent::Damage { health: 2 }]);
    assert_eq!(g.update(&vec![Collision::ShipHit]), vec![]);
    let start = std::time::Instant::now();
    while start.elapsed() < std::time::Duration::from_millis(1100) {}
    assert_eq!(g.update(&vec![Collision::ShipHit]), vec![GameEvent::Damage { health: 1 }]);
}

#[test]
fn a_hit_splits_into_smaller_asteroids() {
    assert_eq!(split_size(3), 2);
    assert_eq!(split_size(1), 0);
}
