use masteroids::address::PeerAddr;
use masteroids::host::{HostSession, HostTask, User, USER_TIMEOUT};
use masteroids::protocol::NetworkMessage;

fn addr(n: u32) -> PeerAddr {
    PeerAddr::V4 { ip: n, port: 4000 + n as u16 }
}

fn connect(name: &str) -> NetworkMessage {
    NetworkMessage::Connect { name: name.to_string() }
}

fn data(id: u32, score: u32, target: u32, name: &str) -> NetworkMessage {
    NetworkMessage::UserData { id, score, health: 0, target_player: target, name: name.to_string() }
}

#[test]
fn new_user_has_defaults() {
    let u = User::new("ann".to_string(), addr(1), 4);
    assert_eq!(u.name, "ann");
    assert_eq!(u.id, 4);
    assert_eq!(u.score, 0);
    assert_eq!(u.health, 0);
    assert_eq!(u.last_seen, 0);
    assert_eq!(u.target_player_id, None);
    assert!(!u.is_ready);
    assert!(!u.is_updated);
}

#[test]
fn connecting_users_get_fresh_ids_and_the_roster() {
    let mut h = HostSession::new();
    let f = h.step(&vec![], &vec![(addr(1), connect("ann"))]);
    assert!(f.summon_to.is_empty());
    assert_eq!(
        f.outgoing,
        vec![
            (addr(1), NetworkMessage::Accept { id: 1 }),
            (addr(1), NetworkMessage::UserAmount { amount: 1 }),
            (addr(1), data(1, 0, 0, "ann")),
        ]
    );
    let f = h.step(&vec![], &vec![(addr(2), connect("bob"))]);
    assert_eq!(
        f.outgoing,
        vec![
            (addr(2), NetworkMessage::Accept { id: 2 }),
            (addr(1), NetworkMessage::UserAmount { amount: 2 }),
            (addr(2), NetworkMessage::UserAmount { amount: 2 }),
            (addr(1), data(1, 0, 0, "ann")),
            (addr(2), data(1, 0, 0, "ann")),
            (addr(1), data(2, 0, 0, "bob")),
            (addr(2), data(2, 0, 0, "bob")),
        ]
    );
    assert_eq!(h.users().len(), 2);
    assert_eq!(h.users()[1].id, 2);
}

#[test]
fn game_starts_when_all_of_two_are_ready() {
    let mut h = HostSession::new();
    h.step(&vec![], &vec![(addr(1), connect("ann")), (addr(2), connect("bob"))]);
    let f = h.step(&vec![], &vec![(addr(1), NetworkMessage::Ready { is_ready: 1 })]);
    assert!(f.outgoing.is_empty());
    assert!(!h.started());
    let f = h.step(&vec![], &vec![(addr(2), NetworkMessage::Ready { is_ready: 5 })]);
    assert!(h.started());
    assert_eq!(
        f.outgoing,
        vec![(addr(1), NetworkMessage::StartGame), (addr(2), NetworkMessage::StartGame)]
    );
    // Once started, a newcomer is rejected.
    let f = h.step(&vec![], &vec![(addr(3), connect("cat"))]);
    assert_eq!(f.outgoing, vec![(addr(3), NetworkMessage::Reject { reason: 1 })]);
    assert_eq!(h.users().len(), 2);
}

#[test]
fn a_lone_ready_player_does_not_start_the_game() {
    let mut h = HostSession::new();
    h.step(&vec![], &vec![(addr(1), connect("ann"))]);
    let f = h.step(&vec![], &vec![(addr(1), NetworkMessage::Ready { is_ready: 1 })]);
    assert!(!h.started());
    assert!(f.outgoing.is_empty());
}

#[test]
fn ready_zero_means_not_ready() {
    let mut h = HostSession::new();
    h.step(&vec![], &vec![(addr(1), connect("ann")), (addr(2), connect("bob"))]);
    h.step(&vec![], &vec![(addr(1), NetworkMessage::Ready { is_ready: 1 })]);
    h.step(&vec![], &vec![(addr(2), NetworkMessage::Ready { is_ready: 0 })]);
    assert!(!h.started());
    assert!(!h.users()[1].is_ready);
}

#[test]
fn asteroid_hit_scores_and_shares_data() {
    let mut h = HostSession::new();
    h.step(&vec![], &vec![(addr(1), connect("ann")), (addr(2), connect("bob"))]);
    let f = h.step(&vec![], &vec![(addr(2), NetworkMessage::AsteroidHit { size: 2 })]);
    assert_eq!(h.users()[1].score, 1);
    assert_eq!(f.outgoing, vec![(addr(1), data(2, 1, 0, "bob")), (addr(2), data(2, 1, 0, "bob"))]);
    // The mark is only cleared for targeted users, so the data goes out again.
    let f = h.step(&vec![], &vec![]);
    assert_eq!(f.outgoing.len(), 2);
}

#[test]
fn targeting_clears_the_targets_mark() {
    let mut h = HostSession::new();
    h.step(&vec![], &vec![(addr(1), connect("ann")), (addr(2), connect("bob"))]);
    h.step(
        &vec![],
        &vec![
            (addr(1), NetworkMessage::AsteroidHit { size: 1 }),
            (addr(2), NetworkMessage::TargetPlayer { id: 1 }),
            (addr(2), NetworkMessage::AsteroidHit { size: 1 }),
        ],
    );
    assert_eq!(h.users()[1].target_player_id, Some(1));
    assert!(!h.users()[0].is_updated);
    assert!(h.users()[1].is_updated);
}

#[test]
fn attack_is_forwarded_to_the_target() {
    let mut h = HostSession::new();
    h.step(&vec![], &vec![(addr(1), connect("ann")), (addr(2), connect("bob"))]);
    h.step(&vec![], &vec![(addr(1), NetworkMessage::TargetPlayer { id: 2 })]);
    let f = h.step(&vec![], &vec![(addr(1), NetworkMessage::AttackPlayer { amount: 4 })]);
    assert_eq!(f.outgoing, vec![(addr(2), NetworkMessage::AttackPlayer { amount: 4 })]);
    // Without a target nothing is forwarded.
    let f = h.step(&vec![], &vec![(addr(2), NetworkMessage::AttackPlayer { amount: 4 })]);
    assert!(f.outgoing.is_empty());
}

#[test]
fn silent_users_time_out() {
    let mut h = HostSession::new();
    h.step(&vec![], &vec![(addr(1), connect("ann")), (addr(2), connect("bob"))]);
    let checks: Vec<HostTask> = vec![HostTask::CheckAlive; (USER_TIMEOUT - 1) as usize];
    h.step(&checks, &vec![]);
    assert_eq!(h.users().len(), 2);
    assert_eq!(h.users()[0].last_seen, USER_TIMEOUT - 1);
    // ann speaks, bob stays silent.
    let f = h.step(&vec![HostTask::CheckAlive], &vec![(addr(1), NetworkMessage::Alive)]);
    assert_eq!(h.users().len(), 1);
    assert_eq!(h.users()[0].name, "ann");
    assert_eq!(
        f.outgoing,
        vec![(addr(1), NetworkMessage::UserAmount { amount: 1 }), (addr(1), data(1, 0, 0, "ann"))]
    );
}

#[test]
fn asteroids_are_summoned_only_under_pressure_in_a_started_game() {
    let mut h = HostSession::new();
    h.step(&vec![], &vec![(addr(1), connect("ann")), (addr(2), connect("bob"))]);
    let f = h.step(&vec![HostTask::SummonAsteroids], &vec![]);
    assert!(f.summon_to.is_empty());
    h.step(
        &vec![],
        &vec![
            (addr(1), NetworkMessage::Ready { is_ready: 1 }),
            (addr(2), NetworkMessage::Ready { is_ready: 1 }),
        ],
    );
    assert!(h.started());
    let f = h.step(&vec![HostTask::SummonAsteroids], &vec![]);
    assert_eq!(f.summon_to, vec![addr(1), addr(2)]);
    h.toggle_pressure();
    assert!(!h.pressure_enabled());
    let f = h.step(&vec![HostTask::SummonAsteroids], &vec![]);
    assert!(f.summon_to.is_empty());
}

#[test]
fn update_without_timers_handles_messages() {
    let mut h = HostSession::new();
    let f = h.update(&vec![(addr(1), connect("ann"))]);
    assert_eq!(f.outgoing[0], (addr(1), NetworkMessage::Accept { id: 1 }));
    assert_eq!(h.users().len(), 1);
}

#[test]
fn activation_starts_two_timers() {
    let mut h = HostSession::new();
    assert_eq!(h.liveness_checks(), 0);
    h.on_activate();
    assert_eq!(h.liveness_checks(), 1);
    h.step(&vec![], &vec![(addr(1), connect("ann"))]);
    // Timers wait one and five seconds, so nothing fires right away.
    let f = h.update(&vec![]);
    assert!(f.summon_to.is_empty());
    assert_eq!(h.users()[0].last_seen, 0);
}

#[test]
fn can_update_counts_connections_and_hits() {
    let h = HostSession::new();
    assert!(h.can_update(&vec![]));
    assert!(h.can_update(&vec![
        (addr(1), connect("ann")),
        (addr(1), NetworkMessage::Alive),
        (addr(1), NetworkMessage::AsteroidHit { size: 1 }),
    ]));
}
