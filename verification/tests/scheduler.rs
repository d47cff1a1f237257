use masteroids::scheduler::Scheduler;

#[test]
fn new_scheduler_is_empty() {
    let s: Scheduler<u8> = Scheduler::new();
    assert_eq!(s.len(), 0);
}

#[test]
fn zero_wait_task_fires_at_once() {
    let mut s = Scheduler::new();
    s.schedule("now", 0, false, 7u8);
    let fired = s.update();
    assert_eq!(fired, vec![0]);
    assert_eq!(*s.action(0), 7);
}

#[test]
fn long_wait_task_does_not_fire() {
    let mut s = Scheduler::new();
    s.schedule("later", 3_600_000_000_000, true, 1u8);
    assert_eq!(s.update(), Vec::<usize>::new());
    s.remove_fired();
    assert_eq!(s.len(), 1);
}

#[test]
fn one_shot_task_is_removed_after_firing() {
    let mut s = Scheduler::new();
    s.schedule("once", 0, false, 1u8);
    s.schedule("later", 3_600_000_000_000, false, 2u8);
    assert_eq!(s.update(), vec![0]);
    assert_eq!(s.len(), 2);
    s.remove_fired();
    assert_eq!(s.len(), 1);
    assert_eq!(*s.action(0), 2);
}

#[test]
fn one_shot_task_fires_only_once() {
    let mut s = Scheduler::new();
    s.schedule("once", 0, false, 1u8);
    assert_eq!(s.update(), vec![0]);
    assert_eq!(s.update(), Vec::<usize>::new());
    assert_eq!(s.update_at(u128::MAX), Vec::<usize>::new());
    assert_eq!(s.len(), 1);
}

#[test]
fn repeating_task_fires_again_and_stays() {
    let mut s = Scheduler::new();
    s.schedule("tick", 0, true, 5u8);
    assert_eq!(s.update(), vec![0]);
    s.remove_fired();
    assert_eq!(s.len(), 1);
    assert_eq!(s.update(), vec![0]);
}

#[test]
fn repeating_task_fires_once_per_wait() {
    let mut s = Scheduler::new();
    s.schedule("tick", 1_000_000_000, true, 5u8);
    let t0: u128 = 1_000_000_000_000_000;
    // The clock is read at scheduling, long before `t0`.
    assert_eq!(s.update_at(t0), vec![0]);
    assert_eq!(s.update_at(t0 + 999_999_999), Vec::<usize>::new());
    assert_eq!(s.update_at(t0 + 1_000_000_000), vec![0]);
    assert_eq!(s.update_at(t0 + 1_500_000_000), Vec::<usize>::new());
    assert_eq!(s.update_at(t0 + 2_000_000_000), vec![0]);
}

#[test]
fn the_clock_never_runs_backwards() {
    let mut s = Scheduler::new();
    s.schedule("tick", 1_000_000_000, true, 5u8);
    let t0: u128 = 1_000_000_000_000_000;
    assert_eq!(s.update_at(t0), vec![0]);
    // An earlier instant counts as the last reading.
    assert_eq!(s.update_at(5), Vec::<usize>::new());
    assert_eq!(s.update_at(t0 + 1_000_000_000), vec![0]);
}

#[test]
fn unschedule_removes_every_task_of_the_name() {
    let mut s = Scheduler::new();
    s.schedule("a", 0, true, 1u8);
    s.schedule("b", 0, true, 2u8);
    s.schedule("a", 0, false, 3u8);
    s.unschedule("a");
    assert_eq!(s.len(), 1);
    assert_eq!(*s.action(0), 2);
    s.unschedule("missing");
    assert_eq!(s.len(), 1);
}

#[test]
fn set_wait_time_changes_only_the_first_task_of_the_name() {
    let mut s = Scheduler::new();
    s.schedule("a", 3_600_000_000_000, false, 1u8);
    s.schedule("a", 3_600_000_000_000, false, 2u8);
    s.set_wait_time("a", 0);
    assert_eq!(s.update(), vec![0]);
    s.set_wait_time("nothing", 0);
    // The first task already fired once; the second still waits.
    assert_eq!(s.update(), Vec::<usize>::new());
}

#[test]
fn set_wait_time_keeps_the_start() {
    let mut s = Scheduler::new();
    s.schedule("n", 10_000_000_000, false, 9u8);
    s.set_wait_time("n", 0);
    assert_eq!(s.update(), vec![0]);
    assert_eq!(*s.action(0), 9);
}

#[test]
fn update_at_fires_exactly_the_due_tasks() {
    let mut s = Scheduler::new();
    s.schedule("a", 3_600_000_000_000, false, 1u8);
    s.schedule("b", 3_600_000_000_000, true, 2u8);
    s.schedule("c", 7_200_000_000_000, false, 3u8);
    let t: u128 = 3_600_000_000_000 + 60_000_000_000;
    assert_eq!(s.update_at(t), vec![0, 1]);
    s.remove_fired();
    assert_eq!(s.len(), 2);
    assert_eq!(*s.action(0), 2);
    assert_eq!(*s.action(1), 3);
}

#[test]
fn action_mut_changes_only_the_action() {
    let mut s = Scheduler::new();
    s.schedule("a", 0, true, 1u8);
    s.schedule("b", 0, true, 2u8);
    *s.action_mut(1) = 7;
    assert_eq!(*s.action(0), 1);
    assert_eq!(*s.action(1), 7);
    assert_eq!(s.update(), vec![0, 1]);
}
