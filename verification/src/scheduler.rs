//! Named timers that fire an action after a wait, once or repeatedly.
//!
//! Time is counted in nanoseconds since the scheduler was made, and
//! never runs backwards. Tasks are identified by name and can be scheduled,
//! unscheduled, or have their wait time changed. `update` fires every task
//! whose wait has elapsed: a one-shot task fires once and then stays in the
//! list, marked as fired, until `remove_fired` takes it out; a repeating task
//! starts its wait anew each time it fires.
use crate::time;
use std::time::Instant;
use vstd::prelude::*;

verus! {

/// One timed action.
pub struct Task<T> {
    name: String,
    start_time: u128,
    wait_time: u64,
    repeat: bool,
    has_ran: bool,
    action: T,
}

/// The content of a task: when its wait started and how long it is, in
/// nanoseconds of the scheduler's clock.
pub struct TaskState<T> {
    pub name: Seq<char>,
    pub start_time: u128,
    pub wait_time: u64,
    pub repeat: bool,
    pub has_ran: bool,
    pub action: T,
}

impl<T> View for Task<T> {
    type V = TaskState<T>;

    closed spec fn view(&self) -> TaskState<T> {
        TaskState {
            name: self.name@,
            start_time: self.start_time,
            wait_time: self.wait_time,
            repeat: self.repeat,
            has_ran: self.has_ran,
            action: self.action,
        }
    }
}

/// The contents of a list of tasks.
spec fn views<T>(v: Seq<Task<T>>) -> Seq<TaskState<T>> {
    v.map_values(|t: Task<T>| t@)
}

/// A list of tasks, in the order in which they were scheduled, and a clock.
pub struct Scheduler<T> {
    tasks: Vec<Task<T>>,
    origin: Instant,
    clock: u128,
}

/// The time from `start` to `now`, none if `now` is earlier.
pub open spec fn elapsed(start: u128, now: u128) -> int {
    if now >= start {
        now - start
    } else {
        0
    }
}

/// A task is due at `now` when its wait has elapsed, unless it is a one-shot
/// task that has already fired.
pub open spec fn due<T>(t: TaskState<T>, now: u128) -> bool {
    &&& !(t.has_ran && !t.repeat)
    &&& elapsed(t.start_time, now) >= t.wait_time
}

/// Some task is due at `now`.
pub open spec fn any_due<T>(tasks: Seq<TaskState<T>>, now: u128) -> bool {
    exists|i: int| 0 <= i < tasks.len() && #[trigger] due(tasks[i], now)
}

/// The task after it fired at `now`: marked as fired, and a repeating task
/// waits again from `now`.
pub open spec fn fired_at<T>(t: TaskState<T>, now: u128) -> TaskState<T> {
    TaskState {
        start_time: if t.repeat {
            now
        } else {
            t.start_time
        },
        has_ran: true,
        ..t
    }
}

/// The tasks after every task due at `now` fired.
pub open spec fn fire_all<T>(tasks: Seq<TaskState<T>>, now: u128) -> Seq<TaskState<T>> {
    Seq::new(
        tasks.len(),
        |i: int|
            if due(tasks[i], now) {
                fired_at(tasks[i], now)
            } else {
                tasks[i]
            },
    )
}

/// `fired` lists positions below `len` in increasing order.
pub open spec fn increasing_below(fired: Seq<usize>, len: nat) -> bool {
    &&& forall|k: int| 0 <= k < fired.len() ==> fired[k] < len
    &&& forall|j: int, k: int| 0 <= j < k < fired.len() ==> fired[j] < fired[k]
}

/// `fired` lists, in increasing order, exactly the positions of the tasks
/// due at `now`.
pub open spec fn fires_at<T>(tasks: Seq<TaskState<T>>, fired: Seq<usize>, now: u128) -> bool {
    &&& increasing_below(fired, tasks.len())
    &&& forall|i: int| 0 <= i < tasks.len() ==> (fired.contains(i as usize) <==> #[trigger] due(tasks[i], now))
}

/// The list of fired positions is empty exactly when no task was due.
pub proof fn lemma_fired_iff_any_due<T>(tasks: Seq<TaskState<T>>, fired: Seq<usize>, now: u128)
    requires
        fires_at(tasks, fired, now),
    ensures
        fired.len() > 0 <==> any_due(tasks, now),
{
    if fired.len() > 0 {
        let i = fired[0] as int;
        assert(fired.contains(i as usize));
        assert(due(tasks[i], now));
    }
    if any_due(tasks, now) {
        let i = choose|i: int| 0 <= i < tasks.len() && #[trigger] due(tasks[i], now);
        assert(fired.contains(i as usize));
    }
}

/// The tasks that `unschedule(name)` keeps: those with another name.
pub open spec fn not_named<T>(name: Seq<char>) -> spec_fn(TaskState<T>) -> bool {
    |t: TaskState<T>| t.name != name
}

/// The tasks that `remove_fired` keeps: those that repeat or have not fired yet.
pub open spec fn pending<T>() -> spec_fn(TaskState<T>) -> bool {
    |t: TaskState<T>| !(t.has_ran && !t.repeat)
}

/// The position of the first task named `name`, if there is one.
pub open spec fn first_named<T>(tasks: Seq<TaskState<T>>, name: Seq<char>) -> Option<int>
    decreases tasks.len(),
{
    if tasks.len() == 0 {
        None
    } else if tasks[0].name == name {
        Some(0)
    } else {
        match first_named(tasks.drop_first(), name) {
            Some(j) => Some(j + 1),
            None => None,
        }
    }
}

proof fn lemma_first_named<T>(tasks: Seq<TaskState<T>>, name: Seq<char>, i: int)
    requires
        0 <= i < tasks.len(),
        tasks[i].name == name,
        forall|k: int| 0 <= k < i ==> tasks[k].name != name,
    ensures
        first_named(tasks, name) == Some(i),
    decreases i,
{
    if i > 0 {
        lemma_first_named(tasks.drop_first(), name, i - 1);
    }
}

proof fn lemma_first_named_none<T>(tasks: Seq<TaskState<T>>, name: Seq<char>)
    requires
        forall|k: int| 0 <= k < tasks.len() ==> tasks[k].name != name,
    ensures
        first_named(tasks, name) is None,
    decreases tasks.len(),
{
    if tasks.len() > 0 {
        lemma_first_named_none(tasks.drop_first(), name);
    }
}

/// Scheduling a task and then unscheduling its name leaves the same tasks as
/// unscheduling the name alone: the new task is gone, the others keep their order.
pub proof fn lemma_unschedule_cancels_schedule<T>(
    tasks: Seq<TaskState<T>>,
    task: TaskState<T>,
    name: Seq<char>,
)
    requires
        task.name == name,
    ensures
        tasks.push(task).filter(not_named::<T>(name)) == tasks.filter(not_named::<T>(name)),
{
    reveal(Seq::filter);
    assert(tasks.push(task).drop_last() =~= tasks);
}

/// After `unschedule(name)` no task of that name is left, and every task of
/// another name is still there.
pub proof fn lemma_unschedule_removes_name<T>(tasks: Seq<TaskState<T>>, name: Seq<char>)
    ensures
        forall|k: int|
            0 <= k < tasks.filter(not_named::<T>(name)).len() ==> #[trigger] tasks.filter(
                not_named::<T>(name),
            )[k].name != name,
        forall|k: int|
            0 <= k < tasks.len() && tasks[k].name != name ==> tasks.filter(
                not_named::<T>(name),
            ).contains(#[trigger] tasks[k]),
{
    broadcast use vstd::seq_lib::group_filter_ensures;

    assert forall|k: int|
        0 <= k < tasks.filter(not_named::<T>(name)).len() implies #[trigger] tasks.filter(
            not_named::<T>(name),
        )[k].name != name by {
        tasks.lemma_filter_pred(not_named::<T>(name), k);
    }
    assert forall|k: int| 0 <= k < tasks.len() && tasks[k].name != name implies tasks.filter(
        not_named::<T>(name),
    ).contains(#[trigger] tasks[k]) by {
        tasks.lemma_filter_contains(not_named::<T>(name), k);
    }
}

/// A task fires once unless it repeats: after `update` and `remove_fired`, a
/// task is kept exactly when it repeats, or it is a one-shot task that has
/// neither fired before nor fired now.
pub proof fn lemma_fired_tasks_kept_iff_repeating<T>(tasks: Seq<TaskState<T>>, now: u128)
    ensures
        forall|i: int|
            0 <= i < tasks.len() ==> ((pending::<T>())(#[trigger] fire_all(tasks, now)[i]) <==> (
            tasks[i].repeat || (!tasks[i].has_ran && !due(tasks[i], now)))),
{
}

/// A one-shot task that fired is never due again, whatever the time.
pub proof fn lemma_one_shot_fires_once<T>(t: TaskState<T>, now: u128, later: u128)
    requires
        !t.repeat,
    ensures
        !due(fired_at(t, now), later),
{
}

/// A repeating task that fired at `now` is due again at a later instant
/// exactly when its wait has passed since `now`: firings are at least one
/// wait apart, and the task keeps firing.
pub proof fn lemma_repeating_fires_every_wait<T>(t: TaskState<T>, now: u128, later: u128)
    requires
        t.repeat,
        now <= later,
    ensures
        due(fired_at(t, now), later) <==> later - now >= t.wait_time,
        fired_at(t, now).repeat,
{
}

/// An increasing list of positions below `len` has at most `len` entries:
/// `update` fires each task at most once.
pub proof fn lemma_increasing_below_len(fired: Seq<usize>, len: nat)
    requires
        increasing_below(fired, len),
    ensures
        fired.len() <= len,
    decreases fired.len(),
{
    if fired.len() > 0 {
        let last = fired.last();
        assert(increasing_below(fired.drop_last(), last as nat)) by {
            assert forall|k: int| 0 <= k < fired.drop_last().len() implies fired.drop_last()[k]
                < last by {
                assert(fired[k] < fired[fired.len() - 1]);
            }
        }
        lemma_increasing_below_len(fired.drop_last(), last as nat);
    }
}

impl<T> Scheduler<T> {
    /// The tasks, in the order in which they were scheduled.
    pub closed spec fn tasks(&self) -> Seq<TaskState<T>> {
        views(self.tasks@)
    }

    /// The latest reading of the clock, in nanoseconds since the scheduler
    /// was made.
    pub closed spec fn clock(&self) -> u128 {
        self.clock
    }

    /// Creates a new empty scheduler; its clock starts at zero.
    pub fn new() -> (s: Self)
        ensures
            s.tasks() == Seq::<TaskState<T>>::empty(),
            s.clock() == 0,
    {
        let s = Scheduler { tasks: Vec::new(), origin: time::now(), clock: 0 };
        assert(s.tasks() =~= Seq::<TaskState<T>>::empty());
        s
    }

    /// The number of tasks.
    pub fn len(&self) -> (n: usize)
        ensures
            n == self.tasks().len(),
    {
        self.tasks.len()
    }

    /// The action of the task at position `i`.
    pub fn action(&self, i: usize) -> (a: &T)
        requires
            i < self.tasks().len(),
        ensures
            *a == self.tasks()[i as int].action,
    {
        &self.tasks[i].action
    }

    /// The action of the task at position `i`, to change it in place; the
    /// task keeps everything else.
    pub fn action_mut(&mut self, i: usize) -> (a: &mut T)
        requires
            i < old(self).tasks().len(),
        ensures
            *a == old(self).tasks()[i as int].action,
            final(self).tasks() == old(self).tasks().update(
                i as int,
                TaskState { action: *final(a), ..old(self).tasks()[i as int] },
            ),
            final(self).clock() == old(self).clock(),
    {
        &mut self.tasks[i].action
    }

    /// Reads the clock: the nanoseconds since the origin, or the last
    /// reading if that is later, so that the clock never runs backwards.
    fn read_clock(&mut self)
        ensures
            final(self).clock() >= old(self).clock(),
            final(self).tasks() == old(self).tasks(),
    {
        let reading = time::whole_nanos(&time::since(&self.origin));
        if reading > self.clock {
            self.clock = reading;
        }
    }

    /// Schedules a task with the given name, wait in nanoseconds, and action.
    ///
    /// If `repeat` is true the task fires every `wait_ns`. If false it fires once.
    /// Its wait starts now, at a fresh reading of the clock.
    pub fn schedule(&mut self, name: &str, wait_ns: u64, repeat: bool, action: T)
        ensures
            final(self).clock() >= old(self).clock(),
            final(self).tasks().len() == old(self).tasks().len() + 1,
            final(self).tasks().drop_last() == old(self).tasks(),
            final(self).tasks().last() == (TaskState {
                name: name@,
                start_time: final(self).clock(),
                wait_time: wait_ns,
                repeat,
                has_ran: false,
                action,
            }),
    {
        self.read_clock();
        let task = Task {
            name: name.to_owned(),
            start_time: self.clock,
            wait_time: wait_ns,
            repeat,
            has_ran: false,
            action,
        };
        self.tasks.push(task);
        assert(final(self).tasks().drop_last() =~= old(self).tasks());
    }

    /// Keeps the tasks whose flag is set, in order: those that satisfy `keep`.
    fn retain_flagged(&mut self, flags: &Vec<bool>, Ghost(keep): Ghost<spec_fn(TaskState<T>) -> bool>)
        requires
            flags@.len() == old(self).tasks().len(),
            forall|i: int| 0 <= i < flags@.len() ==> flags@[i] == keep(#[trigger] old(self).tasks()[i]),
        ensures
            final(self).tasks() == old(self).tasks().filter(keep),
            final(self).clock() == old(self).clock(),
    {
        let mut rest: Vec<Task<T>> = Vec::new();
        std::mem::swap(&mut rest, &mut self.tasks);
        let ghost all = old(self).tasks();
        let n_tasks = rest.len();
        let ghost n = n_tasks as nat;
        assert(self.tasks() =~= all.take(0).filter(keep));
        assert(views(rest@) =~= all.skip(0));
        let mut i: usize = 0;
        while rest.len() > 0
            invariant
                i + rest@.len() == n,
                n == all.len(),
                n <= usize::MAX,
                flags@.len() == n,
                forall|j: int| 0 <= j < n ==> flags@[j] == keep(#[trigger] all[j]),
                self.clock == old(self).clock(),
                self.tasks() == all.take(i as int).filter(keep),
                views(rest@) == all.skip(i as int),
            decreases rest@.len(),
        {
            let ghost rest_before = rest@;
            let ghost before = self.tasks();
            let t = rest.remove(0);
            assert(all[i as int] == t@) by {
                assert(all.skip(i as int)[0] == views(rest_before)[0]);
            }
            if flags[i] {
                self.tasks.push(t);
            }
            proof {
                assert(all.take(i + 1).drop_last() =~= all.take(i as int));
                assert(all.take(i + 1).last() == all[i as int]);
                reveal(Seq::filter);
                let s = all.take(i + 1);
                assert(s.filter(keep) == if keep(s.last()) {
                    s.drop_last().filter(keep).push(s.last())
                } else {
                    s.drop_last().filter(keep)
                });
                assert(self.tasks() =~= all.take(i + 1).filter(keep)) by {
                    if keep(all[i as int]) {
                        assert(self.tasks() =~= before.push(all[i as int]));
                    } else {
                        assert(self.tasks() =~= before);
                    }
                }
                assert(rest@ == rest_before.remove(0));
                assert forall|k: int| 0 <= k < rest@.len() implies #[trigger] views(rest@)[k]
                    == all.skip(i + 1)[k] by {
                    assert(views(rest_before)[k + 1] == all.skip(i as int)[k + 1]);
                }
                assert(views(rest@) =~= all.skip(i + 1));
            }
            i = i + 1;
        }
        assert(all.take(n as int) =~= all);
    }

    /// Removes every task with the given name.
    pub fn unschedule(&mut self, name: &str)
        ensures
            final(self).tasks() == old(self).tasks().filter(not_named::<T>(name@)),
            final(self).clock() == old(self).clock(),
    {
        let target = name.to_owned();
        let mut flags: Vec<bool> = Vec::new();
        let mut i: usize = 0;
        while i < self.tasks.len()
            invariant
                0 <= i <= self.tasks@.len(),
                flags@.len() == i,
                target@ == name@,
                forall|j: int| 0 <= j < i ==> flags@[j] == (not_named::<T>(name@))(#[trigger] self.tasks()[j]),
            decreases self.tasks@.len() - i,
        {
            assert(self.tasks()[i as int] == self.tasks@[i as int]@);
            flags.push(!(self.tasks[i].name == target));
            i = i + 1;
        }
        self.retain_flagged(&flags, Ghost(not_named::<T>(name@)));
    }

    /// Removes all non-repeating tasks that have already fired.
    ///
    /// Call this after `update()` to clean up one-shot tasks whose actions have completed.
    pub fn remove_fired(&mut self)
        ensures
            final(self).tasks() == old(self).tasks().filter(pending::<T>()),
            final(self).clock() == old(self).clock(),
    {
        let mut flags: Vec<bool> = Vec::new();
        let mut i: usize = 0;
        while i < self.tasks.len()
            invariant
                0 <= i <= self.tasks@.len(),
                flags@.len() == i,
                forall|j: int| 0 <= j < i ==> flags@[j] == (pending::<T>())(#[trigger] self.tasks()[j]),
            decreases self.tasks@.len() - i,
        {
            assert(self.tasks()[i as int] == self.tasks@[i as int]@);
            flags.push(!(self.tasks[i].has_ran && !self.tasks[i].repeat));
            i = i + 1;
        }
        self.retain_flagged(&flags, Ghost(pending::<T>()));
    }

    /// Changes the wait time of the first task with the given name, if any.
    /// Its wait still counts from when it started.
    pub fn set_wait_time(&mut self, name: &str, wait_ns: u64)
        ensures
            match first_named(old(self).tasks(), name@) {
                Some(j) => final(self).tasks() == old(self).tasks().update(
                    j,
                    TaskState { wait_time: wait_ns, ..old(self).tasks()[j] },
                ),
                None => final(self).tasks() == old(self).tasks(),
            },
            final(self).clock() == old(self).clock(),
    {
        let target = name.to_owned();
        let mut i: usize = 0;
        while i < self.tasks.len()
            invariant
                target@ == name@,
                self.tasks() == old(self).tasks(),
                self.clock == old(self).clock(),
                0 <= i <= self.tasks@.len(),
                forall|k: int| 0 <= k < i ==> self.tasks()[k].name != name@,
            decreases self.tasks@.len() - i,
        {
            if self.tasks[i].name == target {
                proof {
                    lemma_first_named(old(self).tasks(), name@, i as int);
                }
                self.tasks[i].wait_time = wait_ns;
                assert(self.tasks() =~= old(self).tasks().update(
                    i as int,
                    TaskState { wait_time: wait_ns, ..old(self).tasks()[i as int] },
                ));
                return;
            }
            i = i + 1;
        }
        proof {
            lemma_first_named_none(old(self).tasks(), name@);
        }
    }

    /// Fires, at `now`, the tasks at the positions where `flags` holds, which
    /// are the tasks due at `now`.
    fn fire_due(&mut self, now: u128, flags: &Vec<bool>) -> (fired: Vec<usize>)
        requires
            flags@.len() == old(self).tasks().len(),
            forall|i: int| 0 <= i < flags@.len() ==> flags@[i] == due(#[trigger] old(self).tasks()[i], now),
        ensures
            fires_at(old(self).tasks(), fired@, now),
            final(self).tasks() == fire_all(old(self).tasks(), now),
            final(self).clock() == old(self).clock(),
    {
        let mut fired: Vec<usize> = Vec::new();
        let n = self.tasks.len();
        let mut i: usize = 0;
        while i < n
            invariant
                n == self.tasks@.len(),
                flags@.len() == n,
                0 <= i <= n,
                old(self).tasks().len() == n,
                increasing_below(fired@, i as nat),
                forall|k: int| 0 <= k < i ==> (flags@[k] <==> fired@.contains(k as usize)),
                self.clock == old(self).clock(),
                forall|k: int| 0 <= k < n ==> flags@[k] == due(#[trigger] old(self).tasks()[k], now),
                forall|k: int|
                    0 <= k < n ==> #[trigger] self.tasks()[k] == if k < i && flags@[k] {
                        fired_at(old(self).tasks()[k], now)
                    } else {
                        old(self).tasks()[k]
                    },
            decreases n - i,
        {
            let ghost pre = self.tasks();
            let ghost pre_fired = fired@;
            if flags[i] {
                if self.tasks[i].repeat {
                    self.tasks[i].start_time = now;
                }
                self.tasks[i].has_ran = true;
                fired.push(i);
                assert(self.tasks() =~= pre.update(i as int, fired_at(pre[i as int], now)));
            }
            proof {
                broadcast use vstd::seq_lib::lemma_seq_contains_after_push;

                assert forall|k: int| 0 <= k <= i implies (flags@[k] <==> fired@.contains(
                    k as usize,
                )) by {
                    if k < i {
                        assert(pre_fired.contains(k as usize) ==> fired@.contains(k as usize));
                        if flags@[i as int] {
                            assert(fired@ == pre_fired.push(i));
                            if fired@.contains(k as usize) {
                                assert(pre_fired.contains(k as usize));
                            }
                        }
                    } else {
                        if flags@[k] {
                            assert(fired@[fired@.len() - 1] == i);
                        } else {
                            assert(fired@ == pre_fired);
                            if pre_fired.contains(k as usize) {
                                let j = choose|j: int|
                                    0 <= j < pre_fired.len() && pre_fired[j] == k as usize;
                            }
                        }
                    }
                }
            }
            i = i + 1;
        }
        assert(self.tasks() =~= fire_all(old(self).tasks(), now));
        fired
    }

    /// Fires, at `now` or at the clock's last reading if that is later,
    /// every task due then: a task whose wait has elapsed, unless it is a
    /// one-shot task that already fired. Each is marked as fired, and a
    /// repeating one waits again from that instant. Returns their positions in
    /// increasing order.
    pub fn update_at(&mut self, now: u128) -> (fired: Vec<usize>)
        ensures
            final(self).clock() == (if now > old(self).clock() {
                now
            } else {
                old(self).clock()
            }),
            fires_at(old(self).tasks(), fired@, final(self).clock()),
            final(self).tasks() == fire_all(old(self).tasks(), final(self).clock()),
    {
        if now > self.clock {
            self.clock = now;
        }
        let t = self.clock;
        let mut flags: Vec<bool> = Vec::new();
        let n = self.tasks.len();
        let mut i: usize = 0;
        while i < n
            invariant
                n == self.tasks@.len(),
                0 <= i <= n,
                flags@.len() == i,
                self.tasks() == old(self).tasks(),
                self.clock == t,
                forall|k: int| 0 <= k < i ==> flags@[k] == due(#[trigger] self.tasks()[k], t),
            decreases n - i,
        {
            let task = &self.tasks[i];
            let waited: u128 = if t >= task.start_time {
                t - task.start_time
            } else {
                0
            };
            flags.push(!(task.has_ran && !task.repeat) && waited >= task.wait_time as u128);
            assert(self.tasks()[i as int] == self.tasks@[i as int]@);
            i = i + 1;
        }
        self.fire_due(t, &flags)
    }

    /// Reads the clock and fires every task due then (see `update_at`).
    /// The reading depends on when the call is made; the clock never runs
    /// backwards.
    pub fn update(&mut self) -> (fired: Vec<usize>)
        ensures
            final(self).clock() >= old(self).clock(),
            fires_at(old(self).tasks(), fired@, final(self).clock()),
            final(self).tasks() == fire_all(old(self).tasks(), final(self).clock()),
    {
        let reading = time::whole_nanos(&time::since(&self.origin));
        self.update_at(reading)
    }
}

} // verus!
