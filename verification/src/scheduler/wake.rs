//! Blocking and waking tasks.

use vstd::prelude::*;

use crate::scheduler::per_core::{Machine, PerCoreScheduler};
use crate::scheduler::state::CoreState;
use crate::scheduler::task::blocked::BlockedTask;
use crate::scheduler::task::handle::TaskHandle;
use crate::scheduler::task::{FrameLocation, Task, TaskId, TaskStatus, NO_PRIORITIES};

verus! {

/// `timers` with `time` added, if there is one.
pub open spec fn with_timer(timers: Seq<u64>, time: Option<u64>) -> Seq<u64> {
    match time {
        Some(t) => timers.push(t),
        None => timers,
    }
}

/// `c` once the running task was blocked until `wakeup_time`.
pub open spec fn current_blocked(c: CoreState, wakeup_time: Option<u64>) -> CoreState {
    CoreState {
        blocked: c.blocked.insert(
            crate::scheduler::task::blocked::insert_index(c.blocked, wakeup_time),
            (BlockedTask { task: c.current, wakeup_time }),
        ),
        timers: with_timer(c.timers, wakeup_time),
        ..crate::scheduler::state::with_status(c, c.current, TaskStatus::Blocked)
    }
}

/// `c` once the blocked task `id` was woken by hand: it is ready. If it was the
/// first of the blocked tasks, the timer is set for the next one.
pub open spec fn hand_woken(c: CoreState, id: TaskId) -> CoreState {
    let pos = crate::scheduler::task::blocked::position(c.blocked, id);
    let blocked = c.blocked.remove(pos);
    CoreState {
        blocked,
        ready: crate::scheduler::task::priority_queue::pushed(
            c.ready,
            id,
            c.tasks[id.0].prio.0 as int,
        ),
        timers: with_timer(
            c.timers,
            if pos == 0 {
                crate::scheduler::task::blocked::front_time(blocked)
            } else {
                None
            },
        ),
        ..crate::scheduler::state::with_status(c, id, TaskStatus::Ready)
    }
}

/// `c` once every task whose time has elapsed at `time` was woken.
pub open spec fn elapsed_woken(c: CoreState, time: u64) -> CoreState {
    let (tasks, ready) = crate::scheduler::task::blocked::woken_in_turn(
        c.tasks,
        c.ready,
        crate::scheduler::task::blocked::due_tasks(c.blocked, time),
    );
    let blocked = crate::scheduler::task::blocked::not_due(c.blocked, time);
    CoreState {
        tasks,
        ready,
        blocked,
        timers: with_timer(c.timers, crate::scheduler::task::blocked::front_time(blocked)),
        ..c
    }
}

/// Blocking the running task keeps the invariant.
pub proof fn lemma_current_blocked(c: CoreState, wakeup_time: Option<u64>)
    requires
        crate::scheduler::state::inv(c),
        c.tasks[c.current.0].status == TaskStatus::Running,
    ensures
        crate::scheduler::state::inv(current_blocked(c, wakeup_time)),
{
    let d = current_blocked(c, wakeup_time);
    let i = crate::scheduler::task::blocked::insert_index(c.blocked, wakeup_time);
    let node = BlockedTask { task: c.current, wakeup_time };
    crate::scheduler::task::blocked::lemma_insert_index_is(c.blocked, wakeup_time);
    crate::scheduler::task::blocked::lemma_insert_keeps_sorted(c.blocked, c.current, wakeup_time);
    assert(!crate::scheduler::task::blocked::names(c.blocked, c.current));
    crate::scheduler::task::blocked::lemma_insert_names(c.blocked, i, node);
    assert(TaskId(c.current.0) == c.current);
    assert forall|k: i32| #[trigger] d.tasks.contains_key(k) implies
        crate::scheduler::state::task_ok(d, k) && crate::scheduler::state::status_ok(d, k)
        && crate::scheduler::state::slot_ok(d, k) && crate::scheduler::state::frames_ok(d, k) by {
        assert(c.tasks.contains_key(k));
        assert(crate::scheduler::state::task_ok(c, k) && crate::scheduler::state::status_ok(c, k)
            && crate::scheduler::state::slot_ok(c, k) && crate::scheduler::state::frames_ok(c, k));
    }
    assert(crate::scheduler::state::queues_ok(d));
}

/// Waking a blocked task by hand keeps the invariant.
pub proof fn lemma_hand_woken(c: CoreState, id: TaskId)
    requires
        crate::scheduler::state::inv(c),
        crate::scheduler::task::blocked::names(c.blocked, id),
    ensures
        crate::scheduler::state::inv(hand_woken(c, id)),
        forall|t: TaskId|
            #[trigger] crate::scheduler::task::blocked::names(hand_woken(c, id).blocked, t) <==> (t
                != id && crate::scheduler::task::blocked::names(c.blocked, t)),
{
    let d = hand_woken(c, id);
    crate::scheduler::task::blocked::lemma_position_is(c.blocked, id);
    let pos = crate::scheduler::task::blocked::position(c.blocked, id);
    crate::scheduler::task::blocked::lemma_remove_names(c.blocked, pos);
    crate::scheduler::task::blocked::lemma_remove_keeps_sorted(c.blocked, pos);
    assert(c.tasks.contains_key(id.0));
    assert(crate::scheduler::state::task_ok(c, id.0));
    assert(!crate::scheduler::task::priority_queue::queued(c.ready, id));
    crate::scheduler::task::priority_queue::lemma_pushed(
        c.ready,
        id,
        c.tasks[id.0].prio.0 as int,
    );
    assert(TaskId(id.0) == id);
    assert forall|k: i32| #[trigger] d.tasks.contains_key(k) implies
        crate::scheduler::state::task_ok(d, k) && crate::scheduler::state::status_ok(d, k)
        && crate::scheduler::state::slot_ok(d, k) && crate::scheduler::state::frames_ok(d, k) by {
        assert(c.tasks.contains_key(k));
        assert(crate::scheduler::state::task_ok(c, k) && crate::scheduler::state::status_ok(c, k)
            && crate::scheduler::state::slot_ok(c, k) && crate::scheduler::state::frames_ok(c, k));
    }
    assert(crate::scheduler::state::queues_ok(d));
}

/// What waking several blocked tasks in turn does: exactly they become ready,
/// and exactly they join the ready queues.
pub proof fn lemma_woken_in_turn(
    tasks: Map<i32, Task>,
    ready: Seq<Seq<TaskId>>,
    ids: Seq<TaskId>,
)
    requires
        ready.len() == NO_PRIORITIES,
        ids.no_duplicates(),
        crate::scheduler::task::priority_queue::unique(ready),
        forall|i: int|
            0 <= i < ids.len() ==> {
                let id = #[trigger] ids[i];
                &&& tasks.contains_key(id.0)
                &&& tasks[id.0].status == TaskStatus::Blocked
                &&& tasks[id.0].frame_location != FrameLocation::BeingEvicted
                &&& tasks[id.0].prio.0 < NO_PRIORITIES
                &&& !crate::scheduler::task::priority_queue::queued(ready, id)
            },
    ensures
        ({
            let (t, q) = crate::scheduler::task::blocked::woken_in_turn(tasks, ready, ids);
            &&& q.len() == NO_PRIORITIES
            &&& crate::scheduler::task::priority_queue::unique(q)
            &&& forall|x: TaskId|
                #[trigger] crate::scheduler::task::priority_queue::queued(q, x) <==> (
                crate::scheduler::task::priority_queue::queued(ready, x) || ids.contains(x))
            &&& forall|k: i32| #[trigger] t.contains_key(k) <==> tasks.contains_key(k)
            &&& forall|k: i32| #[trigger]
                t.contains_key(k) ==> t[k] == (if ids.contains(TaskId(k)) {
                    Task { status: TaskStatus::Ready, ..tasks[k] }
                } else {
                    tasks[k]
                })
        }),
    decreases ids.len(),
{
    if ids.len() > 0 {
        let init = ids.drop_last();
        let id = ids.last();
        assert(ids[ids.len() - 1] == id);
        assert forall|i: int| 0 <= i < init.len() implies {
            let x = #[trigger] init[i];
            &&& tasks.contains_key(x.0)
            &&& tasks[x.0].status == TaskStatus::Blocked
            &&& tasks[x.0].frame_location != FrameLocation::BeingEvicted
            &&& tasks[x.0].prio.0 < NO_PRIORITIES
            &&& !crate::scheduler::task::priority_queue::queued(ready, x)
        } by {
            assert(ids[i] == init[i]);
        }
        lemma_woken_in_turn(tasks, ready, init);
        let (t0, q0) = crate::scheduler::task::blocked::woken_in_turn(tasks, ready, init);
        assert(!init.contains(id)) by {
            if init.contains(id) {
                let i = choose|i: int| 0 <= i < init.len() && init[i] == id;
                assert(ids[i] == ids[ids.len() - 1]);
            }
        }
        assert(TaskId(id.0) == id);
        assert(t0.contains_key(id.0));
        crate::scheduler::task::priority_queue::lemma_pushed(q0, id, t0[id.0].prio.0 as int);
        assert forall|x: TaskId| ids.contains(x) <==> (x == id || init.contains(x)) by {
            if ids.contains(x) {
                let i = choose|i: int| 0 <= i < ids.len() && ids[i] == x;
                if i < init.len() {
                    assert(init[i] == x);
                }
            }
            if init.contains(x) {
                let i = choose|i: int| 0 <= i < init.len() && init[i] == x;
                assert(ids[i] == x);
            }
        }
    }
}

/// Waking the tasks whose time has elapsed keeps the invariant, and leaves no
/// such task blocked.
pub proof fn lemma_elapsed_woken(c: CoreState, time: u64)
    requires
        crate::scheduler::state::inv(c),
    ensures
        crate::scheduler::state::inv(elapsed_woken(c, time)),
        forall|i: int|
            0 <= i < elapsed_woken(c, time).blocked.len() ==> !crate::scheduler::task::blocked::due(
                #[trigger] elapsed_woken(c, time).blocked[i],
                time,
            ),
{
    let d = elapsed_woken(c, time);
    let ids = crate::scheduler::task::blocked::due_tasks(c.blocked, time);
    crate::scheduler::task::blocked::lemma_due_split(c.blocked, time);
    assert forall|i: int| 0 <= i < ids.len() implies {
        let id = #[trigger] ids[i];
        &&& c.tasks.contains_key(id.0)
        &&& c.tasks[id.0].status == TaskStatus::Blocked
        &&& c.tasks[id.0].frame_location != FrameLocation::BeingEvicted
        &&& c.tasks[id.0].prio.0 < NO_PRIORITIES
        &&& !crate::scheduler::task::priority_queue::queued(c.ready, id)
    } by {
        let id = ids[i];
        assert(ids.contains(id));
        assert(crate::scheduler::task::blocked::names(c.blocked, id));
        assert(crate::scheduler::state::task_ok(c, id.0));
    }
    lemma_woken_in_turn(c.tasks, c.ready, ids);
    assert forall|k: i32| #[trigger] d.tasks.contains_key(k) implies
        crate::scheduler::state::task_ok(d, k) && crate::scheduler::state::status_ok(d, k)
        && crate::scheduler::state::slot_ok(d, k) && crate::scheduler::state::frames_ok(d, k) by {
        assert(c.tasks.contains_key(k));
        assert(crate::scheduler::state::task_ok(c, k) && crate::scheduler::state::status_ok(c, k)
            && crate::scheduler::state::slot_ok(c, k) && crate::scheduler::state::frames_ok(c, k));
        assert(crate::scheduler::task::blocked::names(c.blocked, TaskId(k)) <==> (
        crate::scheduler::task::blocked::names(d.blocked, TaskId(k)) || ids.contains(TaskId(k))));
    }
    assert forall|x: TaskId| ids.contains(x) implies c.tasks.contains_key(x.0)
        && c.tasks[x.0].status == TaskStatus::Blocked by {
        let i = choose|i: int| 0 <= i < ids.len() && ids[i] == x;
        assert(c.tasks.contains_key(ids[i].0));
    }
    assert forall|x: TaskId| c.tasks.contains_key(x.0) implies #[trigger] d.tasks.contains_key(x.0)
        && d.tasks[x.0] == (if ids.contains(x) {
        Task { status: TaskStatus::Ready, ..c.tasks[x.0] }
    } else {
        c.tasks[x.0]
    }) by {
        assert(TaskId(x.0) == x);
    }
    assert(crate::scheduler::state::queues_ok(d)) by {
        assert forall|t: TaskId| #[trigger]
            crate::scheduler::task::priority_queue::queued(d.ready, t) implies d.tasks.contains_key(
            t.0,
        ) && d.tasks[t.0].status == TaskStatus::Ready by {
            if ids.contains(t) {
                assert(c.tasks.contains_key(t.0));
                assert(d.tasks.contains_key(t.0));
            } else {
                assert(crate::scheduler::task::priority_queue::queued(c.ready, t));
                assert(c.tasks.contains_key(t.0));
                assert(d.tasks.contains_key(t.0));
            }
        }
        assert forall|t: TaskId| #[trigger]
            crate::scheduler::task::blocked::names(d.blocked, t) implies d.tasks.contains_key(t.0)
            && d.tasks[t.0].status == TaskStatus::Blocked by {
            assert(crate::scheduler::task::blocked::names(c.blocked, t));
            assert(c.tasks.contains_key(t.0));
            assert(!ids.contains(t));
            assert(d.tasks.contains_key(t.0));
        }
        assert forall|t: TaskId| #[trigger] d.finished.contains(t) implies d.tasks.contains_key(t.0)
            && d.tasks[t.0].status == TaskStatus::Invalid by {
            assert(c.finished.contains(t));
            assert(c.tasks.contains_key(t.0));
            assert(!ids.contains(t));
            assert(d.tasks.contains_key(t.0));
        }
    }
    assert(TaskId(c.current.0) == c.current);
    assert(d.tasks.contains_key(c.current.0));
    assert(d.tasks.contains_key(c.idle.0));
    assert(d.tasks.contains_key(c.fpu_owner.0));
}

impl PerCoreScheduler {
    /// Blocks the running task until `wakeup_time` microseconds, or without
    /// limit.
    pub fn block_current_task(&mut self, machine: &Machine, wakeup_time: Option<u64>)
        requires
            old(self).wf(machine),
            old(self).tasks@[old(self).current_task.0].status == TaskStatus::Running,
        ensures
            final(self).wf(machine),
            final(self).state(machine) == current_blocked(old(self).state(machine), wakeup_time),
    {
        let ghost c = self.state(machine);
        proof {
            lemma_current_blocked(c, wakeup_time);
            assert(crate::scheduler::state::task_ok(c, c.current.0));
        }
        let mut current: Task = self.tasks.take(self.current_task);
        let timer: Option<u64> = self.blocked_tasks.add(&mut current, wakeup_time);
        self.tasks.put(current);
        match timer {
            Some(t) => {
                self.timer_requests.push(t);
            },
            None => {},
        }
        let ghost d = current_blocked(c, wakeup_time);
        assert(self.tasks@ =~= d.tasks);
        assert(self.state(machine) =~= d);
    }

    /// Wakes a blocked task of this core by hand.
    pub fn wake_local(&mut self, machine: &Machine, task: TaskHandle)
        requires
            old(self).wf(machine),
            crate::scheduler::task::blocked::names(old(self).blocked_tasks@, task.id),
        ensures
            final(self).wf(machine),
            final(self).state(machine) == hand_woken(old(self).state(machine), task.id),
    {
        let ghost c = self.state(machine);
        proof {
            lemma_hand_woken(c, task.id);
            assert(c.tasks.contains_key(task.id.0));
            assert(crate::scheduler::state::task_ok(c, task.id.0));
        }
        let (id, completed, timer) = self.blocked_tasks.custom_wakeup(
            &mut self.tasks,
            task,
            self.core_id,
        );
        if completed {
            let prio = self.tasks.get(id).prio;
            self.ready_queue.push(id, prio);
        }
        match timer {
            Some(t) => {
                self.timer_requests.push(t);
            },
            None => {},
        }
        let ghost d = hand_woken(c, task.id);
        assert(self.tasks@ =~= d.tasks);
        assert(self.state(machine) =~= d);
    }

    /// Wakes every blocked task whose time has elapsed at `time`.
    pub fn wake_pending_tasks(&mut self, machine: &Machine, time: u64)
        requires
            old(self).wf(machine),
        ensures
            final(self).wf(machine),
            final(self).state(machine) == elapsed_woken(old(self).state(machine), time),
    {
        let ghost c = self.state(machine);
        proof {
            lemma_elapsed_woken(c, time);
            assert forall|i: int| 0 <= i < self.blocked_tasks@.len() implies {
                let id = (#[trigger] self.blocked_tasks@[i]).task;
                &&& self.tasks@.contains_key(id.0)
                &&& self.tasks@[id.0].id == id
                &&& self.tasks@[id.0].prio.0 < NO_PRIORITIES
                &&& crate::scheduler::task::blocked::wakeable(self.tasks@[id.0], self.core_id)
            } by {
                let id = self.blocked_tasks@[i].task;
                assert(crate::scheduler::task::blocked::names(c.blocked, id));
                assert(crate::scheduler::state::task_ok(c, id.0));
            }
        }
        let timer: Option<u64> = self.blocked_tasks.handle_waiting_tasks(
            &mut self.tasks,
            &mut self.ready_queue,
            time,
            self.core_id,
        );
        match timer {
            Some(t) => {
                self.timer_requests.push(t);
            },
            None => {},
        }
        assert(self.state(machine) =~= elapsed_woken(c, time));
    }

    /// Whether this core drains the executor when asked to: only the core that
    /// does input and output does.
    pub fn drains_executor(&self, drain_exec: bool) -> (r: bool)
        ensures
            r == (drain_exec && self.core_id == 0),
    {
        drain_exec && self.core_id == 0
    }

    /// Wakes every blocked task whose time has elapsed at `time`. Returns
    /// whether the executor is to be drained first, which only the core that
    /// does input and output does.
    pub fn handle_waiting_tasks(&mut self, machine: &Machine, time: u64) -> (r: bool)
        requires
            old(self).wf(machine),
        ensures
            final(self).wf(machine),
            final(self).state(machine) == elapsed_woken(old(self).state(machine), time),
            r == (old(self).core_id == 0),
    {
        let drain: bool = self.drains_executor(true);
        self.wake_pending_tasks(machine, time);
        drain
    }
}

} // verus!
