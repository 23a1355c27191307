//! What the operations of a core's scheduler do, told by the tasks and queues
//! before and after.

use vstd::prelude::*;

use crate::arch::aarch64::kernel::stacks::{PageMapping, TaskStacks};
use crate::memory::Memory;
use crate::scheduler::boot::IdleTurn;
use crate::scheduler::input::JoinStep;
use crate::scheduler::per_core::{Machine, PerCoreScheduler, Rescheduled};
use crate::scheduler::registry::{
    NewTask, Provided, RegistryState, SchedulerInput, TaskRegistry,
};
use crate::scheduler::spawn::Child;
use crate::scheduler::state::CoreState;
use crate::scheduler::supervisor::{EntryPointId, RestartEntry, RestartTable};
use crate::scheduler::task::blocked;
use crate::scheduler::task::blocked::BlockedTask;
use crate::scheduler::task::handle::TaskHandle;
use crate::scheduler::task::priority_queue;
use crate::scheduler::task::{FpuState, FrameLocation, Priority, Task, TaskId, TaskStatus, NO_PRIORITIES};
use crate::scheduler::{
    boot, control, exit, input, objects, registry, spawn, state, supervisor, wake,
};

verus! {

/// Every task in a ready queue has the priority that the queue is for.
pub open spec fn filed(c: CoreState) -> bool {
    forall|p: int, i: int|
        0 <= p < c.ready.len() && 0 <= i < c.ready[p].len() ==> c.tasks[(
        #[trigger] c.ready[p][i]).0].prio.0 == p
}

/// Whether only what the tasks, queues and timers are differs between `c` and `d`.
pub open spec fn same_core(c: CoreState, d: CoreState) -> bool {
    &&& d.core_id == c.core_id
    &&& d.current == c.current
    &&& d.idle == c.idle
    &&& d.fpu_owner == c.fpu_owner
    &&& d.finished == c.finished
    &&& d.kernel_sp == c.kernel_sp
    &&& d.slot_base == c.slot_base
    &&& d.owners == c.owners
    &&& d.words == c.words
}

/// Whether the tasks other than `id` are the same in `c` and `d`.
pub open spec fn others_kept(c: CoreState, d: CoreState, id: TaskId) -> bool {
    &&& forall|k: i32| #[trigger] d.tasks.contains_key(k) <==> c.tasks.contains_key(k)
    &&& forall|k: i32| #[trigger]
        c.tasks.contains_key(k) && k != id.0 ==> d.tasks[k] == c.tasks[k]
}

/// Whether only the status of the task `id` differs between `c` and `d`.
pub open spec fn status_changed(
    c: CoreState,
    d: CoreState,
    id: TaskId,
    status: TaskStatus,
) -> bool {
    &&& others_kept(c, d, id)
    &&& d.tasks[id.0].status == status
    &&& d.tasks[id.0] == (Task { status, ..c.tasks[id.0] })
}

/// Whether the first of two wakeup times is not after the second; a task without
/// one comes last.
pub open spec fn not_after(a: Option<u64>, b: Option<u64>) -> bool {
    match (a, b) {
        (_, None) => true,
        (None, Some(_)) => false,
        (Some(x), Some(y)) => x <= y,
    }
}

/// A task that blocks itself stops being the one that can run and nothing else
/// about it changes; it waits behind all tasks that wake up no later than it and
/// before all that wake up later, and the timer is set for it.
pub proof fn lemma_block_effect(c: CoreState, wakeup_time: Option<u64>)
    requires
        state::inv(c),
        c.tasks[c.current.0].status == TaskStatus::Running,
    ensures
        ({
            let d = wake::current_blocked(c, wakeup_time);
            &&& same_core(c, d)
            &&& d.ready == c.ready
            &&& status_changed(c, d, c.current, TaskStatus::Blocked)
            &&& exists|i: int| #[trigger]
                is_inserted(c.blocked, d.blocked, i, c.current, wakeup_time)
            &&& wakeup_time matches Some(t) ==> d.timers == c.timers.push(t)
            &&& wakeup_time is None ==> d.timers == c.timers
        }),
{
    let d = wake::current_blocked(c, wakeup_time);
    let i = blocked::insert_index(c.blocked, wakeup_time);
    blocked::lemma_insert_index_is(c.blocked, wakeup_time);
    let node = d.blocked[i];
    assert(d.blocked.remove(i) =~= c.blocked);
    assert(is_inserted(c.blocked, d.blocked, i, c.current, wakeup_time));
}

/// Whether `after` is `before` with a node for `task` at `i`, which lies behind the
/// nodes that wake up no later and before those that wake up later.
pub open spec fn is_inserted(
    before: Seq<BlockedTask>,
    after: Seq<BlockedTask>,
    i: int,
    task: TaskId,
    wakeup_time: Option<u64>,
) -> bool {
    &&& 0 <= i < after.len()
    &&& after.remove(i) == before
    &&& after[i].task == task
    &&& after[i].wakeup_time == wakeup_time
    &&& forall|j: int|
        0 <= j < i ==> not_after((#[trigger] after[j]).wakeup_time, wakeup_time)
    &&& forall|j: int|
        i < j < after.len() ==> !not_after((#[trigger] after[j]).wakeup_time, wakeup_time)
}

/// A task that is woken by hand is last in the ready queue of its own priority, and
/// no longer blocked; nothing else about it changes, nor about the other tasks. If it
/// was the first that was to wake up, the timer is set for the next one.
pub proof fn lemma_wake_effect(c: CoreState, id: TaskId)
    requires
        state::inv(c),
        blocked::names(c.blocked, id),
    ensures
        ({
            let d = wake::hand_woken(c, id);
            let p = c.tasks[id.0].prio.0 as int;
            &&& same_core(c, d)
            &&& status_changed(c, d, id, TaskStatus::Ready)
            &&& d.ready.len() == c.ready.len()
            &&& d.ready[p] == c.ready[p].push(id)
            &&& forall|q: int|
                0 <= q < c.ready.len() && q != p ==> #[trigger] d.ready[q] == c.ready[q]
            &&& exists|i: int| #[trigger] is_taken_out(c.blocked, d.blocked, i, id)
            &&& c.blocked[0].task == id && c.blocked.len() > 1 && c.blocked[1].wakeup_time is Some
                ==> d.timers == c.timers.push(c.blocked[1].wakeup_time->0)
            &&& !(c.blocked[0].task == id && c.blocked.len() > 1 && c.blocked[1].wakeup_time is Some)
                ==> d.timers == c.timers
        }),
{
    let d = wake::hand_woken(c, id);
    blocked::lemma_position_is(c.blocked, id);
    let pos = blocked::position(c.blocked, id);
    assert(c.tasks.contains_key(id.0));
    assert(state::task_ok(c, id.0));
    assert(is_taken_out(c.blocked, d.blocked, pos, id));
    if c.blocked[0].task == id {
        assert(c.blocked[pos].task == c.blocked[0].task);
        assert(pos == 0);
    }
    if d.blocked.len() > 0 && pos == 0 {
        assert(d.blocked[0] == c.blocked[1]);
    }
}

/// Whether `after` is `before` without the node at `i`, which is that of `task`.
pub open spec fn is_taken_out(
    before: Seq<BlockedTask>,
    after: Seq<BlockedTask>,
    i: int,
    task: TaskId,
) -> bool {
    &&& 0 <= i < before.len()
    &&& before[i].task == task
    &&& after == before.remove(i)
}

/// Blocking a task leaves every ready task in the queue of its priority.
pub proof fn lemma_block_keeps_filed(c: CoreState, wakeup_time: Option<u64>)
    requires
        state::inv(c),
        filed(c),
        c.tasks[c.current.0].status == TaskStatus::Running,
    ensures
        filed(wake::current_blocked(c, wakeup_time)),
{
    let d = wake::current_blocked(c, wakeup_time);
    assert forall|p: int, i: int| 0 <= p < d.ready.len() && 0 <= i < d.ready[p].len() implies d.tasks[(
    #[trigger] d.ready[p][i]).0].prio.0 == p by {
        assert(c.ready[p][i] == d.ready[p][i]);
    }
}

/// Waking a task by hand leaves every ready task in the queue of its priority.
pub proof fn lemma_wake_keeps_filed(c: CoreState, id: TaskId)
    requires
        state::inv(c),
        filed(c),
        blocked::names(c.blocked, id),
    ensures
        filed(wake::hand_woken(c, id)),
{
    let d = wake::hand_woken(c, id);
    lemma_wake_effect(c, id);
    assert(c.tasks.contains_key(id.0));
    assert(state::task_ok(c, id.0));
    lemma_filed_after_push(c, d, id);
}

/// A queue to whose back a task was added is still filed, if that is the queue of the
/// task's priority and the priorities are kept.
proof fn lemma_filed_after_push(c: CoreState, d: CoreState, id: TaskId)
    requires
        state::queues_ok(c),
        filed(c),
        d.tasks.contains_key(id.0),
        d.tasks[id.0].prio.0 < NO_PRIORITIES,
        forall|k: i32| #[trigger]
            c.tasks.contains_key(k) ==> d.tasks[k].prio == c.tasks[k].prio,
        d.ready.len() == c.ready.len(),
        d.ready[d.tasks[id.0].prio.0 as int] == c.ready[d.tasks[id.0].prio.0 as int].push(id),
        forall|q: int|
            0 <= q < c.ready.len() && q != d.tasks[id.0].prio.0 ==> #[trigger] d.ready[q]
                == c.ready[q],
    ensures
        filed(d),
{
    let p = d.tasks[id.0].prio.0 as int;
    assert forall|q: int, i: int| 0 <= q < d.ready.len() && 0 <= i < d.ready[q].len() implies d.tasks[(
    #[trigger] d.ready[q][i]).0].prio.0 == q by {
        if q == p && i == c.ready[p].len() {
        } else {
            assert(d.ready[q][i] == c.ready[q][i]);
            assert(priority_queue::queued(c.ready, c.ready[q][i]));
        }
    }
}

/// Whether the time at which a blocked task is to wake up lies before `time`.
pub open spec fn elapsed(node: BlockedTask, time: u64) -> bool {
    node.wakeup_time matches Some(w) && w < time
}

/// The tasks of a list that have the priority `p`, in the order of the list.
pub open spec fn of_priority(ids: Seq<TaskId>, tasks: Map<i32, Task>, p: int) -> Seq<TaskId>
    decreases ids.len(),
{
    if ids.len() == 0 {
        Seq::empty()
    } else if tasks[ids.last().0].prio.0 == p {
        of_priority(ids.drop_last(), tasks, p).push(ids.last())
    } else {
        of_priority(ids.drop_last(), tasks, p)
    }
}

/// The tasks of the first `n` nodes.
pub open spec fn first_tasks(list: Seq<BlockedTask>, n: int) -> Seq<TaskId> {
    Seq::new(n as nat, |i: int| list[i].task)
}

/// The tasks whose time has elapsed are the first ones of a sorted list.
proof fn lemma_due_prefix(list: Seq<BlockedTask>, time: u64) -> (n: int)
    requires
        blocked::sorted(list),
    ensures
        0 <= n <= list.len(),
        forall|i: int| 0 <= i < n ==> elapsed(#[trigger] list[i], time),
        forall|i: int| n <= i < list.len() ==> !elapsed(#[trigger] list[i], time),
        blocked::due_tasks(list, time) == first_tasks(list, n),
        blocked::not_due(list, time) == list.skip(n),
    decreases list.len(),
{
    if list.len() == 0 {
        assert(blocked::due_tasks(list, time) =~= first_tasks(list, 0));
        assert(blocked::not_due(list, time) =~= list.skip(0));
        0
    } else {
        let init = list.drop_last();
        assert(blocked::sorted(init)) by {
            assert forall|i: int, j: int| 0 <= i <= j < init.len() implies blocked::wakes_at(
                #[trigger] init[i],
            ) <= blocked::wakes_at(#[trigger] init[j]) by {
                assert(init[i] == list[i] && init[j] == list[j]);
            }
        }
        let m = lemma_due_prefix(init, time);
        assert forall|i: int| 0 <= i < init.len() implies #[trigger] init[i] == list[i] by {}
        if elapsed(list.last(), time) {
            if m < init.len() {
                assert(blocked::wakes_at(list[m]) <= blocked::wakes_at(list[list.len() - 1]));
                assert(!elapsed(init[m], time));
            }
            let n = list.len() as int;
            assert forall|i: int| 0 <= i < n implies elapsed(#[trigger] list[i], time) by {
                if i < m {
                    assert(elapsed(init[i], time));
                }
            }
            assert(blocked::due_tasks(list, time) =~= first_tasks(list, n));
            assert(blocked::not_due(list, time) =~= list.skip(n));
            n
        } else {
            assert forall|i: int| 0 <= i < m implies elapsed(#[trigger] list[i], time) by {
                assert(elapsed(init[i], time));
            }
            assert forall|i: int| m <= i < list.len() implies !elapsed(#[trigger] list[i], time) by {
                if i < init.len() {
                    assert(!elapsed(init[i], time));
                }
            }
            assert(blocked::due_tasks(list, time) =~= first_tasks(list, m));
            assert(blocked::not_due(list, time) =~= list.skip(m));
            m
        }
    }
}

/// Tasks that are woken in turn join the queues of their priorities in that turn.
proof fn lemma_woken_queues(
    tasks: Map<i32, Task>,
    ready: Seq<Seq<TaskId>>,
    ids: Seq<TaskId>,
    p: int,
)
    requires
        ready.len() == NO_PRIORITIES,
        0 <= p < NO_PRIORITIES,
        ids.no_duplicates(),
        forall|i: int|
            0 <= i < ids.len() ==> {
                let id = #[trigger] ids[i];
                &&& tasks.contains_key(id.0)
                &&& blocked::wakes(tasks[id.0])
                &&& tasks[id.0].prio.0 < NO_PRIORITIES
            },
    ensures
        ({
            let (t, q) = blocked::woken_in_turn(tasks, ready, ids);
            &&& q.len() == NO_PRIORITIES
            &&& q[p] == ready[p] + of_priority(ids, tasks, p)
            &&& forall|k: i32| #[trigger]
                tasks.contains_key(k) && !ids.contains(TaskId(k)) ==> t[k] == tasks[k]
        }),
    decreases ids.len(),
{
    if ids.len() == 0 {
        assert(ready[p] + of_priority(ids, tasks, p) =~= ready[p]);
    } else {
        let init = ids.drop_last();
        let id = ids.last();
        assert(ids[ids.len() - 1] == id);
        assert forall|i: int| 0 <= i < init.len() implies {
            let x = #[trigger] init[i];
            &&& tasks.contains_key(x.0)
            &&& blocked::wakes(tasks[x.0])
            &&& tasks[x.0].prio.0 < NO_PRIORITIES
        } by {
            assert(ids[i] == init[i]);
        }
        lemma_woken_queues(tasks, ready, init, p);
        let (t0, q0) = blocked::woken_in_turn(tasks, ready, init);
        assert(!init.contains(id)) by {
            if init.contains(id) {
                let i = choose|i: int| 0 <= i < init.len() && init[i] == id;
                assert(ids[i] == ids[ids.len() - 1]);
            }
        }
        assert(TaskId(id.0) == id);
        assert(t0[id.0] == tasks[id.0]);
        let (t, q) = blocked::woken_in_turn(tasks, ready, ids);
        assert(q[p] =~= ready[p] + of_priority(ids, tasks, p));
        assert forall|k: i32| #[trigger]
            tasks.contains_key(k) && !ids.contains(TaskId(k)) implies t[k] == tasks[k] by {
            assert(!init.contains(TaskId(k))) by {
                if init.contains(TaskId(k)) {
                    let i = choose|i: int| 0 <= i < init.len() && init[i] == TaskId(k);
                    assert(ids[i] == TaskId(k));
                }
            }
            assert(k != id.0) by {
                assert(ids.contains(id));
            }
        }
    }
}

/// Whether exactly the tasks of the first `n` blocked nodes were woken between `c` and
/// `d`: they are ready, and joined the queues of their own priorities in the order in
/// which they were to wake up. Nothing else about them changed, nor about the others.
pub open spec fn first_woken(c: CoreState, d: CoreState, n: int) -> bool {
    &&& 0 <= n <= c.blocked.len()
    &&& d.blocked == c.blocked.skip(n)
    &&& forall|k: i32| #[trigger] d.tasks.contains_key(k) <==> c.tasks.contains_key(k)
    &&& forall|i: int|
        0 <= i < n ==> {
            let k = (#[trigger] c.blocked[i]).task.0;
            &&& d.tasks[k].status == TaskStatus::Ready
            &&& d.tasks[k] == (Task { status: TaskStatus::Ready, ..c.tasks[k] })
        }
    &&& forall|k: i32| #[trigger]
        c.tasks.contains_key(k) && !first_tasks(c.blocked, n).contains(TaskId(k)) ==> d.tasks[k]
            == c.tasks[k]
    &&& d.ready.len() == c.ready.len()
    &&& forall|p: int|
        0 <= p < NO_PRIORITIES ==> #[trigger] d.ready[p] == c.ready[p] + of_priority(
            first_tasks(c.blocked, n),
            c.tasks,
            p,
        )
}

/// When time goes on to `time`, exactly the tasks whose wakeup time lies before it are
/// woken, and the timer is set for the first of those that still wait for a time.
#[verifier::spinoff_prover]
#[verifier::rlimit(60)]
pub proof fn lemma_elapsed_effect(c: CoreState, time: u64)
    requires
        state::inv(c),
    ensures
        ({
            let d = wake::elapsed_woken(c, time);
            &&& same_core(c, d)
            &&& exists|n: int| #[trigger]
                first_woken(c, d, n) && (forall|i: int|
                    0 <= i < c.blocked.len() ==> (i < n <==> elapsed(#[trigger] c.blocked[i], time)))
            &&& d.blocked.len() > 0 && d.blocked[0].wakeup_time is Some ==> d.timers
                == c.timers.push(d.blocked[0].wakeup_time->0)
            &&& !(d.blocked.len() > 0 && d.blocked[0].wakeup_time is Some) ==> d.timers == c.timers
        }),
{
    let d = wake::elapsed_woken(c, time);
    let n = lemma_due_prefix(c.blocked, time);
    let ids = first_tasks(c.blocked, n);
    lemma_first_tasks_blocked(c, n);
    assert forall|p: int| 0 <= p < NO_PRIORITIES implies #[trigger] d.ready[p] == c.ready[p]
        + of_priority(ids, c.tasks, p) by {
        lemma_woken_queues(c.tasks, c.ready, ids, p);
    }
    lemma_woken_queues(c.tasks, c.ready, ids, 0);
    wake::lemma_woken_in_turn(c.tasks, c.ready, ids);
    assert forall|i: int| 0 <= i < n implies {
        let k = (#[trigger] c.blocked[i]).task.0;
        &&& d.tasks[k].status == TaskStatus::Ready
        &&& d.tasks[k] == (Task { status: TaskStatus::Ready, ..c.tasks[k] })
    } by {
        let id = c.blocked[i].task;
        assert(ids[i] == id);
        assert(ids.contains(id));
        assert(TaskId(id.0) == id);
        assert(d.tasks.contains_key(id.0));
    }
    assert(first_woken(c, d, n));
}

/// The tasks of the first blocked nodes can be woken in turn.
proof fn lemma_first_tasks_blocked(c: CoreState, n: int)
    requires
        state::inv(c),
        0 <= n <= c.blocked.len(),
    ensures
        first_tasks(c.blocked, n).no_duplicates(),
        forall|i: int|
            0 <= i < n ==> {
                let id = #[trigger] first_tasks(c.blocked, n)[i];
                &&& c.tasks.contains_key(id.0)
                &&& c.tasks[id.0].status == TaskStatus::Blocked
                &&& c.tasks[id.0].frame_location
                    != FrameLocation::BeingEvicted
                &&& blocked::wakes(c.tasks[id.0])
                &&& c.tasks[id.0].prio.0 < NO_PRIORITIES
                &&& !priority_queue::queued(c.ready, id)
            },
{
    let ids = first_tasks(c.blocked, n);
    assert forall|i: int, j: int| 0 <= i < ids.len() && 0 <= j < ids.len() && i != j implies ids[i]
        != ids[j] by {
        if i < j {
            assert(c.blocked[i].task != c.blocked[j].task);
        } else {
            assert(c.blocked[j].task != c.blocked[i].task);
        }
    }
    assert forall|i: int| 0 <= i < n implies {
        let id = #[trigger] ids[i];
        &&& c.tasks.contains_key(id.0)
        &&& c.tasks[id.0].status == TaskStatus::Blocked
        &&& c.tasks[id.0].frame_location != FrameLocation::BeingEvicted
        &&& blocked::wakes(c.tasks[id.0])
        &&& c.tasks[id.0].prio.0 < NO_PRIORITIES
        &&& !priority_queue::queued(c.ready, id)
    } by {
        let id = c.blocked[i].task;
        assert(blocked::names(c.blocked, id));
        assert(state::task_ok(c, id.0));
    }
}

/// The tasks of a list with a priority have that priority.
proof fn lemma_of_priority(ids: Seq<TaskId>, tasks: Map<i32, Task>, p: int)
    ensures
        forall|i: int|
            0 <= i < of_priority(ids, tasks, p).len() ==> tasks[(#[trigger] of_priority(
                ids,
                tasks,
                p,
            )[i]).0].prio.0 == p,
    decreases ids.len(),
{
    if ids.len() > 0 {
        lemma_of_priority(ids.drop_last(), tasks, p);
    }
}

/// Waking the tasks whose time has elapsed leaves every ready task in the queue of its
/// priority.
pub proof fn lemma_elapsed_keeps_filed(c: CoreState, time: u64)
    requires
        state::inv(c),
        filed(c),
    ensures
        filed(wake::elapsed_woken(c, time)),
{
    let d = wake::elapsed_woken(c, time);
    lemma_elapsed_effect(c, time);
    wake::lemma_elapsed_woken(c, time);
    let n = choose|n: int| #[trigger]
        first_woken(c, d, n) && (forall|i: int|
            0 <= i < c.blocked.len() ==> (i < n <==> elapsed(#[trigger] c.blocked[i], time)));
    let ids = first_tasks(c.blocked, n);
    assert forall|k: i32| #[trigger] c.tasks.contains_key(k) implies d.tasks[k].prio
        == c.tasks[k].prio by {
        if ids.contains(TaskId(k)) {
            let i = choose|i: int| 0 <= i < ids.len() && ids[i] == TaskId(k);
            assert(c.blocked[i].task.0 == k);
        }
    }
    assert forall|p: int, i: int| 0 <= p < d.ready.len() && 0 <= i < d.ready[p].len() implies d.tasks[(
    #[trigger] d.ready[p][i]).0].prio.0 == p by {
        let id = d.ready[p][i];
        lemma_of_priority(ids, c.tasks, p);
        assert(priority_queue::queued(d.ready, id));
        assert(d.tasks.contains_key(id.0));
        assert(c.tasks.contains_key(id.0));
        if i < c.ready[p].len() {
            assert(c.ready[p][i] == id);
        } else {
            assert(of_priority(ids, c.tasks, p)[i - c.ready[p].len()] == id);
        }
    }
}

/// Whether `p` is the highest priority for which a task is ready.
pub open spec fn is_top(c: CoreState, p: int) -> bool {
    &&& 0 <= p < NO_PRIORITIES
    &&& c.ready[p].len() > 0
    &&& forall|q: int| p < q < NO_PRIORITIES ==> (#[trigger] c.ready[q]).len() == 0
}

/// Who runs once the scheduler ran: of the ready tasks the one that waited longest at
/// the highest priority, unless the running task can go on and has a higher priority.
/// If no task is ready, a task that can go on does, and the idle task runs otherwise.
pub proof fn lemma_who_runs(c: CoreState, now: u64)
    requires
        state::inv(c),
    ensures
        forall|p: int| #[trigger]
            is_top(c, p) ==> state::scheduled(c, now).current == (if c.tasks[c.current.0].status
                == TaskStatus::Running && p < c.tasks[c.current.0].prio.0 {
                c.current
            } else {
                c.ready[p][0]
            }),
        (forall|p: int| 0 <= p < NO_PRIORITIES ==> (#[trigger] c.ready[p]).len() == 0)
            ==> state::scheduled(c, now).current == (if c.tasks[c.current.0].status
            == TaskStatus::Running || c.tasks[c.current.0].status == TaskStatus::Idle {
            c.current
        } else {
            c.idle
        }),
{
    priority_queue::lemma_highest_below(c.ready, c.ready.len() as int);
    assert(state::status_ok(c, c.current.0));
    assert(!c.finished.contains(c.current));
    let r = state::reaped(c);
    assert(r.tasks[c.current.0] == c.tasks[c.current.0]);
    assert forall|p: int| #[trigger] is_top(c, p) implies priority_queue::highest(c.ready) == p by {
        priority_queue::lemma_highest_is(c.ready, p);
    }
}

/// Whether the scheduler dispatches a task: another one, or the one that ran if it was
/// woken before the core was handed over.
pub open spec fn dispatches(c: CoreState, now: u64) -> bool {
    state::scheduled(c, now).current != c.current || c.tasks[c.current.0].status
        == TaskStatus::Ready
}

/// Whether a task is the same apart from where its frame lies, and from its status and
/// when it was last dispatched.
pub open spec fn same_task(a: Task, b: Task) -> bool {
    b == (Task {
        status: b.status,
        last_stack_pointer: b.last_stack_pointer,
        frame_location: b.frame_location,
        slot: b.slot,
        wake_pending: b.wake_pending,
        last_touch: b.last_touch,
        ..a
    })
}

/// Whether the register frame of a task went from an exception slot back to its kernel
/// stack between `a` and `b`, and nothing else about the task changed.
pub open spec fn frame_moved_back(a: Task, b: Task) -> bool {
    &&& a.slot is Some
    &&& a.status == TaskStatus::Blocked
    &&& b.slot is None
    &&& b.frame_location == FrameLocation::Evicted
    &&& b.last_stack_pointer == a.stacks.kernel_stack() + a.stacks.kernel_stack_size() - 16 - 288
    &&& !b.wake_pending
    &&& b.status == a.status
    &&& b.last_touch == a.last_touch
    &&& same_task(a, b)
}

/// When the scheduler dispatches a task, the kernel stack pointer is the
/// end of that task's kernel stack: its base plus its size. The task is running, or
/// idle if it is the idle task, and was dispatched at `now` microseconds. Nothing but
/// that and the place of its frame changes about it.
pub proof fn lemma_switch_effect(c: CoreState, now: u64)
    requires
        state::inv(c),
        dispatches(c, now),
    ensures
        ({
            let s = state::scheduled(c, now);
            let before = c.tasks[s.current.0];
            let after = s.tasks[s.current.0];
            &&& c.tasks.contains_key(s.current.0)
            &&& s.tasks.contains_key(s.current.0)
            &&& s.kernel_sp == before.stacks.kernel_stack() + before.stacks.kernel_stack_size()
            &&& same_task(before, after)
            &&& after.status == (if s.current == c.idle {
                TaskStatus::Idle
            } else {
                TaskStatus::Running
            })
            &&& after.last_touch@ == now * 1_000
            &&& after.last_touch.wf()
        }),
{
    let s = state::scheduled(c, now);
    let status = c.tasks[c.current.0].status;
    let n = s.current;
    lemma_switch_parts(c, now);
    let r = state::reaped(c);
    let d = state::retired(r);
    let e = state::handed_over(d, status, n);
    assert(state::task_ok(e, n.0));
    assert(!c.finished.contains(n));
    assert(TaskId(n.0) == n);
    assert(r.tasks[n.0] == c.tasks[n.0]);
    assert(state::status_ok(c, c.idle.0));
    assert(state::task_ok(c, n.0));
}

/// What is known at each step when the scheduler hands the core over.
proof fn lemma_switch_parts(c: CoreState, now: u64)
    requires
        state::inv(c),
        dispatches(c, now),
    ensures
        ({
            let s = state::scheduled(c, now);
            let status = c.tasks[c.current.0].status;
            let n = s.current;
            let r = state::reaped(c);
            let d = state::retired(r);
            let e = state::handed_over(d, status, n);
            &&& r.tasks[c.current.0] == c.tasks[c.current.0]
            &&& !c.finished.contains(c.current)
            &&& !c.finished.contains(n)
            &&& c.tasks.contains_key(n.0)
            &&& state::inv(r)
            &&& state::consistent(d)
            &&& state::inv(e)
            &&& state::next_task(d, status) == Some(n)
            &&& s == state::switched(d, status, n, now)
            &&& state::consistent(state::slot_ensured(e, n, now))
            &&& state::live(e.tasks[n.0])
            &&& e.tasks.contains_key(n.0)
            &&& !blocked::names(e.blocked, n)
            &&& n == c.idle || (priority_queue::queued(c.ready, n) && c.tasks[n.0].status
                == TaskStatus::Ready)
            &&& n == c.idle ==> c.tasks[n.0].status == TaskStatus::Idle
        }),
{
    let s = state::scheduled(c, now);
    let status = c.tasks[c.current.0].status;
    assert(state::status_ok(c, c.current.0));
    assert(state::status_ok(c, c.idle.0));
    assert(!c.finished.contains(c.current));
    assert(!c.finished.contains(c.idle));
    let r = state::reaped(c);
    state::lemma_reaped(c);
    let d = state::retired(r);
    state::lemma_retired(r);
    assert(r.tasks[c.current.0] == c.tasks[c.current.0]);
    let n = state::next_task(d, status)->0;
    priority_queue::lemma_highest_below(d.ready, d.ready.len() as int);
    if state::preempts(d, status) {
        let top = priority_queue::highest(d.ready);
        assert(c.ready[top][0] == n);
        assert(priority_queue::queued(c.ready, n));
        assert(!c.finished.contains(n));
    }
    assert(c.tasks.contains_key(n.0));
    state::lemma_handed_over(d, status, n);
    let e = state::handed_over(d, status, n);
    state::lemma_slot_ensured(e, n, now);
}

/// What becomes of the tasks that do not run next: those that ended before are gone,
/// and no other. The task that ran is ready again if it could have gone on, and waits
/// last at its own priority; it waits to be released if it ended; otherwise it stays as
/// it is. Every other task stays as it is, apart from one blocked task whose frame may
/// have to give up its exception slot.
#[verifier::spinoff_prover]
#[verifier::rlimit(60)]
pub proof fn lemma_switch_leaves(c: CoreState, now: u64, k: i32)
    requires
        state::inv(c),
        dispatches(c, now),
    ensures
        ({
            let s = state::scheduled(c, now);
            let ran = c.tasks[c.current.0];
            &&& s.tasks.contains_key(k) <==> c.tasks.contains_key(k) && !c.finished.contains(
                TaskId(k),
            )
            &&& s.tasks.contains_key(k) && k != s.current.0 && k != c.current.0 ==> s.tasks[k]
                == c.tasks[k] || frame_moved_back(c.tasks[k], s.tasks[k])
            &&& s.current != c.current ==> s.tasks[c.current.0].status == (match ran.status {
                TaskStatus::Running => TaskStatus::Ready,
                TaskStatus::Finished => TaskStatus::Invalid,
                other => other,
            })
            &&& same_task(ran, s.tasks[c.current.0])
            &&& s.finished == (if ran.status == TaskStatus::Finished {
                seq![c.current]
            } else {
                Seq::empty()
            })
            &&& s.fpu_owner == (if ran.status == TaskStatus::Finished && c.fpu_owner == c.current {
                c.idle
            } else {
                c.fpu_owner
            })
            &&& s.blocked == c.blocked
            &&& s.timers == c.timers
            &&& s.idle == c.idle
            &&& s.core_id == c.core_id
            &&& s.slot_base == c.slot_base
        }),
{
    let s = state::scheduled(c, now);
    let status = c.tasks[c.current.0].status;
    let n = s.current;
    lemma_switch_parts(c, now);
    let r = state::reaped(c);
    let d = state::retired(r);
    let e = state::handed_over(d, status, n);
    if k != n.0 {
        lemma_slot_others(e, n, now, k);
    }
    if c.current != n {
        lemma_slot_others(e, n, now, c.current.0);
    }
    state::lemma_slot_ensured(e, n, now);
    assert(TaskId(k).0 == k);
    assert(TaskId(c.current.0) == c.current);
    assert(s.finished =~= (if status == TaskStatus::Finished {
        seq![c.current]
    } else {
        Seq::empty()
    }));
    if k != n.0 && k != c.current.0 && c.tasks.contains_key(k) && !c.finished.contains(TaskId(k)) {
        assert(e.tasks[k] == c.tasks[k]);
    }
}

/// Seeing to the slot of one task leaves another as it is, or moves its frame back.
proof fn lemma_slot_others(c: CoreState, id: TaskId, now: u64, k: i32)
    requires
        state::consistent(c),
        c.tasks.contains_key(id.0),
        state::live(c.tasks[id.0]),
        !blocked::names(c.blocked, id),
        k != id.0,
    ensures
        ({
            let s = state::slot_ensured(c, id, now);
            &&& s.tasks.contains_key(k) <==> c.tasks.contains_key(k)
            &&& c.tasks.contains_key(k) ==> s.tasks[k] == c.tasks[k] || frame_moved_back(
                c.tasks[k],
                s.tasks[k],
            )
        }),
{
    state::lemma_slot_ensured(c, id, now);
    let t = state::touched(c, id, now);
    state::lemma_touched(c, id, now);
    let when = crate::duration::Duration::spec_from_micros(now);
    if let Some(v) = blocked::victim(c.blocked, t.tasks, when) {
        assert(blocked::is_victim(c.blocked, t.tasks, when, v));
        let id = c.blocked[v].task;
        assert(blocked::names(c.blocked, id));
        assert(t.tasks.contains_key(id.0));
        assert(state::task_ok(t, id.0));
    }
}

/// If the scheduler dispatches no task, nothing changes but that the tasks that
/// ended before are gone.
pub proof fn lemma_no_switch_effect(c: CoreState, now: u64)
    requires
        state::inv(c),
        !dispatches(c, now),
    ensures
        ({
            let s = state::scheduled(c, now);
            &&& forall|k: i32| #[trigger]
                s.tasks.contains_key(k) <==> c.tasks.contains_key(k) && !c.finished.contains(
                    TaskId(k),
                )
            &&& forall|k: i32| #[trigger] s.tasks.contains_key(k) ==> s.tasks[k] == c.tasks[k]
            &&& s == (CoreState { tasks: s.tasks, finished: Seq::empty(), ..c })
        }),
{
    let status = c.tasks[c.current.0].status;
    assert(state::status_ok(c, c.current.0));
    assert(state::status_ok(c, c.idle.0));
    assert(!c.finished.contains(c.current));
    let r = state::reaped(c);
    state::lemma_reaped(c);
    let d = state::retired(r);
    state::lemma_retired(r);
    assert(r.tasks[c.current.0] == c.tasks[c.current.0]);
    priority_queue::lemma_highest_below(d.ready, d.ready.len() as int);
    if let Some(n) = state::next_task(d, status) {
        if state::preempts(d, status) {
            let top = priority_queue::highest(d.ready);
            assert(c.ready[top][0] == n);
            assert(priority_queue::queued(c.ready, n));
        }
        assert(n != c.current);
    }
}

/// What becomes of the ready queues when the core is handed over: the task that runs
/// next was first in its queue and left it, and the task that ran is last in the queue
/// of its priority if it could have gone on. Nothing else changes in them.
pub proof fn lemma_switch_queues(c: CoreState, now: u64, p: int)
    requires
        state::inv(c),
        dispatches(c, now),
        0 <= p < NO_PRIORITIES,
    ensures
        ({
            let s = state::scheduled(c, now);
            let n = s.current;
            let left = if c.ready[p].len() > 0 && c.ready[p][0] == n {
                c.ready[p].drop_first()
            } else {
                c.ready[p]
            };
            &&& s.ready.len() == NO_PRIORITIES
            &&& s.ready[p] == (if c.tasks[c.current.0].status == TaskStatus::Running
                && c.tasks[c.current.0].prio.0 == p {
                left.push(c.current)
            } else {
                left
            })
            &&& n != c.idle ==> exists|q: int|
                0 <= q < NO_PRIORITIES && (#[trigger] c.ready[q]).len() > 0 && c.ready[q][0] == n
            &&& forall|i: int| 0 <= i < s.ready[p].len() ==> #[trigger] s.ready[p][i] != n
        }),
{
    let s = state::scheduled(c, now);
    let status = c.tasks[c.current.0].status;
    let n = s.current;
    lemma_switch_parts(c, now);
    let r = state::reaped(c);
    let d = state::retired(r);
    let e = state::handed_over(d, status, n);
    assert(state::task_ok(c, c.current.0));
    assert(state::status_ok(c, c.idle.0));
    priority_queue::lemma_highest_below(c.ready, c.ready.len() as int);
    let top = priority_queue::highest(c.ready);
    if n == c.idle {
        if priority_queue::queued(c.ready, n) {
            assert(c.tasks[n.0].status == TaskStatus::Ready);
        }
        assert(!priority_queue::queued(c.ready, n));
    } else {
        assert(state::preempts(d, status));
        assert(c.ready[top][0] == n);
        assert forall|q: int, i: int|
            0 <= q < c.ready.len() && 0 <= i < c.ready[q].len() && #[trigger] c.ready[q][i]
                == n implies q == top && i == 0 by {
            assert(c.ready[q][i] == c.ready[top][0]);
        }
    }
    if c.ready[p].len() > 0 && c.ready[p][0] == n {
        assert(priority_queue::queued(c.ready, c.ready[p][0]));
    }
    assert(s.ready == e.ready);
    let left = if c.ready[p].len() > 0 && c.ready[p][0] == n {
        c.ready[p].drop_first()
    } else {
        c.ready[p]
    };
    assert forall|i: int| 0 <= i < left.len() implies #[trigger] left[i] != n by {
        if c.ready[p].len() > 0 && c.ready[p][0] == n {
            assert(left[i] == c.ready[p][i + 1]);
        } else {
            assert(left[i] == c.ready[p][i]);
            assert(priority_queue::queued(c.ready, c.ready[p][i]));
        }
    }
}

/// Running the scheduler leaves every ready task in the queue of its priority.
pub proof fn lemma_schedule_keeps_filed(c: CoreState, now: u64)
    requires
        state::inv(c),
        filed(c),
    ensures
        filed(state::scheduled(c, now)),
{
    let s = state::scheduled(c, now);
    state::lemma_scheduled(c, now);
    if !dispatches(c, now) {
        lemma_no_switch_effect(c, now);
        assert forall|p: int, i: int|
            0 <= p < s.ready.len() && 0 <= i < s.ready[p].len() implies s.tasks[(
        #[trigger] s.ready[p][i]).0].prio.0 == p by {
            assert(c.ready[p][i] == s.ready[p][i]);
            assert(priority_queue::queued(s.ready, s.ready[p][i]));
            assert(s.tasks.contains_key(s.ready[p][i].0));
        }
    } else {
        assert forall|p: int, i: int|
            0 <= p < s.ready.len() && 0 <= i < s.ready[p].len() implies s.tasks[(
        #[trigger] s.ready[p][i]).0].prio.0 == p by {
            let t = s.ready[p][i];
            lemma_switch_queues(c, now, p);
            lemma_switch_leaves(c, now, t.0);
            assert(priority_queue::queued(s.ready, t));
            assert(s.tasks.contains_key(t.0));
            assert(t.0 != s.current.0) by {
                assert(s.ready[p][i] != s.current);
            }
            let gone: int = if c.ready[p].len() > 0 && c.ready[p][0] == s.current {
                1
            } else {
                0
            };
            if i + gone < c.ready[p].len() {
                assert(c.ready[p][i + gone] == t);
                assert(priority_queue::queued(c.ready, t));
                assert(c.tasks[t.0].status == TaskStatus::Ready);
                assert(state::status_ok(c, c.current.0));
                if t.0 == c.current.0 {
                    assert(priority_queue::queued(c.ready, t) && c.tasks[t.0].status
                        == TaskStatus::Ready);
                }
            }
        }
    }
}

/// When a task is to wake up, as a number; one without a time counts as the latest.
pub open spec fn wakes_as(node: BlockedTask) -> int {
    match node.wakeup_time {
        Some(w) => w as int,
        None => u64::MAX as int,
    }
}

/// Whether the blocked task at `k` can give up its exception slot at `now`
/// microseconds: its frame is in one, and it was not dispatched for ten milliseconds.
pub open spec fn can_give_up(c: CoreState, k: int, now: u64) -> bool {
    let task = c.tasks[c.blocked[k].task.0];
    &&& 0 <= k < c.blocked.len()
    &&& task.slot is Some
    &&& task.frame_location == FrameLocation::InSlot
    &&& now * 1_000 - task.last_touch@ >= 10_000_000
}

/// Whether the blocked task at `k` is the one to give up its slot: none of those that
/// can wakes up later, none that wakes up at the same time was dispatched earlier, and
/// none as good stands before it.
pub open spec fn gives_up(c: CoreState, k: int, now: u64) -> bool {
    &&& can_give_up(c, k, now)
    &&& forall|j: int| #[trigger]
        can_give_up(c, j, now) ==> {
            let mine = c.tasks[c.blocked[k].task.0].last_touch@;
            let other = c.tasks[c.blocked[j].task.0].last_touch@;
            &&& wakes_as(c.blocked[j]) <= wakes_as(c.blocked[k])
            &&& wakes_as(c.blocked[j]) == wakes_as(c.blocked[k]) ==> mine <= other
            &&& wakes_as(c.blocked[j]) == wakes_as(c.blocked[k]) && mine == other ==> k <= j
        }
}

/// Where the frame at the top of an exception slot lies: each core has three slots of
/// 64 KiB, each with a guard page behind it.
pub open spec fn top_frame(c: CoreState, i: int) -> int {
    c.slot_base + (c.core_id * 3 + i) * 0x11000 + 0x10000 - 288
}

/// Whether the task `id` got slot `i` between `c` and `s`: it owns it, its frame is at
/// the slot's top, and no other owner changed.
pub open spec fn got_slot(c: CoreState, s: CoreState, id: TaskId, i: int) -> bool {
    &&& 0 <= i < 3
    &&& s.tasks[id.0].slot == Some(i as usize)
    &&& s.tasks[id.0].frame_location == FrameLocation::InSlot
    &&& s.tasks[id.0].last_stack_pointer == top_frame(c, i)
    &&& s.owners.len() == 3
    &&& s.owners[i] == id.0
    &&& forall|j: int| 0 <= j < 3 && j != i ==> #[trigger] s.owners[j] == c.owners[j]
}

/// Whether nothing but when the task `id` was dispatched changed between `c` and `s`.
pub open spec fn only_touched(c: CoreState, s: CoreState, id: TaskId) -> bool {
    &&& others_kept(c, s, id)
    &&& s.tasks[id.0] == (Task { last_touch: s.tasks[id.0].last_touch, ..c.tasks[id.0] })
    &&& s == (CoreState { tasks: s.tasks, ..c })
}

/// There is a best victim among the first `n` nodes if one of them can be evicted.
proof fn lemma_best_victim(
    list: Seq<BlockedTask>,
    tasks: Map<i32, Task>,
    now: crate::duration::Duration,
    n: int,
    some: int,
) -> (k: int)
    requires
        0 <= some < n <= list.len(),
        blocked::candidate(list, tasks, now, some),
    ensures
        0 <= k < n,
        blocked::candidate(list, tasks, now, k),
        forall|j: int| #[trigger]
            blocked::candidate(list, tasks, now, j) && j < n ==> !blocked::better(list, tasks, j, k),
        forall|j: int| #[trigger]
            blocked::candidate(list, tasks, now, j) && j < k ==> blocked::better(list, tasks, k, j),
    decreases n,
{
    if exists|j: int| #[trigger] blocked::candidate(list, tasks, now, j) && j < n - 1 {
        let j = choose|j: int| #[trigger] blocked::candidate(list, tasks, now, j) && j < n - 1;
        let k = lemma_best_victim(list, tasks, now, n - 1, j);
        if blocked::candidate(list, tasks, now, n - 1) && blocked::better(list, tasks, n - 1, k) {
            n - 1
        } else {
            k
        }
    } else {
        some
    }
}

/// Who is evicted is the task that is to give up its slot.
proof fn lemma_victim_is(c: CoreState, t: CoreState, id: TaskId, now: u64)
    requires
        state::consistent(c),
        !blocked::names(c.blocked, id),
        t == state::touched(c, id, now),
    ensures
        ({
            let v = blocked::victim(
                c.blocked,
                t.tasks,
                crate::duration::Duration::spec_from_micros(now),
            );
            &&& v matches Some(k) ==> gives_up(c, k, now)
            &&& v is None ==> forall|k: int| !#[trigger] can_give_up(c, k, now)
        }),
{
    let when = crate::duration::Duration::spec_from_micros(now);
    assert(when@ == now * 1_000);
    assert forall|k: int| 0 <= k < c.blocked.len() implies {
        let task = #[trigger] c.tasks[c.blocked[k].task.0];
        &&& t.tasks[c.blocked[k].task.0] == task
        &&& task.status == TaskStatus::Blocked
    } by {
        assert(blocked::names(c.blocked, c.blocked[k].task));
    }
    assert forall|k: int|
        #![trigger can_give_up(c, k, now)]
        #![trigger blocked::candidate(c.blocked, t.tasks, when, k)]
        can_give_up(c, k, now) == blocked::candidate(c.blocked, t.tasks, when, k) by {
        if 0 <= k < c.blocked.len() {
            let task = c.tasks[c.blocked[k].task.0];
        }
    }
    let v = blocked::victim(c.blocked, t.tasks, when);
    if v is Some {
        let k = v->0;
        assert(blocked::is_victim(c.blocked, t.tasks, when, k));
        assert(can_give_up(c, k, now));
        assert forall|j: int| #[trigger] can_give_up(c, j, now) implies {
            let mine = c.tasks[c.blocked[k].task.0].last_touch@;
            let other = c.tasks[c.blocked[j].task.0].last_touch@;
            &&& wakes_as(c.blocked[j]) <= wakes_as(c.blocked[k])
            &&& wakes_as(c.blocked[j]) == wakes_as(c.blocked[k]) ==> mine <= other
            &&& wakes_as(c.blocked[j]) == wakes_as(c.blocked[k]) && mine == other ==> k <= j
        } by {
            assert(blocked::candidate(c.blocked, t.tasks, when, j));
            assert(!blocked::better(c.blocked, t.tasks, j, k));
        }
    } else {
        assert forall|k: int| !#[trigger] can_give_up(c, k, now) by {
            if can_give_up(c, k, now) {
                assert(blocked::candidate(c.blocked, t.tasks, when, k));
                let best = lemma_best_victim(
                    c.blocked,
                    t.tasks,
                    when,
                    c.blocked.len() as int,
                    k,
                );
                assert(blocked::is_victim(c.blocked, t.tasks, when, best));
            }
        }
    }
}

/// Where a task that is about to run gets its exception slot from. One that has a slot,
/// or whose frame is of exception level 1 with that level's stack, stays where it is.
/// Otherwise it gets the first free slot; if none is free, the slot of a blocked task
/// that gives it up; if none can, it runs from its kernel stack.
#[verifier::spinoff_prover]
#[verifier::rlimit(60)]
pub proof fn lemma_slot_effect(c: CoreState, id: TaskId, now: u64)
    requires
        state::consistent(c),
        c.tasks.contains_key(id.0),
        state::live(c.tasks[id.0]),
        !blocked::names(c.blocked, id),
    ensures
        ({
            let s = state::slot_ensured(c, id, now);
            let task = c.tasks[id.0];
            let lsp = task.last_stack_pointer;
            let stays = (task.slot is Some && task.frame_location
                == FrameLocation::InSlot) || (lsp != 0 && c.words[lsp] & 1
                == 1);
            let full = forall|i: int| 0 <= i < 3 ==> #[trigger] c.owners[i] != -1;
            &&& s.tasks[id.0].last_touch@ == now * 1_000
            &&& same_task(task, s.tasks[id.0])
            &&& s.tasks[id.0].status == task.status
            &&& stays ==> only_touched(c, s, id)
            &&& forall|i: int|
                !stays && 0 <= i < 3 && #[trigger] c.owners[i] == -1 && (forall|j: int|
                    0 <= j < i ==> #[trigger] c.owners[j] != -1) ==> got_slot(c, s, id, i)
                    && others_kept(c, s, id)
            &&& !stays && full && (forall|k: int| !#[trigger] can_give_up(c, k, now))
                ==> only_touched(c, s, id)
            &&& !stays && full && (exists|k: int| #[trigger] can_give_up(c, k, now)) ==> exists|
                k: int,
            | #[trigger]
                gives_up(c, k, now) && got_slot(
                    c,
                    s,
                    id,
                    c.tasks[c.blocked[k].task.0].slot->0 as int,
                ) && frame_moved_back(
                    c.tasks[c.blocked[k].task.0],
                    s.tasks[c.blocked[k].task.0],
                )
        }),
{
    let s = state::slot_ensured(c, id, now);
    let t = state::touched(c, id, now);
    let task = c.tasks[id.0];
    state::lemma_touched(c, id, now);
    state::lemma_slot_ensured(c, id, now);
    lemma_victim_is(c, t, id, now);
    crate::arch::aarch64::kernel::slot_pool::lemma_first_free(c.owners);
    let free = crate::arch::aarch64::kernel::slot_pool::first_free(c.owners);
    let when = crate::duration::Duration::spec_from_micros(now);
    assert(when@ == now * 1_000);
    assert(state::task_ok(c, id.0) && state::task_ok(s, id.0));
    assert(state::frames_ok(c, id.0));
    assert(t.tasks.contains_key(id.0));
    assert forall|i: int| 0 <= i < 3 implies top_frame(c, i)
        == #[trigger] crate::arch::aarch64::kernel::slot_pool::slot_frame(
        c.slot_base,
        c.core_id,
        i,
    ) && top_frame(c, i) <= u64::MAX by {
        assert(crate::memory::frame_mapped(
            c.words,
            crate::arch::aarch64::kernel::slot_pool::slot_frame(c.slot_base, c.core_id, i),
        ));
    }
    assert forall|i: int|
        0 <= i < 3 && #[trigger] c.owners[i] == -1 && (forall|j: int|
            0 <= j < i ==> #[trigger] c.owners[j] != -1) implies free == i by {
        crate::arch::aarch64::kernel::slot_pool::lemma_is_first_free(c.owners, i);
    }
    if !state::stays(t, id) && free >= 3 {
        if let Some(k) = blocked::victim(c.blocked, t.tasks, when) {
            let v = c.blocked[k].task;
            assert(gives_up(c, k, now));
            assert(blocked::names(c.blocked, v));
            assert(c.tasks.contains_key(v.0));
            assert(state::slot_ok(c, v.0) && state::frames_ok(c, v.0) && state::task_ok(c, v.0));
            assert(v != id);
            let i = c.tasks[v.0].slot->0 as int;
            assert(0 <= i < 3);
            assert(frame_moved_back(c.tasks[v.0], s.tasks[v.0]));
            assert(top_frame(c, i) == crate::arch::aarch64::kernel::slot_pool::slot_frame(
                c.slot_base,
                c.core_id,
                i,
            ));
            assert(got_slot(c, s, id, i));
        }
    }
}

/// Word `w` of the frame that a new task starts from: it begins in the trampoline, at
/// exception level 1 with the stack pointer of level 0, near the top of its user stack,
/// with its thread pointer, its entry point and its argument. All other registers are
/// 0.
pub open spec fn first_word(new: NewTask, w: int) -> u64 {
    if w == 1 {
        new.provided.task_start
    } else if w == 2 {
        0x3e4
    } else if w == 3 {
        (new.stacks.user_stack() + new.stacks.user_stack_size() - 32) as u64
    } else if w == 4 {
        match new.provided.thread_ptr {
            Some(ptr) => ptr,
            None => 0,
        }
    } else if w == 5 {
        new.func
    } else if w == 6 {
        new.arg
    } else {
        0
    }
}

/// The task that a new task becomes is ready, has the identifier, priority, core,
/// stacks, open files, entry point, argument and thread pointer that were given, and no
/// exception slot yet.
pub proof fn lemma_new_task_effect(new: NewTask)
    requires
        new.stacks.wf(),
        new.stacks is Common,
    ensures
        ({
            let t = spawn::task_of(new);
            let stacks = new.stacks;
            &&& t.id == new.tid
            &&& t.status == TaskStatus::Ready
            &&& t.prio == new.prio
            &&& t.core_id == new.core_id
            &&& t.stacks == new.stacks
            &&& t.object_map == Some(new.object_map)
            &&& t.entry == new.func
            &&& t.entry_arg == new.arg
            &&& t.entry_point_id == EntryPointId::AppTask
            &&& t.tls == new.provided.thread_ptr
            &&& t.slot is None
            &&& !t.wake_pending
            &&& t.last_touch@ == 0
            &&& t.last_fpu_state == FpuState(0)
            &&& t.last_stack_pointer == stacks.kernel_stack() + stacks.kernel_stack_size() - 16
                - 288
            &&& t.user_stack_pointer == stacks.user_stack() + stacks.user_stack_size() - 16
        }),
{
}

/// What the memory holds once the first frame of a new task was built: the frame lies
/// below a marker at the top of the kernel stack, and holds what the task starts with;
/// the user stack has its marker, and nothing changes outside both stacks.
pub proof fn lemma_first_frame_effect(
    words: Map<u64, u64>,
    new: NewTask,
    after: Map<u64, u64>,
    a: u64,
)
    requires
        new.stacks.wf(),
        new.stacks is Common,
        spawn::frame_built(words, new, after),
        words.contains_key(a),
        a % 8 == 0,
    ensures
        ({
            let stacks = new.stacks;
            let bottom = stacks.kernel_stack();
            let top = bottom + stacks.kernel_stack_size();
            let frame = top - 16 - 288;
            let user = stacks.user_stack();
            let user_top = user + stacks.user_stack_size();
            &&& after.contains_key(a)
            &&& frame <= a < frame + 288 ==> after[a] == first_word(new, (a - frame) / 8)
            &&& a == top - 16 || a == user_top - 16 ==> after[a] == 0xdead_beef
            &&& bottom <= a < frame ==> after[a] == 0x5EED_0000_0000_0000u64 | (a
                & 0x0000_FFFF_FFFF_FFF8u64)
            &&& !(bottom <= a < top || user <= a < user_top) ==> after[a] == words[a]
        }),
{
    assert(words.dom().contains(a));
    assert(after.dom().contains(a));
}

/// Where the stacks of a task lie in the region that was allocated for them: behind a
/// guard page the kernel stack of 128 KiB, behind another guard page the user stack,
/// which is at least as large as was wished, and behind it a last guard page.
pub proof fn lemma_stacks_effect(p: Provided, size: int)
    requires
        spawn::regions_fit(p, size),
    ensures
        ({
            let stacks = spawn::stacks_for(p, size);
            &&& stacks is Common
            &&& stacks.wf()
            &&& stacks.kernel_stack() == p.virt_addr + 0x1000
            &&& stacks.kernel_stack_size() == 0x2_0000
            &&& stacks.user_stack() == stacks.kernel_stack() + 0x2_0000 + 0x1000
            &&& stacks.user_stack_size() >= size
            &&& stacks.user_stack_size() >= 0x8000
            &&& stacks.user_stack_size() % 4096 == 0
            &&& size >= 0x8000 ==> stacks.user_stack_size() < size + 4096
            &&& size < 0x8000 ==> stacks.user_stack_size() == 0x8000
        }),
{
    let stacks = spawn::stacks_for(p, size);
    if size >= 0x8000 {
        assert(crate::pages::spec_pages_up(size) >= size);
    }
}

/// A spawned task is known by its identifier, priority and core, nobody waits for it
/// yet, and one task more is counted. Its identifier is not used again right away.
pub proof fn lemma_spawn_registers(
    c: CoreState,
    r: RegistryState,
    child: Child,
    p: Provided,
    idle_files: Map<i32, u64>,
    after: CoreState,
    r_after: RegistryState,
)
    requires
        spawn::child_spawned(c, r, child, p, idle_files, after, r_after),
        child.tid.0 < i32::MAX,
        r.no_tasks < u32::MAX,
    ensures
        r_after.tasks == r.tasks.insert(
            child.tid.0,
            (TaskHandle { id: child.tid, priority: child.prio, core_id: child.core_id }),
        ),
        r_after.waiting == r.waiting.insert(child.tid.0, Seq::<TaskHandle>::empty()),
        r_after.no_tasks == r.no_tasks + 1,
        r_after.tid_counter == child.tid.0 + 1,
        r_after.core_counter == r.core_counter,
        r_after.next_core_id == r.next_core_id,
{
    let files = spawn::current_files(c, idle_files);
    let new = choose|new: NewTask| #[trigger]
        spawn::is_child(new, child, p, files) && spawn::spawned(c, r, new, after, r_after);
}

/// The open files that a spawned task starts with: those of the running task.
pub open spec fn files_of_running(c: CoreState, idle_files: Map<i32, u64>) -> Map<i32, u64> {
    match c.tasks[c.current.0].object_map {
        Some(table) => table@,
        None => idle_files,
    }
}

/// Whether a new task is what was asked for.
pub open spec fn as_asked(
    new: NewTask,
    child: Child,
    p: Provided,
    files: Map<i32, u64>,
) -> bool {
    &&& new.tid == child.tid
    &&& new.func == child.func
    &&& new.arg == child.arg
    &&& new.prio == child.prio
    &&& new.core_id == child.core_id
    &&& new.stacks.kernel_stack() == p.virt_addr + 0x1000
    &&& new.stacks.user_stack_size() >= child.stack_size
    &&& new.stacks is Common
    &&& new.stacks.wf()
    &&& new.object_map@ == files
    &&& new.provided.thread_ptr == p.thread_ptr
    &&& new.provided.task_start == p.task_start
}

/// A task that is spawned for another core is handed to that core last of all new
/// tasks, and the core is woken up. Nothing is handed to any other core, and the tasks
/// of this core stay as they are.
pub proof fn lemma_spawn_elsewhere(
    c: CoreState,
    r: RegistryState,
    child: Child,
    p: Provided,
    idle_files: Map<i32, u64>,
    after: CoreState,
    r_after: RegistryState,
)
    requires
        spawn::child_spawned(c, r, child, p, idle_files, after, r_after),
        spawn::regions_fit(p, child.stack_size as int),
        child.core_id != c.core_id,
        child.core_id < r.inputs.len(),
    ensures
        ({
            let j = child.core_id as int;
            let news = r_after.inputs[j].new_tasks;
            &&& after == (CoreState { words: after.words, ..c })
            &&& r_after.inputs.len() == r.inputs.len()
            &&& news.len() == r.inputs[j].new_tasks.len() + 1
            &&& news.drop_last() == r.inputs[j].new_tasks
            &&& as_asked(news.last(), child, p, files_of_running(c, idle_files))
            &&& r_after.inputs[j].wakeup_tasks == r.inputs[j].wakeup_tasks
            &&& forall|i: int|
                0 <= i < r.inputs.len() && i != j ==> #[trigger] r_after.inputs[i] == r.inputs[i]
            &&& r_after.core_wakeups == r.core_wakeups.push(child.core_id)
        }),
{
    let files = spawn::current_files(c, idle_files);
    let new = choose|new: NewTask| #[trigger]
        spawn::is_child(new, child, p, files) && spawn::spawned(c, r, new, after, r_after);
    lemma_stacks_effect(p, child.stack_size as int);
    let j = child.core_id as int;
    assert(r_after.inputs[j].new_tasks.drop_last() =~= r.inputs[j].new_tasks);
}

/// A task that is spawned for this core is ready at once, last at its priority, with
/// what was asked for. No other task changes, and nothing is handed to any core.
pub proof fn lemma_spawn_here(
    c: CoreState,
    r: RegistryState,
    child: Child,
    p: Provided,
    idle_files: Map<i32, u64>,
    after: CoreState,
    r_after: RegistryState,
)
    requires
        spawn::child_spawned(c, r, child, p, idle_files, after, r_after),
        spawn::regions_fit(p, child.stack_size as int),
        child.core_id == c.core_id,
        child.prio.0 < NO_PRIORITIES,
        c.ready.len() == NO_PRIORITIES,
    ensures
        ({
            let t = after.tasks[child.tid.0];
            let q = child.prio.0 as int;
            &&& r_after.inputs == r.inputs
            &&& r_after.core_wakeups == r.core_wakeups
            &&& after.ready.len() == NO_PRIORITIES
            &&& after.ready[q] == c.ready[q].push(child.tid)
            &&& forall|i: int|
                0 <= i < NO_PRIORITIES && i != q ==> #[trigger] after.ready[i] == c.ready[i]
            &&& after == (CoreState {
                tasks: after.tasks,
                ready: after.ready,
                words: after.words,
                ..c
            })
            &&& forall|k: i32| #[trigger]
                after.tasks.contains_key(k) <==> c.tasks.contains_key(k) || k == child.tid.0
            &&& forall|k: i32| #[trigger]
                c.tasks.contains_key(k) && k != child.tid.0 ==> after.tasks[k] == c.tasks[k]
            &&& t.id == child.tid
            &&& t.status == TaskStatus::Ready
            &&& t.prio == child.prio
            &&& t.core_id == c.core_id
            &&& t.entry == child.func
            &&& t.entry_arg == child.arg
            &&& t.entry_point_id == EntryPointId::AppTask
            &&& t.tls == p.thread_ptr
            &&& t.slot is None
            &&& t.object_map is Some
            &&& t.object_map->0@ == files_of_running(c, idle_files)
            &&& t.stacks.kernel_stack() == p.virt_addr + 0x1000
            &&& t.stacks.user_stack_size() >= child.stack_size
        }),
{
    let files = spawn::current_files(c, idle_files);
    let new = choose|new: NewTask| #[trigger]
        spawn::is_child(new, child, p, files) && spawn::spawned(c, r, new, after, r_after);
    lemma_stacks_effect(p, child.stack_size as int);
    lemma_new_task_effect(new);
}

/// What the frame of a task that was spawned for this core holds: the task starts in
/// the trampoline, which finds the entry point and the argument in the first two
/// registers, with the task's thread pointer and near the top of its user stack.
#[verifier::spinoff_prover]
#[verifier::rlimit(60)]
pub proof fn lemma_spawned_frame(
    c: CoreState,
    r: RegistryState,
    child: Child,
    p: Provided,
    idle_files: Map<i32, u64>,
    after: CoreState,
    r_after: RegistryState,
)
    requires
        spawn::child_spawned(c, r, child, p, idle_files, after, r_after),
        spawn::regions_fit(p, child.stack_size as int),
        child.core_id == c.core_id,
    ensures
        ({
            let t = after.tasks[child.tid.0];
            let lsp = t.last_stack_pointer;
            &&& lsp == p.virt_addr + 0x1000 + 0x2_0000 - 16 - 288
            &&& after.words[lsp] == 0
            &&& after.words[(lsp + 8) as u64] == p.task_start
            &&& after.words[(lsp + 16) as u64] == 0x3e4
            &&& after.words[(lsp + 24) as u64] == t.stacks.user_stack() + t.stacks.user_stack_size()
                - 32
            &&& after.words[(lsp + 32) as u64] == (match p.thread_ptr {
                Some(ptr) => ptr,
                None => 0,
            })
            &&& after.words[(lsp + 40) as u64] == child.func
            &&& after.words[(lsp + 48) as u64] == child.arg
            &&& forall|w: int|
                7 <= w < 36 ==> after.words[#[trigger] crate::memory::word_at(lsp as int, w)] == 0
        }),
{
    let files = spawn::current_files(c, idle_files);
    let new = choose|new: NewTask| #[trigger]
        spawn::is_child(new, child, p, files) && spawn::spawned(c, r, new, after, r_after);
    lemma_stacks_effect(p, child.stack_size as int);
    lemma_new_task_effect(new);
    let words = spawn::stacks_mapped(c.words, new.stacks);
    let lsp = after.tasks[child.tid.0].last_stack_pointer;
    lemma_new_stacks_mapped(c.words, new.stacks);
    assert forall|w: int| 0 <= w < 36 implies after.words[#[trigger] crate::memory::word_at(
        lsp as int,
        w,
    )] == first_word(new, w) by {
        let a = crate::memory::word_at(lsp as int, w);
        new.stacks.lemma_mapped_at(words, a, a);
        lemma_first_frame_effect(words, new, after.words, a);
    }
    assert(crate::memory::word_at(lsp as int, 0) == lsp);
    assert(crate::memory::word_at(lsp as int, 1) == lsp + 8);
    assert(crate::memory::word_at(lsp as int, 2) == lsp + 16);
    assert(crate::memory::word_at(lsp as int, 3) == lsp + 24);
    assert(crate::memory::word_at(lsp as int, 4) == lsp + 32);
    assert(crate::memory::word_at(lsp as int, 5) == lsp + 40);
    assert(crate::memory::word_at(lsp as int, 6) == lsp + 48);
}

/// New stacks are mapped.
proof fn lemma_new_stacks_mapped(words: Map<u64, u64>, stacks: TaskStacks)
    requires
        stacks.wf(),
    ensures
        stacks.mapped(spawn::stacks_mapped(words, stacks)),
{
    let middle = crate::memory::zero_mapped(
        words,
        stacks.kernel_stack(),
        stacks.kernel_stack_size() / 8,
    );
    crate::memory::lemma_zero_mapped(words, stacks.kernel_stack(), stacks.kernel_stack_size() / 8);
    crate::memory::lemma_zero_mapped(middle, stacks.user_stack(), stacks.user_stack_size() / 8);
}

/// A task that is spawned for this core leaves every ready task in the queue of its
/// priority.
pub proof fn lemma_join_keeps_filed(c: CoreState, task: Task, words: Map<u64, u64>)
    requires
        state::inv(c),
        filed(c),
        !c.tasks.contains_key(task.id.0),
        task.prio.0 < NO_PRIORITIES,
    ensures
        filed(spawn::joined(c, task, words)),
{
    let d = spawn::joined(c, task, words);
    assert(d.tasks.contains_key(task.id.0));
    lemma_filed_after_push(c, d, task.id);
}

/// The tasks of `queue` that live on `core_id`, in order.
pub open spec fn on_core(queue: Seq<TaskHandle>, core_id: int) -> Seq<TaskHandle>
    decreases queue.len(),
{
    if queue.len() == 0 {
        Seq::empty()
    } else if queue.last().core_id == core_id {
        on_core(queue.drop_last(), core_id).push(queue.last())
    } else {
        on_core(queue.drop_last(), core_id)
    }
}

/// The cores, other than `core_id`, of the tasks of `queue`, in order.
pub open spec fn other_cores(queue: Seq<TaskHandle>, core_id: u32) -> Seq<u32>
    decreases queue.len(),
{
    if queue.len() == 0 {
        Seq::empty()
    } else if queue.last().core_id != core_id {
        other_cores(queue.drop_last(), core_id).push(queue.last().core_id)
    } else {
        other_cores(queue.drop_last(), core_id)
    }
}

/// The identifiers of tasks.
pub open spec fn ids_of(queue: Seq<TaskHandle>) -> Seq<TaskId> {
    queue.map_values(|h: TaskHandle| h.id)
}

/// Whether the tasks of `queue` were woken between `(c, r)` and `(d, s)`: those of this
/// core are ready, and joined the queues of their priorities in order; those of another
/// core were handed to that core in order, and the core is woken up for each. No other
/// task changed.
pub open spec fn all_told(
    c: CoreState,
    r: RegistryState,
    queue: Seq<TaskHandle>,
    d: CoreState,
    s: RegistryState,
) -> bool {
    let here = ids_of(on_core(queue, c.core_id as int));
    &&& same_core(c, d)
    &&& forall|k: i32| #[trigger] d.tasks.contains_key(k) <==> c.tasks.contains_key(k)
    &&& forall|k: i32| #[trigger]
        c.tasks.contains_key(k) ==> d.tasks[k] == (if here.contains(TaskId(k)) {
            Task { status: TaskStatus::Ready, ..c.tasks[k] }
        } else {
            c.tasks[k]
        })
    &&& d.ready.len() == c.ready.len()
    &&& forall|p: int|
        0 <= p < NO_PRIORITIES ==> #[trigger] d.ready[p] == c.ready[p] + of_priority(
            here,
            c.tasks,
            p,
        )
    &&& forall|t: TaskId|
        #[trigger] blocked::names(d.blocked, t) <==> blocked::names(c.blocked, t)
            && !here.contains(t)
    &&& s.inputs.len() == r.inputs.len()
    &&& forall|j: int|
        0 <= j < r.inputs.len() ==> (#[trigger] s.inputs[j]).wakeup_tasks
            == r.inputs[j].wakeup_tasks + (if j == c.core_id {
            Seq::empty()
        } else {
            on_core(queue, j)
        }) && s.inputs[j].new_tasks == r.inputs[j].new_tasks
    &&& s.core_wakeups == r.core_wakeups + other_cores(queue, c.core_id)
    &&& s == (RegistryState { inputs: s.inputs, core_wakeups: s.core_wakeups, ..r })
}

/// The identifiers on a core, one task at a time.
proof fn lemma_ids_step(queue: Seq<TaskHandle>, core_id: int)
    requires
        queue.len() > 0,
    ensures
        queue.last().core_id == core_id ==> ids_of(on_core(queue, core_id)) == ids_of(
            on_core(queue.drop_last(), core_id),
        ).push(queue.last().id),
        queue.last().core_id != core_id ==> ids_of(on_core(queue, core_id)) == ids_of(
            on_core(queue.drop_last(), core_id),
        ),
{
    assert(queue.last().core_id == core_id ==> ids_of(on_core(queue, core_id)) =~= ids_of(
        on_core(queue.drop_last(), core_id),
    ).push(queue.last().id));
}

/// A task that is on a core is one of the tasks.
proof fn lemma_on_core_from(queue: Seq<TaskHandle>, core_id: int, t: TaskId)
    requires
        ids_of(on_core(queue, core_id)).contains(t),
    ensures
        exists|i: int|
            0 <= i < queue.len() && (#[trigger] queue[i]).id == t && queue[i].core_id == core_id,
    decreases queue.len(),
{
    if queue.len() > 0 {
        let init = queue.drop_last();
        let all = ids_of(on_core(queue, core_id));
        let before = ids_of(on_core(init, core_id));
        lemma_ids_step(queue, core_id);
        let i = choose|i: int| 0 <= i < all.len() && all[i] == t;
        if i < before.len() {
            assert(before[i] == t);
            lemma_on_core_from(init, core_id, t);
            let j = choose|j: int|
                0 <= j < init.len() && (#[trigger] init[j]).id == t && init[j].core_id == core_id;
            assert(queue[j] == init[j]);
        } else {
            assert(queue[queue.len() - 1].id == t);
        }
    }
}

/// Waking tasks in turn wakes exactly them.
proof fn lemma_all_told(c: CoreState, r: RegistryState, queue: Seq<TaskHandle>)
    requires
        state::inv(c),
        exit::can_wake_all(c, r, queue),
    ensures
        all_told(c, r, queue, exit::all_woken(c, r, queue).0, exit::all_woken(c, r, queue).1),
    decreases queue.len(),
{
    let (d, s) = exit::all_woken(c, r, queue);
    let here = ids_of(on_core(queue, c.core_id as int));
    if queue.len() == 0 {
        assert(here =~= Seq::<TaskId>::empty());
        assert forall|p: int| 0 <= p < NO_PRIORITIES implies #[trigger] d.ready[p] == c.ready[p]
            + of_priority(here, c.tasks, p) by {
            assert(c.ready[p] + of_priority(here, c.tasks, p) =~= c.ready[p]);
        }
        assert forall|j: int| 0 <= j < r.inputs.len() implies (#[trigger] s.inputs[j]).wakeup_tasks
            == r.inputs[j].wakeup_tasks + (if j == c.core_id {
            Seq::empty()
        } else {
            on_core(queue, j)
        }) by {
            assert(r.inputs[j].wakeup_tasks + Seq::<TaskHandle>::empty()
                =~= r.inputs[j].wakeup_tasks);
        }
        assert(r.core_wakeups + other_cores(queue, c.core_id) =~= r.core_wakeups);
    } else {
        let init = queue.drop_last();
        let last = queue.last();
        assert(exit::can_wake_all(c, r, init)) by {
            assert forall|i: int| 0 <= i < init.len() implies exit::can_wake(
                c,
                r,
                #[trigger] init[i],
            ) by {
                assert(init[i] == queue[i]);
            }
            assert forall|i: int, j: int|
                0 <= i < j < init.len() && (#[trigger] init[i]).core_id == c.core_id && (
                #[trigger] init[j]).core_id == c.core_id implies init[i].id != init[j].id by {
                assert(init[i] == queue[i] && init[j] == queue[j]);
            }
        }
        lemma_all_told(c, r, init);
        exit::lemma_all_woken(c, r, init);
        let (d0, s0) = exit::all_woken(c, r, init);
        let here0 = ids_of(on_core(init, c.core_id as int));
        lemma_ids_step(queue, c.core_id as int);
        assert(queue[queue.len() - 1] == last);
        assert(exit::can_wake(c, r, last));
        if last.core_id == c.core_id {
            assert(!here0.contains(last.id)) by {
                if here0.contains(last.id) {
                    lemma_on_core_from(init, c.core_id as int, last.id);
                    let i = choose|i: int|
                        0 <= i < init.len() && (#[trigger] init[i]).id == last.id && init[i].core_id
                            == c.core_id;
                    assert(queue[i] == init[i]);
                }
            }
            assert(blocked::names(d0.blocked, last.id));
            lemma_wake_effect(d0, last.id);
            wake::lemma_hand_woken(d0, last.id);
            assert(d0.tasks.contains_key(last.id.0));
            assert(TaskId(last.id.0) == last.id);
            assert(state::task_ok(d0, last.id.0));
            assert forall|t: TaskId| #[trigger] here.contains(t) <==> here0.contains(t) || t
                == last.id by {
                if here.contains(t) {
                    let i = choose|i: int| 0 <= i < here.len() && here[i] == t;
                    if i < here0.len() {
                        assert(here0[i] == t);
                    }
                }
                if here0.contains(t) {
                    let i = choose|i: int| 0 <= i < here0.len() && here0[i] == t;
                    assert(here[i] == t);
                }
                if t == last.id {
                    assert(here[here0.len() as int] == t);
                }
            }
            assert(here.drop_last() =~= here0);
            assert forall|p: int| 0 <= p < NO_PRIORITIES implies #[trigger] d.ready[p] == c.ready[p]
                + of_priority(here, c.tasks, p) by {
                assert(d0.ready[p] == c.ready[p] + of_priority(here0, c.tasks, p));
                assert(d.ready[p] =~= c.ready[p] + of_priority(here, c.tasks, p));
            }
            assert forall|j: int| 0 <= j < r.inputs.len() implies (
            #[trigger] s.inputs[j]).wakeup_tasks == r.inputs[j].wakeup_tasks + (if j == c.core_id {
                Seq::empty()
            } else {
                on_core(queue, j)
            }) && s.inputs[j].new_tasks == r.inputs[j].new_tasks by {
                assert(s.inputs[j] == s0.inputs[j]);
            }
        } else {
            let m = last.core_id as int;
            assert forall|j: int| 0 <= j < r.inputs.len() implies (
            #[trigger] s.inputs[j]).wakeup_tasks == r.inputs[j].wakeup_tasks + (if j == c.core_id {
                Seq::empty()
            } else {
                on_core(queue, j)
            }) && s.inputs[j].new_tasks == r.inputs[j].new_tasks by {
                assert(s0.inputs[j].new_tasks == r.inputs[j].new_tasks);
                if j == m {
                    assert(s.inputs[j].wakeup_tasks =~= r.inputs[j].wakeup_tasks + on_core(queue, j));
                }
            }
            assert(s.core_wakeups =~= r.core_wakeups + other_cores(queue, c.core_id));
        }
    }
}

/// The end of the running task: it is finished, its slot is free, nobody knows it any
/// longer, and everybody who waited for it was woken, in the order in which they came.
#[verifier::spinoff_prover]
#[verifier::rlimit(60)]
pub proof fn lemma_exit_effect(c: CoreState, r: RegistryState)
    requires
        state::inv(c),
        c.tasks[c.current.0].status == TaskStatus::Running,
        r.waiting.contains_key(c.current.0),
        r.no_tasks > 0,
        exit::can_wake_all(exit::ended(c), r, exit::waiters(r, c.current)),
    ensures
        ({
            let (d, s) = exit::exited(c, r);
            let task = c.tasks[c.current.0];
            &&& exists|e: CoreState| #[trigger]
                task_ended(c, e) && all_told(
                    e,
                    (RegistryState {
                        no_tasks: (r.no_tasks - 1) as u32,
                        waiting: r.waiting.remove(c.current.0),
                        tasks: r.tasks.remove(c.current.0),
                        ..r
                    }),
                    r.waiting[c.current.0],
                    d,
                    s,
                )
            &&& d.tasks[c.current.0].status == TaskStatus::Finished
            &&& task.slot is Some ==> d.owners[task.slot->0 as int] == -1
            &&& !s.tasks.contains_key(c.current.0)
            &&& !s.waiting.contains_key(c.current.0)
            &&& s.no_tasks == r.no_tasks - 1
        }),
{
    let e = exit::ended(c);
    let (d, s) = exit::exited(c, r);
    let queue = exit::waiters(r, c.current);
    let r1 = exit::discounted(r, c.current);
    exit::lemma_ended(c);
    lemma_end_effect(c);
    assert(exit::can_wake_all(e, r1, queue)) by {
        assert forall|i: int| 0 <= i < queue.len() implies exit::can_wake(
            e,
            r1,
            #[trigger] queue[i],
        ) by {
            assert(exit::can_wake(e, r, queue[i]));
        }
    }
    lemma_all_told(e, r1, queue);
    let r2 = RegistryState {
        no_tasks: (r.no_tasks - 1) as u32,
        waiting: r.waiting.remove(c.current.0),
        tasks: r.tasks.remove(c.current.0),
        ..r
    };
    let (d1, s1) = exit::all_woken(e, r1, queue);
    assert forall|j: int| 0 <= j < r2.inputs.len() implies (#[trigger] s.inputs[j]).wakeup_tasks
        == r2.inputs[j].wakeup_tasks + (if j == e.core_id {
        Seq::empty()
    } else {
        on_core(queue, j)
    }) && s.inputs[j].new_tasks == r2.inputs[j].new_tasks by {
        assert(s.inputs[j] == s1.inputs[j]);
    }
    assert(all_told(e, r2, r.waiting[c.current.0], d, s));
    assert(e.tasks.contains_key(c.current.0));
    assert(!ids_of(on_core(queue, c.core_id as int)).contains(c.current)) by {
        if ids_of(on_core(queue, c.core_id as int)).contains(c.current) {
            lemma_on_core_from(queue, c.core_id as int, c.current);
            let i = choose|i: int|
                0 <= i < queue.len() && (#[trigger] queue[i]).id == c.current && queue[i].core_id
                    == c.core_id;
            assert(exit::can_wake(e, r, queue[i]));
            assert(blocked::names(c.blocked, c.current));
        }
    }
    assert(TaskId(c.current.0) == c.current);
    assert(state::slot_ok(c, c.current.0));
}

/// Whether the running task ended between `c` and `e`: it is finished, its exception
/// slot is free, and nothing else changed.
pub open spec fn task_ended(c: CoreState, e: CoreState) -> bool {
    let task = c.tasks[c.current.0];
    &&& status_changed(c, e, c.current, TaskStatus::Finished)
    &&& e == (CoreState { tasks: e.tasks, owners: e.owners, ..c })
    &&& e.owners.len() == c.owners.len()
    &&& forall|i: int|
        0 <= i < c.owners.len() ==> #[trigger] e.owners[i] == (if task.slot == Some(i as usize)
            && task.frame_location == FrameLocation::InSlot {
            -1i32
        } else {
            c.owners[i]
        })
}

/// The running task ends: it is finished and its exception slot is free.
pub proof fn lemma_end_effect(c: CoreState)
    requires
        state::inv(c),
        c.tasks[c.current.0].status == TaskStatus::Running,
    ensures
        task_ended(c, exit::ended(c)),
{
    let e = exit::ended(c);
    assert(state::slot_ok(c, c.current.0));
    assert forall|i: int| 0 <= i < c.owners.len() implies #[trigger] e.owners[i] == (
    if c.tasks[c.current.0].slot == Some(i as usize) && c.tasks[c.current.0].frame_location
        == FrameLocation::InSlot {
        -1i32
    } else {
        c.owners[i]
    }) by {}
}

/// Waking one task: on this core as by hand; on another core it is handed over last of
/// those to be woken there, and that core is woken up.
pub proof fn lemma_custom_wake_effect(c: CoreState, r: RegistryState, task: TaskHandle)
    requires
        state::inv(c),
        exit::can_wake(c, r, task),
    ensures
        ({
            let (d, s) = exit::custom_woken(c, r, task);
            all_told(c, r, seq![task], d, s)
        }),
{
    assert(exit::can_wake_all(c, r, seq![task]));
    assert(seq![task].drop_last() =~= Seq::<TaskHandle>::empty());
    lemma_all_told(c, r, seq![task]);
    assert(exit::all_woken(c, r, Seq::empty()) == (c, r));
    assert(exit::all_woken(c, r, seq![task]) == exit::custom_woken(c, r, task));
}

/// Whether the tasks `ids` were woken between `c` and `d`: they are ready, joined the
/// queues of their priorities in order, and are no longer blocked. No other task
/// changed.
pub open spec fn woken_here(c: CoreState, d: CoreState, ids: Seq<TaskId>) -> bool {
    &&& same_core(c, d)
    &&& forall|k: i32| #[trigger] d.tasks.contains_key(k) <==> c.tasks.contains_key(k)
    &&& forall|k: i32| #[trigger]
        c.tasks.contains_key(k) ==> d.tasks[k] == (if ids.contains(TaskId(k)) {
            Task { status: TaskStatus::Ready, ..c.tasks[k] }
        } else {
            c.tasks[k]
        })
    &&& d.ready.len() == c.ready.len()
    &&& forall|p: int|
        0 <= p < NO_PRIORITIES ==> #[trigger] d.ready[p] == c.ready[p] + of_priority(
            ids,
            c.tasks,
            p,
        )
    &&& forall|t: TaskId|
        #[trigger] blocked::names(d.blocked, t) <==> blocked::names(c.blocked, t) && !ids.contains(t)
}

/// The tasks that other cores woke become ready in the order in which they were handed
/// over.
pub proof fn lemma_handed_wakes_effect(c: CoreState, queue: Seq<TaskHandle>)
    requires
        state::inv(c),
        input::wakes_ok(c, queue),
    ensures
        woken_here(c, input::all_hand_woken(c, queue), ids_of(queue)),
    decreases queue.len(),
{
    let d = input::all_hand_woken(c, queue);
    let ids = ids_of(queue);
    if queue.len() == 0 {
        assert(ids =~= Seq::<TaskId>::empty());
        assert forall|p: int| 0 <= p < NO_PRIORITIES implies #[trigger] d.ready[p] == c.ready[p]
            + of_priority(ids, c.tasks, p) by {
            assert(c.ready[p] + of_priority(ids, c.tasks, p) =~= c.ready[p]);
        }
    } else {
        let init = queue.drop_last();
        let last = queue.last();
        let before = ids_of(init);
        assert(input::wakes_ok(c, init)) by {
            assert forall|i: int| 0 <= i < init.len() implies blocked::names(
                c.blocked,
                (#[trigger] init[i]).id,
            ) by {
                assert(init[i] == queue[i]);
            }
            assert forall|i: int, j: int| 0 <= i < j < init.len() implies (#[trigger] init[i]).id
                != (#[trigger] init[j]).id by {
                assert(init[i] == queue[i] && init[j] == queue[j]);
            }
        }
        lemma_handed_wakes_effect(c, init);
        input::lemma_all_hand_woken(c, init);
        let d0 = input::all_hand_woken(c, init);
        assert(ids.drop_last() =~= before);
        assert(ids.last() == last.id);
        assert(queue[queue.len() - 1] == last);
        assert(!before.contains(last.id)) by {
            if before.contains(last.id) {
                let i = choose|i: int| 0 <= i < before.len() && before[i] == last.id;
                assert(queue[i].id == queue[queue.len() - 1].id);
            }
        }
        assert(blocked::names(d0.blocked, last.id));
        lemma_wake_effect(d0, last.id);
        wake::lemma_hand_woken(d0, last.id);
        assert(d0.tasks.contains_key(last.id.0));
        assert(TaskId(last.id.0) == last.id);
        assert(state::task_ok(d0, last.id.0));
        assert forall|t: TaskId| #[trigger] ids.contains(t) <==> before.contains(t) || t
            == last.id by {
            if ids.contains(t) {
                let i = choose|i: int| 0 <= i < ids.len() && ids[i] == t;
                if i < before.len() {
                    assert(before[i] == t);
                }
            }
            if before.contains(t) {
                let i = choose|i: int| 0 <= i < before.len() && before[i] == t;
                assert(ids[i] == t);
            }
            if t == last.id {
                assert(ids[ids.len() - 1] == t);
            }
        }
        assert forall|p: int| 0 <= p < NO_PRIORITIES implies #[trigger] d.ready[p] == c.ready[p]
            + of_priority(ids, c.tasks, p) by {
            assert(d0.ready[p] == c.ready[p] + of_priority(before, c.tasks, p));
            assert(d.ready[p] =~= c.ready[p] + of_priority(ids, c.tasks, p));
        }
    }
}

/// The new tasks with the priority `p`, in order.
pub open spec fn new_of_priority(news: Seq<NewTask>, p: int) -> Seq<TaskId>
    decreases news.len(),
{
    if news.len() == 0 {
        Seq::empty()
    } else if news.last().prio.0 == p {
        new_of_priority(news.drop_last(), p).push(news.last().tid)
    } else {
        new_of_priority(news.drop_last(), p)
    }
}

/// Whether the task is the ready task that `new` asks for.
pub open spec fn is_new(task: Task, new: NewTask) -> bool {
    &&& task.id == new.tid
    &&& task.status == TaskStatus::Ready
    &&& task.prio == new.prio
    &&& task.core_id == new.core_id
    &&& task.stacks == new.stacks
    &&& task.object_map == Some(new.object_map)
    &&& task.entry == new.func
    &&& task.entry_arg == new.arg
    &&& task.tls == new.provided.thread_ptr
    &&& task.slot is None
}

/// The new tasks that other cores handed over are ready, in the queues of their
/// priorities and in the order in which they were handed over. No other task changes.
#[verifier::spinoff_prover]
#[verifier::rlimit(60)]
pub proof fn lemma_handed_tasks_effect(c: CoreState, news: Seq<NewTask>)
    requires
        state::inv(c),
        input::news_ok(c, news),
    ensures
        ({
            let d = input::all_joined(c, news);
            &&& d == (CoreState { tasks: d.tasks, ready: d.ready, words: d.words, ..c })
            &&& d.ready.len() == c.ready.len()
            &&& forall|p: int|
                0 <= p < NO_PRIORITIES ==> #[trigger] d.ready[p] == c.ready[p] + new_of_priority(
                    news,
                    p,
                )
            &&& forall|i: int|
                0 <= i < news.len() ==> d.tasks.contains_key((#[trigger] news[i]).tid.0) && is_new(
                    d.tasks[news[i].tid.0],
                    news[i],
                )
            &&& forall|k: i32| #[trigger]
                c.tasks.contains_key(k) ==> d.tasks.contains_key(k) && d.tasks[k] == c.tasks[k]
        }),
    decreases news.len(),
{
    let d = input::all_joined(c, news);
    if news.len() == 0 {
        assert forall|p: int| 0 <= p < NO_PRIORITIES implies #[trigger] d.ready[p] == c.ready[p]
            + new_of_priority(news, p) by {
            assert(c.ready[p] + new_of_priority(news, p) =~= c.ready[p]);
        }
    } else {
        let init = news.drop_last();
        let last = news.last();
        assert(input::news_ok(c, init)) by {
            assert forall|i: int| 0 <= i < init.len() implies input::new_ok(
                c,
                #[trigger] init[i],
            ) by {
                assert(init[i] == news[i]);
            }
            assert forall|i: int, j: int| 0 <= i < j < init.len() implies (#[trigger] init[i]).tid
                != (#[trigger] init[j]).tid by {
                assert(init[i] == news[i] && init[j] == news[j]);
            }
        }
        lemma_handed_tasks_effect(c, init);
        let d0 = input::all_joined(c, init);
        assert(news[news.len() - 1] == last);
        assert(input::new_ok(c, last));
        lemma_new_task_effect(last);
        assert forall|p: int| 0 <= p < NO_PRIORITIES implies #[trigger] d.ready[p] == c.ready[p]
            + new_of_priority(news, p) by {
            assert(d0.ready[p] == c.ready[p] + new_of_priority(init, p));
            assert(d.ready[p] =~= c.ready[p] + new_of_priority(news, p));
        }
        assert forall|i: int| 0 <= i < news.len() implies d.tasks.contains_key(
            (#[trigger] news[i]).tid.0,
        ) && is_new(d.tasks[news[i].tid.0], news[i]) by {
            if i < init.len() {
                assert(init[i] == news[i]);
                assert(news[i].tid != news[news.len() - 1].tid);
                assert(d0.tasks.contains_key(init[i].tid.0));
            }
        }
    }
}

/// The priority of a ready task is changed: it leaves the queue of its priority, in
/// which the others keep their order, and is last in the queue of the new one. Nothing
/// but its priority changes about it, and no other task changes.
pub proof fn lemma_priority_effect(c: CoreState, id: TaskId, from: int, prio: Priority)
    requires
        state::inv(c),
        0 <= from < NO_PRIORITIES,
        c.ready[from].contains(id),
        prio.0 < NO_PRIORITIES,
    ensures
        ({
            let ready = priority_queue::moved(c.ready, id, from, prio.0 as int);
            let d = control::with_prio(c, id, prio);
            &&& others_kept(c, d, id)
            &&& d.tasks[id.0] == (Task { prio, ..c.tasks[id.0] })
            &&& d.tasks[id.0].prio.0 == prio.0
            &&& d == (CoreState { tasks: d.tasks, ..c })
            &&& ready.len() == NO_PRIORITIES
            &&& exists|i: int| #[trigger]
                is_moved(c.ready[from], i, id) && ready[prio.0 as int] == (if prio.0 == from {
                    c.ready[from].remove(i).push(id)
                } else {
                    c.ready[prio.0 as int].push(id)
                }) && (prio.0 != from ==> ready[from] == c.ready[from].remove(i))
            &&& forall|q: int|
                0 <= q < NO_PRIORITIES && q != from && q != prio.0 ==> #[trigger] ready[q]
                    == c.ready[q]
        }),
{
    priority_queue::lemma_first_index_is(c.ready[from], id);
    let i = priority_queue::first_index(c.ready[from], id);
    let ready = priority_queue::moved(c.ready, id, from, prio.0 as int);
    let k = choose|k: int| 0 <= k < c.ready[from].len() && c.ready[from][k] == id;
    assert(c.ready[from][k] == id);
    assert(priority_queue::queued(c.ready, id));
    assert(is_moved(c.ready[from], i, id));
}

/// Whether `task` stands at `i`.
pub open spec fn is_moved(queue: Seq<TaskId>, i: int, task: TaskId) -> bool {
    0 <= i < queue.len() && queue[i] == task
}

/// Changing the priority of a ready task leaves every ready task in the queue of its
/// priority.
pub proof fn lemma_priority_keeps_filed(c: CoreState, id: TaskId, prio: Priority)
    requires
        state::inv(c),
        filed(c),
        c.tasks.contains_key(id.0),
        c.tasks[id.0].status == TaskStatus::Ready,
        prio.0 < NO_PRIORITIES,
    ensures
        ({
            let from = c.tasks[id.0].prio.0 as int;
            let d = control::with_prio(c, id, prio);
            filed(
                CoreState { ready: priority_queue::moved(c.ready, id, from, prio.0 as int), ..d },
            )
        }),
{
    let from = c.tasks[id.0].prio.0 as int;
    assert(state::status_ok(c, id.0) && state::task_ok(c, id.0));
    assert(TaskId(id.0) == id);
    let (p, i) = choose|p: int, i: int|
        0 <= p < c.ready.len() && 0 <= i < c.ready[p].len() && #[trigger] c.ready[p][i] == id;
    assert(c.tasks[c.ready[p][i].0].prio.0 == p);
    assert(c.ready[from].contains(id));
    lemma_priority_effect(c, id, from, prio);
    let d = control::with_prio(c, id, prio);
    let ready = priority_queue::moved(c.ready, id, from, prio.0 as int);
    let e = CoreState { ready, ..d };
    let k = choose|k: int| #[trigger]
        is_moved(c.ready[from], k, id) && ready[prio.0 as int] == (if prio.0 == from {
            c.ready[from].remove(k).push(id)
        } else {
            c.ready[prio.0 as int].push(id)
        }) && (prio.0 != from ==> ready[from] == c.ready[from].remove(k));
    assert forall|q: int, j: int| 0 <= q < e.ready.len() && 0 <= j < e.ready[q].len() implies e.tasks[(
    #[trigger] e.ready[q][j]).0].prio.0 == q by {
        let t = e.ready[q][j];
        if t != id {
            let m = if q == from && j >= k {
                j + 1
            } else {
                j
            };
            assert(c.ready[q][m] == t);
            assert(priority_queue::queued(c.ready, t));
            assert(t.0 != id.0);
        } else if q != prio.0 {
            let m = if q == from && j >= k {
                j + 1
            } else {
                j
            };
            assert(c.ready[q][m] == id);
            assert(c.ready[from][k] == id);
            assert(q == from && m == k);
        }
    }
}

/// When a task ends, its entry point is started again only if it lies in the image, and
/// with the argument and the priority that the task had. It is never started again
/// without a policy, and always with the policy to do so if it lies in the image.
pub proof fn lemma_restart_effect(
    task: Task,
    words: Map<u64, u64>,
    before: Seq<crate::scheduler::supervisor::RestartEntry>,
    after: Seq<crate::scheduler::supervisor::RestartEntry>,
    now: u64,
    image_start: u64,
    image_end: u64,
    r: exit::Exited,
)
    requires
        exit::is_exit(task, words, before, after, now, image_start, image_end, r),
        before.len() == 2,
        after.len() == 2,
    ensures
        ({
            let own = match task.entry_point_id {
                EntryPointId::Idle => 0int,
                EntryPointId::AppTask => 1int,
            };
            let in_image = task.entry != 0 && task.entry != u64::MAX && image_start <= task.entry
                && task.entry < image_end;
            &&& after[1 - own] == before[1 - own]
            &&& r.restart matches Some(request) ==> {
                &&& in_image
                &&& request.entry == task.entry
                &&& request.entry_arg == task.entry_arg
                &&& request.prio == task.prio
            }
            &&& before[own].spec_policy() is Never ==> r.restart is None
            &&& before[own].spec_policy() is Always && in_image ==> r.restart is Some
        }),
{
}

/// Which core a task goes to that is spawned with a selector: the one that the selector
/// names, or any of those that there are if it is negative.
pub proof fn lemma_core_choice(selector: isize, counter: u32, processor_count: u32)
    requires
        processor_count > 0,
    ensures
        selector < 0 ==> spawn::core_for(selector, counter, processor_count) < processor_count,
        0 <= selector <= u32::MAX ==> spawn::core_for(selector, counter, processor_count)
            == selector,
{
}

/// Tasks that any core may run go to one core after the other: the next one goes to the
/// core behind the last one's, and to the first behind the last core.
pub proof fn lemma_cores_take_turns(selector: isize, counter: u32, processor_count: u32)
    requires
        selector < 0,
        processor_count > 0,
        counter < u32::MAX,
    ensures
        ({
            let core = spawn::core_for(selector, counter, processor_count);
            let next = spawn::core_for(
                selector,
                crate::scheduler::registry::wrapping_next(counter),
                processor_count,
            );
            next == (if core + 1 == processor_count {
                0
            } else {
                core + 1
            })
        }),
{
    let n = processor_count as int;
    let k = counter as int;
    assert((k + 1) % n == if k % n + 1 == n {
        0
    } else {
        k % n + 1
    }) by (nonlinear_arith)
        requires
            n > 0,
            k >= 0,
    ;
}

/// Cloned tasks go to one core after the other as long as there is another one, and
/// then to the first core.
pub proof fn lemma_clones_take_turns(next: u32, processor_count: u32)
    requires
        next <= processor_count,
        processor_count > 0,
    ensures
        spawn::clone_core(next, processor_count) < processor_count,
        next < processor_count ==> spawn::clone_core(next, processor_count) == next,
        next < processor_count ==> spawn::clone_next(next, processor_count) == next + 1,
        next == processor_count ==> spawn::clone_core(next, processor_count) == 0,
        next == processor_count ==> spawn::clone_next(next, processor_count) == 0,
{
}

/// Tasks that ended are released: they are forgotten, none of them is left to release, and
/// all other tasks stay.
pub proof fn lemma_reap_effect(c: CoreState, k: i32)
    ensures
        ({
            let d = state::reaped(c);
            &&& d.finished.len() == 0
            &&& d.tasks.contains_key(k) <==> c.tasks.contains_key(k) && !c.finished.contains(
                TaskId(k),
            )
            &&& d.tasks.contains_key(k) ==> d.tasks[k] == c.tasks[k]
            &&& d == (CoreState { tasks: d.tasks, finished: d.finished, ..c })
        }),
{
}

/// What other cores handed over is taken: in the queue of each priority the tasks that they
/// woke come before their new tasks, and both behind those that were there.
pub proof fn lemma_input_effect(c: CoreState, input: SchedulerInput, p: int)
    requires
        state::inv(c),
        input::input_ok(c, input),
        0 <= p < NO_PRIORITIES,
    ensures
        ({
            let d = input::input_taken(c, input);
            &&& d.ready[p] == c.ready[p] + of_priority(
                ids_of(input.wakeup_tasks@),
                c.tasks,
                p,
            ) + new_of_priority(input.new_tasks@, p)
            &&& d.current == c.current
            &&& d.finished == c.finished
            &&& forall|t: TaskId|
                ids_of(input.wakeup_tasks@).contains(t) ==> !#[trigger] blocked::names(
                    d.blocked,
                    t,
                )
            &&& forall|i: int|
                0 <= i < input.new_tasks@.len() ==> d.tasks.contains_key(
                    (#[trigger] input.new_tasks@[i]).tid.0,
                ) && is_new(d.tasks[input.new_tasks@[i].tid.0], input.new_tasks@[i])
        }),
{
    let d = input::all_hand_woken(c, input.wakeup_tasks@);
    let news = input.new_tasks@;
    lemma_handed_wakes_effect(c, input.wakeup_tasks@);
    input::lemma_all_hand_woken(c, input.wakeup_tasks@);
    assert(input::news_ok(d, news)) by {
        assert forall|i: int| 0 <= i < news.len() implies input::new_ok(d, #[trigger] news[i]) by {
            assert(input::new_ok(c, news[i]));
        }
    }
    lemma_handed_tasks_effect(d, news);
}

/// A wake makes a blocked task ready, unless its frame is being copied: then it is remembered.
/// It changes nothing else, and nothing at all of a task that is ready.
pub proof fn lemma_mark_ready_effect(task: Task, core_id: u32)
    requires
        blocked::wakeable(task, core_id),
    ensures
        ({
            let w = blocked::woken(task);
            &&& blocked::wakes(task) <==> task.status == TaskStatus::Blocked
                && task.frame_location != FrameLocation::BeingEvicted
            &&& blocked::wakes(task) ==> w.status == TaskStatus::Ready && w.wake_pending
                == task.wake_pending
            &&& task.status == TaskStatus::Ready ==> w == task
            &&& task.status == TaskStatus::Blocked && task.frame_location
                == FrameLocation::BeingEvicted ==> w.status == TaskStatus::Blocked
                && w.wake_pending
            &&& w == (Task { status: w.status, wake_pending: w.wake_pending, ..task })
        }),
{
}

/// A task that ended is started again, from its own entry point, with its own argument and
/// priority, exactly if its policy permits that and the entry point lies in the kernel's image.
/// The entries of other entry points in the restart table stay as they are.
pub proof fn lemma_restart_request_effect(
    task: Task,
    words: Map<u64, u64>,
    before: Seq<RestartEntry>,
    after: Seq<RestartEntry>,
    now: u64,
    image_start: u64,
    image_end: u64,
    r: exit::Exited,
)
    requires
        exit::is_exit(task, words, before, after, now, image_start, image_end, r),
    ensures
        ({
            let i = supervisor::entry_index(task.entry_point_id);
            &&& r.restart is Some <==> before[i].permits(now) && task.entry != 0 && task.entry
                != 0xffff_ffff_ffff_ffff && image_start <= task.entry && task.entry < image_end
            &&& r.restart matches Some(q) ==> q.entry == task.entry && q.entry_arg
                == task.entry_arg && q.prio == task.prio
            &&& before[i].looked_at(now, after[i])
            &&& forall|j: int| 0 <= j < 2 && j != i ==> #[trigger] after[j] == before[j]
            &&& r.scan is Some <==> task.last_stack_pointer != 0
        }),
{
}

/// The pages that are mapped for a task are those of its two stacks, and no guard page; their
/// memory is one piece, the kernel stack's first.
pub proof fn lemma_mappings_effect(
    p: Provided,
    size: int,
    kernel: PageMapping,
    user: PageMapping,
)
    requires
        spawn::regions_fit(p, size),
        spawn::maps_stacks(p, size, kernel, user),
    ensures
        ({
            let stacks = spawn::stacks_for(p, size);
            &&& kernel.virt_addr == stacks.kernel_stack()
            &&& kernel.pages * 4096 == stacks.kernel_stack_size()
            &&& kernel.phys_addr == p.phys_addr
            &&& user.virt_addr == stacks.user_stack()
            &&& user.pages * 4096 == stacks.user_stack_size()
            &&& user.phys_addr == kernel.phys_addr + kernel.pages * 4096
        }),
{
    lemma_stacks_effect(p, size);
}

/// The idle task of a core is idle and of the lowest priority, has nothing open of its own,
/// starts at the entry point without an argument from a frame below the marker of its kernel
/// stack, and has the thread pointer that was given.
pub proof fn lemma_idle_effect(
    tid: TaskId,
    core_id: u32,
    stacks: TaskStacks,
    entry: u64,
    thread_ptr: Option<u64>,
)
    requires
        stacks is Common,
        stacks.wf(),
    ensures
        ({
            let t = boot::idle_task(tid, core_id, stacks, entry, thread_ptr);
            &&& t.id == tid
            &&& t.core_id == core_id
            &&& t.status == TaskStatus::Idle
            &&& t.prio.0 == 0
            &&& t.entry == entry
            &&& t.entry_arg == 0
            &&& t.entry_point_id == EntryPointId::Idle
            &&& t.tls == thread_ptr
            &&& t.stacks == stacks
            &&& t.object_map is None
            &&& t.slot is None
            &&& !t.wake_pending
            &&& t.last_touch@ == 0
            &&& t.last_fpu_state == FpuState(0)
            &&& t.last_stack_pointer + 288 + 16 == stacks.kernel_stack()
                + stacks.kernel_stack_size()
            &&& t.user_stack_pointer + 16 == stacks.user_stack() + stacks.user_stack_size()
        }),
{
}

/// The open files of the running task are its own, or those that idle tasks share if it has
/// none. What is opened or closed changes those and nothing else: no other task, no queue, and
/// not the files of idle tasks where the task has its own.
pub proof fn lemma_files_effect(
    c: CoreState,
    idle_files: Map<i32, u64>,
    files: Map<i32, u64>,
    after: CoreState,
    idle_after: Map<i32, u64>,
)
    requires
        c.tasks.contains_key(c.current.0),
        objects::files_changed(c, idle_files, files, after, idle_after),
    ensures
        spawn::current_files(after, idle_after) == files,
        c.tasks[c.current.0].object_map is Some ==> idle_after == idle_files
            && after.tasks[c.current.0].object_map is Some,
        c.tasks[c.current.0].object_map is None ==> after.tasks[c.current.0].object_map is None,
        others_kept(c, after, c.current),
        after.tasks[c.current.0].status == c.tasks[c.current.0].status,
        after.tasks[c.current.0].prio == c.tasks[c.current.0].prio,
        after.ready == c.ready,
        after.blocked == c.blocked,
        after.timers == c.timers,
        same_core(c, after),
{
}

/// Identifiers are tried upwards from the counter, from the largest on to the smallest. The one
/// that is taken belongs to no task, and every one before it does.
pub proof fn lemma_next_tid_effect(tasks: Map<i32, TaskHandle>, counter: i32, id: i32)
    requires
        registry::is_next_tid(tasks, counter, id),
    ensures
        !tasks.contains_key(id),
        !tasks.contains_key(counter) ==> id == counter,
        id >= counter ==> forall|k: i32| counter <= k < id ==> #[trigger] tasks.contains_key(k),
        id < counter ==> forall|k: i32| k >= counter || k < id ==> #[trigger] tasks.contains_key(k),
        id < i32::MAX ==> registry::advanced(id, 1) == id + 1,
        id == i32::MAX ==> registry::advanced(id, 1) == i32::MIN,
{
    let n = choose|n: int|
        0 <= n < 0x1_0000_0000 && id == #[trigger] registry::advanced(counter, n) && forall|m: int|
            0 <= m < n ==> tasks.contains_key(#[trigger] registry::advanced(counter, m) as i32);
    if n > 0 {
        assert(registry::advanced(counter, 0) == counter);
        assert(tasks.contains_key(registry::advanced(counter, 0) as i32));
    }
    assert forall|k: i32|
        (id >= counter && counter <= k < id) || (id < counter && (k >= counter || k
            < id)) implies #[trigger] tasks.contains_key(k) by {
        let m = if k >= counter {
            k - counter
        } else {
            k - counter + 0x1_0000_0000
        };
        assert(registry::advanced(counter, m) == k);
        assert(tasks.contains_key(registry::advanced(counter, m) as i32));
    }
}

/// What is handed to another core joins the end of what that core has to take, that core is
/// woken up, and nothing else changes: not what other cores have to take, and not who is known.
pub proof fn lemma_hand_effect(r: RegistryState, task: TaskHandle, new: NewTask, j: int)
    requires
        task.core_id < r.inputs.len(),
        new.core_id < r.inputs.len(),
        0 <= j < r.inputs.len(),
    ensures
        ({
            let s = registry::wake_handed(r, task);
            &&& j == task.core_id ==> s.inputs[j].wakeup_tasks == r.inputs[j].wakeup_tasks.push(
                task,
            ) && s.inputs[j].new_tasks == r.inputs[j].new_tasks
            &&& j != task.core_id ==> s.inputs[j] == r.inputs[j]
            &&& s.core_wakeups == r.core_wakeups.push(task.core_id)
            &&& s.inputs.len() == r.inputs.len()
            &&& s == (RegistryState { inputs: s.inputs, core_wakeups: s.core_wakeups, ..r })
        }),
        ({
            let s = registry::task_handed(r, new);
            &&& j == new.core_id ==> s.inputs[j].new_tasks == r.inputs[j].new_tasks.push(new)
                && s.inputs[j].wakeup_tasks == r.inputs[j].wakeup_tasks
            &&& j != new.core_id ==> s.inputs[j] == r.inputs[j]
            &&& s.core_wakeups == r.core_wakeups.push(new.core_id)
            &&& s.inputs.len() == r.inputs.len()
            &&& s == (RegistryState { inputs: s.inputs, core_wakeups: s.core_wakeups, ..r })
        }),
{
}

/// A new task is known from then on under its own identifier, with its priority and core, and
/// nobody waits for its end. No other task is forgotten.
pub proof fn lemma_register_effect(
    r: RegistryState,
    tid: TaskId,
    prio: Priority,
    core_id: u32,
    k: i32,
)
    ensures
        ({
            let s = registry::registered(r, tid, prio, core_id);
            &&& s.tasks.contains_key(tid.0)
            &&& s.tasks[tid.0].id == tid
            &&& s.tasks[tid.0].priority == prio
            &&& s.tasks[tid.0].core_id == core_id
            &&& s.waiting.contains_key(tid.0)
            &&& s.waiting[tid.0].len() == 0
            &&& k != tid.0 ==> s.tasks.contains_key(k) == r.tasks.contains_key(k) && s.tasks[k]
                == r.tasks[k] && s.waiting.contains_key(k) == r.waiting.contains_key(k)
                && s.waiting[k] == r.waiting[k]
            &&& s == (RegistryState { tasks: s.tasks, waiting: s.waiting, ..r })
        }),
{
}

/// The handle of the running task names that task, its priority and its core.
pub proof fn lemma_current_handle_effect(s: &PerCoreScheduler)
    ensures
        s.current_handle().id == s.tasks@[s.current_task.0].id,
        s.current_handle().priority == s.tasks@[s.current_task.0].prio,
        s.current_handle().core_id == s.tasks@[s.current_task.0].core_id,
{
}

/// What counts the tasks and the cores wraps around at its largest value.
pub proof fn lemma_counters_wrap(n: u32)
    ensures
        n < u32::MAX ==> registry::wrapping_next(n) == n + 1,
        n > 0 ==> exit::wrapping_prev(n) == n - 1,
        exit::wrapping_prev(registry::wrapping_next(n)) == n,
        registry::wrapping_next(exit::wrapping_prev(n)) == n,
{
}

/// Running the scheduler tells which task ran before if another one runs then, hands over all
/// tasks that had ended before, in their order, and pokes the reactor if there were any on core 0.
pub proof fn lemma_scheduler_result(
    s: &mut PerCoreScheduler,
    m: &mut Machine,
    now: u64,
    r: Rescheduled,
)
    requires
        old(s).wf(old(m)),
        call_ensures(PerCoreScheduler::scheduler, (s, m, now), r),
    ensures
        r.previous is None <==> final(s).current_task == old(s).current_task,
        r.previous matches Some(t) ==> t == old(s).current_task,
        r.reaped@.len() == old(s).finished_tasks@.len(),
        forall|i: int|
            0 <= i < r.reaped@.len() ==> #[trigger] r.reaped@[i] == old(s).tasks@[old(
                s,
            ).finished_tasks@[i].0],
        r.poke_reactor <==> old(s).finished_tasks@.len() > 0 && old(s).core_id == 0,
        final(s).kernel_sp == state::scheduled(old(s).state(old(m)), now).kernel_sp,
        final(s).current_task == state::scheduled(old(s).state(old(m)), now).current,
{
}

/// Handing over the floating-point registers loads what was saved for the running task, and saves
/// what they hold for the task that owned them; nothing happens if it owns them.
pub proof fn lemma_fpu_switch_result(
    s: &mut PerCoreScheduler,
    m: Machine,
    live: FpuState,
    r: Option<FpuState>,
    keeps: bool,
)
    requires
        old(s).wf(&m),
        call_ensures(PerCoreScheduler::fpu_switch, (s, &m, live), r),
        call_ensures(PerCoreScheduler::keeps_fpu, (old(s), &m), keeps),
    ensures
        r is None <==> old(s).current_task == old(s).fpu_owner,
        r matches Some(load) ==> load == old(s).tasks@[old(s).current_task.0].last_fpu_state,
        r is Some ==> final(s).tasks@[old(s).fpu_owner.0].last_fpu_state == live,
        final(s).fpu_owner == old(s).current_task,
        final(s).current_task == old(s).current_task,
        keeps <==> r is None || old(s).tasks@[old(s).current_task.0].status == TaskStatus::Idle,
{
    assert(final(s).state(&m).fpu_owner == final(s).fpu_owner);
    assert(final(s).state(&m).tasks == final(s).tasks@);
    assert(final(s).state(&m).current == final(s).current_task);
}

/// The kernel is entered from a task 16 bytes below the top of its kernel stack, and a task of
/// higher priority than the running one is waiting exactly if a ready queue above it holds one.
pub proof fn lemma_entry_and_wait_result(
    s: PerCoreScheduler,
    m: Machine,
    sp: u64,
    waits: bool,
)
    requires
        s.wf(&m),
        call_ensures(PerCoreScheduler::set_current_kernel_stack, (&s, &m), sp),
        call_ensures(PerCoreScheduler::is_scheduling, (&s, &m), waits),
    ensures
        ({
            let task = s.tasks@[s.current_task.0];
            &&& sp + 16 == task.stacks.kernel_stack() + task.stacks.kernel_stack_size()
            &&& waits <==> exists|p: int|
                task.prio.0 < p < NO_PRIORITIES && (#[trigger] s.ready_queue@[p]).len() > 0
        }),
{
    let q = s.ready_queue@;
    priority_queue::lemma_highest_below(q, NO_PRIORITIES as int);
    assert(q.len() == NO_PRIORITIES);
    let h = priority_queue::highest(q);
    if h > s.tasks@[s.current_task.0].prio.0 {
        assert(q[h].len() > 0);
    }
}

/// Noting where the frame of a task that stopped lies changes that of the task and nothing else.
pub proof fn lemma_save_result(s: &mut PerCoreScheduler, m: Machine, id: TaskId, frame: u64)
    requires
        old(s).wf(&m),
        old(s).tasks@.contains_key(id.0),
        call_ensures(PerCoreScheduler::save_stack_pointer, (s, &m, id, frame), ()),
    ensures
        final(s).tasks@[id.0].last_stack_pointer == frame,
        final(s).tasks@[id.0].status == old(s).tasks@[id.0].status,
        others_kept(old(s).state(&m), final(s).state(&m), id),
        final(s).current_task == old(s).current_task,
        final(s).ready_queue@ == old(s).ready_queue@,
        final(s).blocked_tasks@ == old(s).blocked_tasks@,
{
    assert(final(s).state(&m).tasks == final(s).tasks@);
    assert(final(s).state(&m).current == final(s).current_task);
    assert(final(s).state(&m).ready == final(s).ready_queue@);
    assert(final(s).state(&m).blocked == final(s).blocked_tasks@);
}

/// A turn of the idle loop lets the scheduler run exactly if some task is ready once what was
/// handed over is taken; otherwise the core waits as soon as it backed off long enough.
pub proof fn lemma_idle_turn_result(
    s: &mut PerCoreScheduler,
    m: &mut Machine,
    i: &mut SchedulerInput,
    backed_off: bool,
    r: IdleTurn,
)
    requires
        old(s).wf(old(m)),
        input::input_ok(old(s).state(old(m)), *old(i)),
        call_ensures(PerCoreScheduler::run, (s, m, i, backed_off), r),
    ensures
        ({
            let c = input::input_taken(old(s).state(old(m)), *old(i));
            &&& r.action is Reschedule <==> exists|p: int|
                0 <= p < c.ready.len() && (#[trigger] c.ready[p]).len() > 0
            &&& r.action is EnableAndWait ==> backed_off
            &&& r.action is EnableAndSnooze ==> !backed_off
            &&& r.poke_reactor <==> c.finished.len() > 0 && c.core_id == 0
            &&& r.reaped@.len() == c.finished.len()
            &&& final(i).new_tasks@.len() == 0 && final(i).wakeup_tasks@.len() == 0
            &&& final(s).finished_tasks@.len() == 0
        }),
{
    let c = input::input_taken(old(s).state(old(m)), *old(i));
    priority_queue::lemma_highest_below(c.ready, c.ready.len() as int);
    let h = priority_queue::highest(c.ready);
    if h >= 0 {
        assert(c.ready[h].len() > 0);
    }
    assert(final(s).state(final(m)).finished == final(s).finished_tasks@);
}

/// Waiting for the end of a task blocks the running one exactly if that task is known: it is the
/// last of those that wait for it, and has no time at which it wakes up by itself.
pub proof fn lemma_join_result(
    s: &mut PerCoreScheduler,
    m: Machine,
    g: &mut TaskRegistry,
    id: TaskId,
    r: JoinStep,
)
    requires
        old(s).wf(&m),
        old(g)@.waiting.contains_key(id.0) ==> old(s).tasks@[old(s).current_task.0].status
            == TaskStatus::Running,
        call_ensures(input::join, (s, &m, g, id), r),
    ensures
        r is Wait <==> old(g)@.waiting.contains_key(id.0),
        r is Done ==> final(s).state(&m) == old(s).state(&m) && final(g)@ == old(g)@,
        r is Wait ==> {
            let me = old(s).current_task;
            let queue = final(g)@.waiting[id.0];
            &&& queue.len() == old(g)@.waiting[id.0].len() + 1
            &&& queue.drop_last() == old(g)@.waiting[id.0]
            &&& queue.last().id == me
            &&& queue.last().core_id == old(s).tasks@[me.0].core_id
            &&& final(s).state(&m).tasks[me.0].status == TaskStatus::Blocked
            &&& final(s).state(&m).blocked.last() == (BlockedTask { task: me, wakeup_time: None })
            &&& final(s).state(&m).timers == old(s).state(&m).timers
            &&& final(g)@.tasks == old(g)@.tasks
        },
{
    if r is Wait {
        let c = old(s).state(&m);
        assert(state::task_ok(c, c.current.0));
        lemma_block_effect(c, None);
        let queue = final(g)@.waiting[id.0];
        assert(queue.drop_last() =~= old(g)@.waiting[id.0]);
    }
}

/// Core 0 alone drains the executor. A core that cannot go on ends the running task with -1, and
/// halts if it has none; the system stops with the code that was given.
pub proof fn lemma_core_decisions(
    s: PerCoreScheduler,
    asked: bool,
    drains: bool,
    has_scheduler: bool,
    a: exit::AbortAction,
    arg: i32,
    stop: exit::Shutdown,
)
    requires
        call_ensures(PerCoreScheduler::drains_executor, (&s, asked), drains),
        call_ensures(exit::abort, (has_scheduler,), a),
        call_ensures(exit::shutdown, (arg,), stop),
    ensures
        drains <==> asked && s.core_id == 0,
        a is Halt <==> !has_scheduler,
        a matches exit::AbortAction::EndTask { exit_code } ==> exit_code == -1,
        stop.code == arg,
{
}

/// When the core goes to another task, the kernel stack pointer is the end of that task's kernel
/// stack, and that task runs.
pub proof fn lemma_switch_result(
    s: &mut PerCoreScheduler,
    m: &mut Machine,
    now: u64,
    r: Rescheduled,
)
    requires
        old(s).wf(old(m)),
        call_ensures(PerCoreScheduler::scheduler, (s, m, now), r),
        final(s).current_task != old(s).current_task,
    ensures
        ({
            let task = old(s).tasks@[final(s).current_task.0];
            let after = final(s).tasks@[final(s).current_task.0];
            &&& final(s).kernel_sp == task.stacks.kernel_stack() + task.stacks.kernel_stack_size()
            &&& same_task(task, after)
            &&& after.status == (if final(s).current_task == old(s).idle_task {
                TaskStatus::Idle
            } else {
                TaskStatus::Running
            })
            &&& r.previous == Some(old(s).current_task)
        }),
{
    let c = old(s).state(old(m));
    let d = final(s).state(final(m));
    assert(d == state::scheduled(c, now));
    assert(d.kernel_sp == final(s).kernel_sp && d.current == final(s).current_task && d.tasks
        == final(s).tasks@);
    assert(dispatches(c, now)) by {
        lemma_no_switch_current(c, now);
    }
    lemma_switch_effect(c, now);
}

proof fn lemma_no_switch_current(c: CoreState, now: u64)
    requires
        state::inv(c),
    ensures
        !dispatches(c, now) ==> state::scheduled(c, now).current == c.current,
{
    if !dispatches(c, now) {
        lemma_no_switch_effect(c, now);
    }
}

/// A task that is woken by hand is last in the ready queue of the priority that it has, and is
/// ready.
pub proof fn lemma_wake_local_result(s: &mut PerCoreScheduler, m: Machine, task: TaskHandle, q: int)
    requires
        old(s).wf(&m),
        blocked::names(old(s).blocked_tasks@, task.id),
        call_ensures(PerCoreScheduler::wake_local, (s, &m, task), ()),
        0 <= q < NO_PRIORITIES,
    ensures
        ({
            let p = old(s).tasks@[task.id.0].prio.0;
            &&& q == p ==> final(s).ready_queue@[q] == old(s).ready_queue@[q].push(task.id)
            &&& q != p ==> final(s).ready_queue@[q] == old(s).ready_queue@[q]
            &&& final(s).tasks@[task.id.0].status == TaskStatus::Ready
            &&& final(s).tasks@[task.id.0].prio == old(s).tasks@[task.id.0].prio
            &&& final(s).blocked_tasks@.len() == old(s).blocked_tasks@.len() - 1
            &&& !blocked::names(final(s).blocked_tasks@, task.id)
        }),
{
    let c = old(s).state(&m);
    let d = final(s).state(&m);
    lemma_wake_effect(c, task.id);
    wake::lemma_hand_woken(c, task.id);
    assert(d.ready == final(s).ready_queue@ && d.tasks == final(s).tasks@ && d.blocked
        == final(s).blocked_tasks@);
    assert(c.ready == old(s).ready_queue@ && c.tasks == old(s).tasks@ && c.blocked
        == old(s).blocked_tasks@);
    assert(old(s).ready_queue.wf());
    if blocked::names(d.blocked, task.id) {
        assert(state::status_ok(d, task.id.0));
    }
}

/// A task that blocks itself is blocked, is among those that wait with its time, and is in no
/// ready queue more than before.
pub proof fn lemma_block_result(s: &mut PerCoreScheduler, m: Machine, time: Option<u64>)
    requires
        old(s).wf(&m),
        old(s).tasks@[old(s).current_task.0].status == TaskStatus::Running,
        call_ensures(PerCoreScheduler::block_current_task, (s, &m, time), ()),
    ensures
        final(s).tasks@[old(s).current_task.0].status == TaskStatus::Blocked,
        final(s).ready_queue@ == old(s).ready_queue@,
        final(s).current_task == old(s).current_task,
        exists|i: int| #[trigger]
            is_inserted(
                old(s).blocked_tasks@,
                final(s).blocked_tasks@,
                i,
                old(s).current_task,
                time,
            ),
        time matches Some(t) ==> final(s).timer_requests@ == old(s).timer_requests@.push(t),
        time is None ==> final(s).timer_requests@ == old(s).timer_requests@,
{
    let c = old(s).state(&m);
    let d = final(s).state(&m);
    lemma_block_effect(c, time);
    assert(d.ready == final(s).ready_queue@ && d.tasks == final(s).tasks@ && d.blocked
        == final(s).blocked_tasks@ && d.timers == final(s).timer_requests@ && d.current
        == final(s).current_task);
}

/// A new task becomes a ready task that is what was asked for: its identifier, priority, core,
/// stacks, files, entry point and argument, and the thread pointer that was provided for it.
pub proof fn lemma_into_task_result(new: NewTask, m: &mut Memory, r: Task)
    requires
        old(m).wf(),
        new.stacks is Common,
        new.stacks.wf(),
        new.stacks.mapped(old(m)@),
        call_ensures(NewTask::into_task, (new, m), r),
    ensures
        r.status == TaskStatus::Ready,
        r.id == new.tid,
        r.prio == new.prio,
        r.core_id == new.core_id,
        r.stacks == new.stacks,
        r.object_map == Some(new.object_map),
        r.entry == new.func,
        r.entry_arg == new.arg,
        r.tls == new.provided.thread_ptr,
        r.slot is None,
        r.last_stack_pointer == new.stacks.kernel_stack() + new.stacks.kernel_stack_size() - 304,
        r.user_stack_pointer == new.stacks.user_stack() + new.stacks.user_stack_size() - 16,
        final(m)@.dom() == old(m)@.dom(),
{
    lemma_new_task_effect(new);
}

/// The end of a task: it is finished, nobody knows it or waits for it any more, one task less is
/// counted, and it is started again exactly as its policy says.
pub proof fn lemma_exit_result(
    s: &mut PerCoreScheduler,
    m: &mut Machine,
    g: &mut TaskRegistry,
    t: &mut RestartTable,
    now: u64,
    image_start: u64,
    image_end: u64,
    r: exit::Exited,
)
    requires
        old(s).wf(old(m)),
        old(s).tasks@[old(s).current_task.0].status == TaskStatus::Running,
        old(g)@.waiting.contains_key(old(s).current_task.0),
        old(g)@.no_tasks > 0,
        exit::can_wake_all(
            exit::ended(old(s).state(old(m))),
            old(g)@,
            exit::waiters(old(g)@, old(s).current_task),
        ),
        call_ensures(PerCoreScheduler::exit, (s, m, g, t, now, image_start, image_end), r),
    ensures
        ({
            let me = old(s).current_task;
            let task = old(s).tasks@[me.0];
            let i = supervisor::entry_index(task.entry_point_id);
            &&& final(s).tasks@[me.0].status == TaskStatus::Finished
            &&& final(s).current_task == me
            &&& !final(g)@.tasks.contains_key(me.0)
            &&& !final(g)@.waiting.contains_key(me.0)
            &&& final(g)@.no_tasks == old(g)@.no_tasks - 1
            &&& r.restart is Some <==> old(t)@[i].permits(now) && image_start <= task.entry
                && task.entry < image_end && task.entry != 0 && task.entry
                != 0xffff_ffff_ffff_ffff
            &&& r.restart matches Some(q) ==> q.entry == task.entry && q.entry_arg
                == task.entry_arg && q.prio == task.prio
        }),
{
    let c = old(s).state(old(m));
    let d = final(s).state(final(m));
    lemma_exit_effect(c, old(g)@);
    assert(d.tasks == final(s).tasks@ && d.current == final(s).current_task);
    let e = choose|e: CoreState| #[trigger]
        task_ended(c, e) && all_told(
            e,
            (RegistryState {
                no_tasks: (old(g)@.no_tasks - 1) as u32,
                waiting: old(g)@.waiting.remove(c.current.0),
                tasks: old(g)@.tasks.remove(c.current.0),
                ..old(g)@
            }),
            old(g)@.waiting[c.current.0],
            d,
            final(g)@,
        );
    assert(e.current == c.current);
}

} // verus!
