//! What a core's scheduler is in, and how its operations change it.

use vstd::prelude::*;

use crate::arch::aarch64::kernel::slot_pool::FREE;
use crate::config::SLOTS_PER_CORE;
use crate::duration::Duration;
use crate::scheduler::task::blocked::BlockedTask;
use crate::scheduler::task::{FrameLocation, Task, TaskId, TaskStatus, NO_PRIORITIES};

verus! {

/// Everything that scheduling on one core depends on.
#[verifier::ext_equal]
pub struct CoreState {
    /// The core.
    pub core_id: u32,
    /// The task that runs.
    pub current: TaskId,
    /// The idle task.
    pub idle: TaskId,
    /// The task whose floating-point registers are loaded.
    pub fpu_owner: TaskId,
    /// The tasks by the numbers of their identifiers.
    pub tasks: Map<i32, Task>,
    /// The ready queues by priority.
    pub ready: Seq<Seq<TaskId>>,
    /// The blocked tasks.
    pub blocked: Seq<BlockedTask>,
    /// The tasks that ended and wait to be released.
    pub finished: Seq<TaskId>,
    /// The kernel stack pointer for the running task.
    pub kernel_sp: u64,
    /// The times for which the timer is to be set.
    pub timers: Seq<u64>,
    /// Where the exception slots lie.
    pub slot_base: u64,
    /// The owners of this core's slots.
    pub owners: Seq<i32>,
    /// The memory that holds stacks and frames.
    pub words: Map<u64, u64>,
}

/// Whether a task may still be dispatched.
pub open spec fn live(task: Task) -> bool {
    task.status != TaskStatus::Finished && task.status != TaskStatus::Invalid
}

/// What holds of every task of the core.
pub open spec fn task_ok(c: CoreState, k: i32) -> bool {
    let task = c.tasks[k];
    &&& task.id.0 == k
    &&& k >= 0
    &&& task.core_id == c.core_id
    &&& task.prio.0 < NO_PRIORITIES
    &&& task.stacks.wf()
    &&& task.last_touch.wf()
    &&& !task.wake_pending
    &&& task.frame_location != FrameLocation::BeingEvicted
}

/// A task's status says where it is: each task is in exactly the place that
/// its status names.
pub open spec fn status_ok(c: CoreState, k: i32) -> bool {
    match c.tasks[k].status {
        TaskStatus::Ready => crate::scheduler::task::priority_queue::queued(c.ready, TaskId(k)),
        TaskStatus::Blocked => crate::scheduler::task::blocked::names(c.blocked, TaskId(k)),
        TaskStatus::Invalid => c.finished.contains(TaskId(k)),
        TaskStatus::Idle => k == c.idle.0,
        TaskStatus::Running => k == c.current.0,
        TaskStatus::Finished => k == c.current.0,
    }
}

/// A task that may be dispatched and has a slot owns it.
pub open spec fn slot_ok(c: CoreState, k: i32) -> bool {
    let task = c.tasks[k];
    live(task) && task.slot is Some ==> {
        &&& task.slot->0 < SLOTS_PER_CORE
        &&& task.frame_location == FrameLocation::InSlot
        &&& c.owners[task.slot->0 as int] == k
    }
}

/// The frame of a task that may be dispatched is mapped, and so is the place
/// on its kernel stack where the frame is kept without a slot.
pub open spec fn frames_ok(c: CoreState, k: i32) -> bool {
    let task = c.tasks[k];
    live(task) ==> {
        &&& crate::memory::frame_mapped(c.words, task.last_stack_pointer as int)
        &&& crate::memory::frame_mapped(c.words, task.stacks.persistent_frame())
    }
}

/// The queues name each task at most once, and name only tasks with the status
/// that belongs there.
pub open spec fn queues_ok(c: CoreState) -> bool {
    &&& c.ready.len() == NO_PRIORITIES
    &&& crate::scheduler::task::priority_queue::unique(c.ready)
    &&& crate::scheduler::task::blocked::distinct(c.blocked)
    &&& crate::scheduler::task::blocked::sorted(c.blocked)
    &&& c.finished.no_duplicates()
    &&& forall|t: TaskId| #[trigger]
        crate::scheduler::task::priority_queue::queued(c.ready, t) ==> c.tasks.contains_key(t.0)
            && c.tasks[t.0].status == TaskStatus::Ready
    &&& forall|t: TaskId| #[trigger]
        crate::scheduler::task::blocked::names(c.blocked, t) ==> c.tasks.contains_key(t.0)
            && c.tasks[t.0].status == TaskStatus::Blocked
    &&& forall|t: TaskId| #[trigger]
        c.finished.contains(t) ==> c.tasks.contains_key(t.0) && c.tasks[t.0].status
            == TaskStatus::Invalid
}

/// The invariant of a core's scheduler, apart from what it says of the task
/// that runs.
pub open spec fn consistent(c: CoreState) -> bool {
    &&& queues_ok(c)
    &&& forall|k: i32| #[trigger]
        c.tasks.contains_key(k) ==> task_ok(c, k) && status_ok(c, k) && slot_ok(c, k) && frames_ok(
            c,
            k,
        )
    &&& c.tasks.contains_key(c.current.0)
    &&& c.tasks.contains_key(c.idle.0)
    &&& c.tasks[c.idle.0].status == TaskStatus::Idle
    &&& c.tasks.contains_key(c.fpu_owner.0)
    &&& c.tasks[c.fpu_owner.0].status != TaskStatus::Invalid
    &&& c.owners.len() == SLOTS_PER_CORE
    &&& forall|i: int|
        0 <= i < SLOTS_PER_CORE ==> crate::memory::frame_mapped(
            c.words,
            #[trigger] crate::arch::aarch64::kernel::slot_pool::slot_frame(
                c.slot_base,
                c.core_id,
                i,
            ),
        )
}

/// The invariant of a core's scheduler.
pub open spec fn inv(c: CoreState) -> bool {
    &&& consistent(c)
    &&& c.tasks[c.current.0].status != TaskStatus::Invalid
}

/// `c` with another status of the task `id`.
pub open spec fn with_status(c: CoreState, id: TaskId, status: TaskStatus) -> CoreState {
    CoreState { tasks: c.tasks.insert(id.0, Task { status, ..c.tasks[id.0] }), ..c }
}

/// `c` once the task `id` was touched at `now` microseconds.
pub open spec fn touched(c: CoreState, id: TaskId, now: u64) -> CoreState {
    CoreState {
        tasks: c.tasks.insert(
            id.0,
            Task { last_touch: Duration::spec_from_micros(now), ..c.tasks[id.0] },
        ),
        ..c
    }
}

/// `c` once the task `id` got slot `i`, with its frame at the slot's top.
pub open spec fn given_slot(c: CoreState, id: TaskId, i: int) -> CoreState {
    let task = c.tasks[id.0];
    let frame = crate::arch::aarch64::kernel::slot_pool::slot_frame(c.slot_base, c.core_id, i);
    CoreState {
        tasks: c.tasks.insert(
            id.0,
            crate::arch::aarch64::kernel::slot_pool::placed(task, frame, i),
        ),
        owners: c.owners.update(i, id.0),
        words: crate::memory::frame_copied(c.words, task.last_stack_pointer as int, frame),
        ..c
    }
}

/// `c` once the task `id` was evicted from its slot.
pub open spec fn slot_taken(c: CoreState, id: TaskId) -> CoreState {
    let task = c.tasks[id.0];
    let i = task.slot->0 as int;
    let frame = crate::arch::aarch64::kernel::slot_pool::slot_frame(c.slot_base, c.core_id, i);
    CoreState {
        tasks: c.tasks.insert(id.0, crate::arch::aarch64::kernel::slot_pool::evicted(task)),
        owners: c.owners.update(i, FREE),
        words: crate::memory::frame_copied(c.words, frame, task.stacks.persistent_frame()),
        ..c
    }
}

/// Whether the task `id` is dispatched from where its frame lies: it has a
/// slot, or its frame is one of exception level 1 with that level's stack,
/// which must be resumed in place.
pub open spec fn stays(c: CoreState, id: TaskId) -> bool {
    let task = c.tasks[id.0];
    ||| task.slot is Some && task.frame_location == FrameLocation::InSlot
    ||| task.last_stack_pointer != 0 && c.words[task.last_stack_pointer] & 1 == 1
}

/// `c` once the task `id`, which is about to run at `now`, has a slot if it
/// needs one and one can be had: a free one, or that of the victim. Otherwise
/// it runs from its kernel stack.
pub open spec fn slot_ensured(c: CoreState, id: TaskId, now: u64) -> CoreState {
    let t = touched(c, id, now);
    let free = crate::arch::aarch64::kernel::slot_pool::first_free(c.owners);
    let victim = crate::scheduler::task::blocked::victim(
        c.blocked,
        t.tasks,
        Duration::spec_from_micros(now),
    );
    if stays(t, id) {
        t
    } else if free < SLOTS_PER_CORE {
        given_slot(t, id, free)
    } else {
        match victim {
            None => t,
            Some(k) => {
                let v = c.blocked[k].task;
                given_slot(slot_taken(t, v), id, t.tasks[v.0].slot->0 as int)
            },
        }
    }
}

/// Touching a task keeps the invariant.
pub proof fn lemma_touched(c: CoreState, id: TaskId, now: u64)
    requires
        consistent(c),
        c.tasks.contains_key(id.0),
    ensures
        consistent(touched(c, id, now)),
{
    let t = touched(c, id, now);
    assert(t.tasks.contains_key(id.0));
    assert forall|k: i32| #[trigger] t.tasks.contains_key(k) implies task_ok(t, k) && status_ok(
        t,
        k,
    ) && slot_ok(t, k) && frames_ok(t, k) by {
        assert(c.tasks.contains_key(k));
    }
    assert(queues_ok(t));
}

/// Evicting a blocked task keeps the invariant, and frees its slot alone.
pub proof fn lemma_slot_taken(c: CoreState, id: TaskId)
    requires
        consistent(c),
        c.tasks.contains_key(id.0),
        crate::scheduler::task::blocked::resident(c.tasks[id.0]),
    ensures
        consistent(slot_taken(c, id)),
        slot_taken(c, id).words.dom() == c.words.dom(),
{
    let t = slot_taken(c, id);
    let task = c.tasks[id.0];
    assert(task_ok(c, id.0) && slot_ok(c, id.0) && frames_ok(c, id.0) && status_ok(c, id.0));
    let i = task.slot->0 as int;
    let frame = crate::arch::aarch64::kernel::slot_pool::slot_frame(c.slot_base, c.core_id, i);
    crate::memory::lemma_copied_dom(c.words, frame, task.stacks.persistent_frame(), 36);
    lemma_same_dom_mapped(c.words, t.words);
    assert forall|k: i32| #[trigger] t.tasks.contains_key(k) implies task_ok(t, k) && status_ok(
        t,
        k,
    ) && slot_ok(t, k) && frames_ok(t, k) by {
        assert(c.tasks.contains_key(k));
        assert(task_ok(c, k) && status_ok(c, k) && slot_ok(c, k) && frames_ok(c, k));
    }
    assert(queues_ok(t));
}

/// Giving a task a free slot keeps the invariant.
pub proof fn lemma_given_slot(c: CoreState, id: TaskId, i: int)
    requires
        consistent(c),
        c.tasks.contains_key(id.0),
        live(c.tasks[id.0]),
        0 <= i < SLOTS_PER_CORE,
        c.owners[i] == FREE,
    ensures
        consistent(given_slot(c, id, i)),
        given_slot(c, id, i).words.dom() == c.words.dom(),
{
    let t = given_slot(c, id, i);
    let task = c.tasks[id.0];
    let frame = crate::arch::aarch64::kernel::slot_pool::slot_frame(c.slot_base, c.core_id, i);
    assert(task_ok(c, id.0) && slot_ok(c, id.0) && frames_ok(c, id.0) && status_ok(c, id.0));
    assert(crate::memory::frame_mapped(c.words, frame));
    crate::memory::lemma_copied_dom(c.words, task.last_stack_pointer as int, frame, 36);
    lemma_same_dom_mapped(c.words, t.words);
    assert forall|k: i32| #[trigger] t.tasks.contains_key(k) implies task_ok(t, k) && status_ok(
        t,
        k,
    ) && slot_ok(t, k) && frames_ok(t, k) by {
        assert(c.tasks.contains_key(k));
        assert(task_ok(c, k) && status_ok(c, k) && slot_ok(c, k) && frames_ok(c, k));
    }
    assert(queues_ok(t));
}

/// No two tasks that may be dispatched share an exception slot.
pub proof fn lemma_slots_exclusive(c: CoreState, a: i32, b: i32)
    requires
        consistent(c),
        c.tasks.contains_key(a),
        c.tasks.contains_key(b),
        live(c.tasks[a]),
        live(c.tasks[b]),
        c.tasks[a].slot is Some,
        c.tasks[a].slot == c.tasks[b].slot,
    ensures
        a == b,
{
    assert(slot_ok(c, a));
    assert(slot_ok(c, b));
}

/// Making sure that a task has a slot keeps the invariant, and changes of the
/// other tasks at most the victim.
pub proof fn lemma_slot_ensured(c: CoreState, id: TaskId, now: u64)
    requires
        consistent(c),
        c.tasks.contains_key(id.0),
        live(c.tasks[id.0]),
        !crate::scheduler::task::blocked::names(c.blocked, id),
    ensures
        consistent(slot_ensured(c, id, now)),
        slot_ensured(c, id, now).words.dom() == c.words.dom(),
        forall|k: i32| #[trigger]
            slot_ensured(c, id, now).tasks.contains_key(k) == c.tasks.contains_key(k),
        forall|k: i32| #[trigger]
            c.tasks.contains_key(k) ==> slot_ensured(c, id, now).tasks[k].status
                == c.tasks[k].status,
{
    let t = touched(c, id, now);
    lemma_touched(c, id, now);
    let free = crate::arch::aarch64::kernel::slot_pool::first_free(c.owners);
    crate::arch::aarch64::kernel::slot_pool::lemma_first_free(c.owners);
    let when = Duration::spec_from_micros(now);
    let victim = crate::scheduler::task::blocked::victim(c.blocked, t.tasks, when);
    if stays(t, id) {
    } else if free < SLOTS_PER_CORE {
        lemma_given_slot(t, id, free);
    } else if victim is Some {
        let k = victim->0;
        assert(crate::scheduler::task::blocked::is_victim(c.blocked, t.tasks, when, k));
        let v = c.blocked[k].task;
        assert(crate::scheduler::task::blocked::names(c.blocked, v));
        assert(t.tasks.contains_key(v.0));
        assert(slot_ok(t, v.0));
        lemma_slot_taken(t, v);
        let e = slot_taken(t, v);
        let i = t.tasks[v.0].slot->0 as int;
        assert(v != id);
        assert(e.tasks[id.0] == t.tasks[id.0]);
        lemma_given_slot(e, id, i);
    }
}

/// `c` once the tasks that ended were released.
pub open spec fn reaped(c: CoreState) -> CoreState {
    CoreState {
        tasks: c.tasks.remove_keys(Set::new(|k: i32| c.finished.contains(TaskId(k)))),
        finished: Seq::empty(),
        ..c
    }
}

/// `c` once the running task, if it ended, waits to be released. It no longer
/// owns the floating-point registers then.
pub open spec fn retired(c: CoreState) -> CoreState {
    if c.tasks[c.current.0].status == TaskStatus::Finished {
        CoreState {
            finished: c.finished.push(c.current),
            fpu_owner: if c.fpu_owner == c.current {
                c.idle
            } else {
                c.fpu_owner
            },
            ..with_status(c, c.current, TaskStatus::Invalid)
        }
    } else {
        c
    }
}

/// Whether a ready task takes the core from the running one, whose status is
/// `status`: any does if the running task gives the core up; if it could go on,
/// only one of at least its priority does.
pub open spec fn preempts(c: CoreState, status: TaskStatus) -> bool {
    let top = crate::scheduler::task::priority_queue::highest(c.ready);
    if status == TaskStatus::Running {
        top >= c.tasks[c.current.0].prio.0
    } else {
        top >= 0
    }
}

/// The task to run next, if it is not the one that runs: the first ready task
/// of the highest priority, or the idle task if the running one gives the core
/// up and no task is ready.
pub open spec fn next_task(c: CoreState, status: TaskStatus) -> Option<TaskId> {
    if preempts(c, status) {
        Some(c.ready[crate::scheduler::task::priority_queue::highest(c.ready)][0])
    } else if status != TaskStatus::Running && status != TaskStatus::Idle {
        Some(c.idle)
    } else {
        None
    }
}

/// `c` once the next task `n` was taken from its queue and made the running
/// one. A task that could have gone on is ready again.
pub open spec fn handed_over(c: CoreState, status: TaskStatus, n: TaskId) -> CoreState {
    let ready = if preempts(c, status) {
        crate::scheduler::task::priority_queue::popped(
            c.ready,
            crate::scheduler::task::priority_queue::highest(c.ready),
        )
    } else {
        c.ready
    };
    let d = CoreState { ready, ..c };
    let e = if status == TaskStatus::Running {
        CoreState {
            ready: crate::scheduler::task::priority_queue::pushed(
                d.ready,
                c.current,
                c.tasks[c.current.0].prio.0 as int,
            ),
            ..with_status(d, c.current, TaskStatus::Ready)
        }
    } else {
        d
    };
    let f = if e.tasks[n.0].status != TaskStatus::Idle {
        with_status(e, n, TaskStatus::Running)
    } else {
        e
    };
    CoreState { current: n, ..f }
}

/// `c` once the next task `n` runs: it has a slot if one could be had, and the
/// kernel stack pointer is the top of its kernel stack.
pub open spec fn switched(c: CoreState, status: TaskStatus, n: TaskId, now: u64) -> CoreState {
    let d = slot_ensured(handed_over(c, status, n), n, now);
    CoreState { kernel_sp: d.tasks[n.0].stacks.kernel_stack_top() as u64, ..d }
}

/// `c` once the scheduler ran at `now`.
pub open spec fn scheduled(c: CoreState, now: u64) -> CoreState {
    let status = c.tasks[c.current.0].status;
    let d = retired(reaped(c));
    match next_task(d, status) {
        None => d,
        Some(n) => switched(d, status, n, now),
    }
}

/// Releasing the tasks that ended keeps the invariant.
pub proof fn lemma_reaped(c: CoreState)
    requires
        inv(c),
    ensures
        inv(reaped(c)),
{
    let d = reaped(c);
    assert(status_ok(c, c.current.0) && status_ok(c, c.idle.0) && status_ok(c, c.fpu_owner.0));
    assert(!c.finished.contains(c.current));
    assert(!c.finished.contains(c.idle));
    assert(!c.finished.contains(c.fpu_owner));
    assert(d.tasks.contains_key(c.current.0));
    assert(d.tasks.contains_key(c.idle.0));
    assert(d.tasks.contains_key(c.fpu_owner.0));
    assert forall|k: i32| #[trigger] d.tasks.contains_key(k) implies task_ok(d, k) && status_ok(
        d,
        k,
    ) && slot_ok(d, k) && frames_ok(d, k) by {
        assert(c.tasks.contains_key(k));
        assert(task_ok(c, k) && status_ok(c, k) && slot_ok(c, k) && frames_ok(c, k));
        assert(!c.finished.contains(TaskId(k)));
    }
    assert(queues_ok(d)) by {
        assert forall|t: TaskId| #[trigger]
            crate::scheduler::task::priority_queue::queued(d.ready, t) implies d.tasks.contains_key(
            t.0,
        ) && d.tasks[t.0].status == TaskStatus::Ready by {
            assert(c.tasks.contains_key(t.0));
            assert(!c.finished.contains(TaskId(t.0)));
        }
        assert forall|t: TaskId| #[trigger]
            crate::scheduler::task::blocked::names(d.blocked, t) implies d.tasks.contains_key(t.0)
            && d.tasks[t.0].status == TaskStatus::Blocked by {
            assert(c.tasks.contains_key(t.0));
            assert(!c.finished.contains(TaskId(t.0)));
        }
    }
}

/// Retiring the running task keeps all of the invariant that does not speak of
/// the running task, and leaves the floating-point registers to a task that
/// has not ended.
pub proof fn lemma_retired(c: CoreState)
    requires
        inv(c),
        c.finished.len() == 0,
    ensures
        consistent(retired(c)),
        c.tasks[c.current.0].status == TaskStatus::Finished ==> retired(c).fpu_owner != c.current,
{
    let d = retired(c);
    assert(task_ok(c, c.current.0) && status_ok(c, c.current.0) && slot_ok(c, c.current.0));
    if c.tasks[c.current.0].status == TaskStatus::Finished {
        assert(d.finished[0] == c.current);
        assert(d.finished.contains(c.current));
        assert(c.idle != c.current);
        assert forall|k: i32| #[trigger] d.tasks.contains_key(k) implies task_ok(d, k) && status_ok(
            d,
            k,
        ) && slot_ok(d, k) && frames_ok(d, k) by {
            assert(c.tasks.contains_key(k));
            assert(task_ok(c, k) && status_ok(c, k) && slot_ok(c, k) && frames_ok(c, k));
        }
        assert(status_ok(c, c.fpu_owner.0));
        assert(queues_ok(d)) by {
            assert forall|t: TaskId| #[trigger] d.finished.contains(t) implies d.tasks.contains_key(
                t.0,
            ) && d.tasks[t.0].status == TaskStatus::Invalid by {
                let i = choose|i: int| 0 <= i < d.finished.len() && d.finished[i] == t;
                assert(i == 0);
            }
        }
    }
}

/// Handing the core over restores the invariant.
pub proof fn lemma_handed_over(c: CoreState, status: TaskStatus, n: TaskId)
    requires
        consistent(c),
        next_task(c, status) == Some(n),
        status == TaskStatus::Finished ==> c.tasks[c.current.0].status == TaskStatus::Invalid,
        status != TaskStatus::Finished ==> c.tasks[c.current.0].status == status,
        status != TaskStatus::Invalid,
    ensures
        inv(handed_over(c, status, n)),
        live(handed_over(c, status, n).tasks[n.0]),
        handed_over(c, status, n).tasks.contains_key(n.0),
        !crate::scheduler::task::blocked::names(handed_over(c, status, n).blocked, n),
        forall|k: i32| #[trigger]
            handed_over(c, status, n).tasks.contains_key(k) == c.tasks.contains_key(k),
{
    let d = handed_over(c, status, n);
    let top = crate::scheduler::task::priority_queue::highest(c.ready);
    crate::scheduler::task::priority_queue::lemma_highest_below(c.ready, c.ready.len() as int);
    assert(task_ok(c, c.current.0) && status_ok(c, c.current.0));
    let ready1 = if preempts(c, status) {
        crate::scheduler::task::priority_queue::popped(c.ready, top)
    } else {
        c.ready
    };
    if preempts(c, status) {
        crate::scheduler::task::priority_queue::lemma_popped(c.ready, top);
        assert(crate::scheduler::task::priority_queue::queued(c.ready, n));
    }
    assert(c.tasks.contains_key(n.0));
    if status == TaskStatus::Running {
        assert(!crate::scheduler::task::priority_queue::queued(c.ready, c.current));
        crate::scheduler::task::priority_queue::lemma_pushed(
            ready1,
            c.current,
            c.tasks[c.current.0].prio.0 as int,
        );
    }
    assert forall|k: i32| #[trigger] d.tasks.contains_key(k) implies task_ok(d, k) && status_ok(
        d,
        k,
    ) && slot_ok(d, k) && frames_ok(d, k) by {
        assert(c.tasks.contains_key(k));
        assert(task_ok(c, k) && status_ok(c, k) && slot_ok(c, k) && frames_ok(c, k));
        assert(TaskId(n.0) == n);
        assert(TaskId(c.current.0) == c.current);
    }
    assert(queues_ok(d));
}

/// Running the scheduler keeps the invariant.
pub proof fn lemma_scheduled(c: CoreState, now: u64)
    requires
        inv(c),
    ensures
        inv(scheduled(c, now)),
        scheduled(c, now).words.dom() == c.words.dom(),
{
    let status = c.tasks[c.current.0].status;
    let r = reaped(c);
    lemma_reaped(c);
    let d = retired(r);
    lemma_retired(r);
    match next_task(d, status) {
        None => {},
        Some(n) => {
            lemma_handed_over(d, status, n);
            lemma_slot_ensured(handed_over(d, status, n), n, now);
            let e = slot_ensured(handed_over(d, status, n), n, now);
            let f = switched(d, status, n, now);
            assert forall|k: i32| #[trigger] f.tasks.contains_key(k) implies task_ok(f, k)
                && status_ok(f, k) && slot_ok(f, k) && frames_ok(f, k) by {
                assert(e.tasks.contains_key(k));
                assert(task_ok(e, k) && status_ok(e, k) && slot_ok(e, k) && frames_ok(e, k));
            }
            assert(queues_ok(f));
        },
    }
}

/// What is mapped depends only on which words there are.
proof fn lemma_same_dom_mapped(a: Map<u64, u64>, b: Map<u64, u64>)
    requires
        a.dom() == b.dom(),
    ensures
        forall|base: int|
            #[trigger] crate::memory::frame_mapped(a, base) ==> crate::memory::frame_mapped(
                b,
                base,
            ),
{
    assert forall|base: int| #[trigger] crate::memory::frame_mapped(a, base) implies
        crate::memory::frame_mapped(b, base) by {
        assert forall|w: int| 0 <= w < 36 implies b.contains_key(
            #[trigger] crate::memory::word_at(base, w),
        ) by {
            assert(a.contains_key(crate::memory::word_at(base, w)));
            assert(a.dom().contains(crate::memory::word_at(base, w)));
        }
    }
}

} // verus!
