//! Blocked tasks, sorted by the time at which they wake up.

use vstd::prelude::*;

use std::collections::VecDeque;

use crate::duration::Duration;
use crate::scheduler::task::handle::TaskHandle;
use crate::scheduler::task::priority_queue::PriorityTaskQueue;
use crate::scheduler::task::table::TaskTable;
use crate::scheduler::task::{FrameLocation, Task, TaskId, TaskStatus, NO_PRIORITIES};

verus! {

/// A blocked task and when it wakes up by itself, if it does.
#[derive(Copy, Clone, Debug, Eq, PartialEq)]
pub struct BlockedTask {
    pub task: TaskId,
    pub wakeup_time: Option<u64>,
}

impl BlockedTask {
    /// The task `task`, which wakes up at `wakeup_time`.
    pub fn new(task: TaskId, wakeup_time: Option<u64>) -> (r: Self)
        ensures
            r == (BlockedTask { task, wakeup_time }),
    {
        BlockedTask { task, wakeup_time }
    }
}

/// When a node wakes up; a node without a time comes after all others.
pub open spec fn wakes_at(node: BlockedTask) -> int {
    match node.wakeup_time {
        Some(w) => w as int,
        None => u64::MAX + 1,
    }
}

/// Whether the nodes are sorted by the time at which they wake up.
pub open spec fn sorted(list: Seq<BlockedTask>) -> bool {
    forall|i: int, j: int|
        0 <= i <= j < list.len() ==> wakes_at(#[trigger] list[i]) <= wakes_at(#[trigger] list[j])
}

/// Whether `list` names `task`.
pub open spec fn names(list: Seq<BlockedTask>, task: TaskId) -> bool {
    exists|i: int| 0 <= i < list.len() && (#[trigger] list[i]).task == task
}

/// Whether no task is named twice.
pub open spec fn distinct(list: Seq<BlockedTask>) -> bool {
    forall|i: int, j: int|
        0 <= i < j < list.len() ==> (#[trigger] list[i]).task != (#[trigger] list[j]).task
}

/// Where a task that wakes up at `wakeup_time` belongs: before the first node
/// that wakes up later.
pub open spec fn insert_index(list: Seq<BlockedTask>, wakeup_time: Option<u64>) -> int
    decreases list.len(),
{
    match wakeup_time {
        None => list.len() as int,
        Some(wt) => if list.len() == 0 {
            0
        } else if wt < wakes_at(list[0]) {
            0
        } else {
            1 + insert_index(list.drop_first(), wakeup_time)
        },
    }
}

/// What makes a position the one to insert at.
pub proof fn lemma_insert_index(list: Seq<BlockedTask>, wt: u64, i: int)
    requires
        0 <= i <= list.len(),
        forall|j: int| 0 <= j < i ==> wakes_at(#[trigger] list[j]) <= wt,
        i < list.len() ==> wt < wakes_at(list[i]),
    ensures
        insert_index(list, Some(wt)) == i,
    decreases list.len(),
{
    if i > 0 {
        assert(wakes_at(list[0]) <= wt);
        let rest = list.drop_first();
        assert forall|j: int| 0 <= j < i - 1 implies wakes_at(#[trigger] rest[j]) <= wt by {
            assert(wakes_at(list[j + 1]) <= wt);
        }
        lemma_insert_index(rest, wt, i - 1);
    }
}

/// What the position to insert at is.
pub proof fn lemma_insert_index_is(list: Seq<BlockedTask>, wakeup_time: Option<u64>)
    ensures
        0 <= insert_index(list, wakeup_time) <= list.len(),
        wakeup_time matches Some(wt) ==> {
            &&& forall|j: int|
                0 <= j < insert_index(list, wakeup_time) ==> wakes_at(#[trigger] list[j]) <= wt
            &&& insert_index(list, wakeup_time) < list.len() ==> wt < wakes_at(
                list[insert_index(list, wakeup_time)],
            )
        },
    decreases list.len(),
{
    if wakeup_time is Some && list.len() > 0 && wakes_at(list[0]) <= wakeup_time->0 {
        let rest = list.drop_first();
        lemma_insert_index_is(rest, wakeup_time);
        assert forall|j: int| 0 <= j < insert_index(list, wakeup_time) implies wakes_at(
            #[trigger] list[j],
        ) <= wakeup_time->0 by {
            if j > 0 {
                assert(list[j] == rest[j - 1]);
            }
        }
    }
}

/// A sorted list stays sorted when a task is inserted where it belongs.
pub proof fn lemma_insert_keeps_sorted(
    list: Seq<BlockedTask>,
    task: TaskId,
    wakeup_time: Option<u64>,
)
    requires
        sorted(list),
    ensures
        sorted(list.insert(insert_index(list, wakeup_time), (BlockedTask { task, wakeup_time }))),
{
    lemma_insert_index_is(list, wakeup_time);
    let k = insert_index(list, wakeup_time);
    let node = BlockedTask { task, wakeup_time };
    let after = list.insert(k, node);
    assert forall|i: int, j: int| 0 <= i <= j < after.len() implies wakes_at(#[trigger] after[i])
        <= wakes_at(#[trigger] after[j]) by {
        let i0 = if i < k {
            i
        } else {
            i - 1
        };
        let j0 = if j < k {
            j
        } else {
            j - 1
        };
        if i != k {
            assert(after[i] == list[i0]);
        }
        if j != k {
            assert(after[j] == list[j0]);
        }
        if i == k && j != k && wakeup_time is Some {
            assert(wakes_at(list[k]) <= wakes_at(list[j0]));
        }
    }
}

/// A sorted list stays sorted when a node is removed.
pub proof fn lemma_remove_keeps_sorted(list: Seq<BlockedTask>, k: int)
    requires
        sorted(list),
        0 <= k < list.len(),
    ensures
        sorted(list.remove(k)),
{
    let after = list.remove(k);
    assert forall|i: int, j: int| 0 <= i <= j < after.len() implies wakes_at(#[trigger] after[i])
        <= wakes_at(#[trigger] after[j]) by {
        let i0 = if i < k {
            i
        } else {
            i + 1
        };
        let j0 = if j < k {
            j
        } else {
            j + 1
        };
        assert(after[i] == list[i0]);
        assert(after[j] == list[j0]);
    }
}

/// The first node that names `task`, or the length if none does.
pub open spec fn position(list: Seq<BlockedTask>, task: TaskId) -> int
    decreases list.len(),
{
    if list.len() == 0 {
        0
    } else if list[0].task == task {
        0
    } else {
        1 + position(list.drop_first(), task)
    }
}

/// What makes a node the first one that names `task`.
pub proof fn lemma_position(list: Seq<BlockedTask>, task: TaskId, i: int)
    requires
        0 <= i < list.len(),
        list[i].task == task,
        forall|j: int| 0 <= j < i ==> (#[trigger] list[j]).task != task,
    ensures
        position(list, task) == i,
    decreases list.len(),
{
    if i > 0 {
        assert(list[0].task != task);
        let rest = list.drop_first();
        assert forall|j: int| 0 <= j < i - 1 implies (#[trigger] rest[j]).task != task by {
            assert(list[j + 1].task != task);
        }
        lemma_position(rest, task, i - 1);
    }
}

/// Where the first node is that names `task`.
pub proof fn lemma_position_is(list: Seq<BlockedTask>, task: TaskId)
    requires
        names(list, task),
    ensures
        0 <= position(list, task) < list.len(),
        list[position(list, task)].task == task,
        forall|j: int| 0 <= j < position(list, task) ==> (#[trigger] list[j]).task != task,
    decreases list.len(),
{
    if list[0].task != task {
        let rest = list.drop_first();
        let k = choose|k: int| 0 <= k < list.len() && (#[trigger] list[k]).task == task;
        assert(rest[k - 1].task == task);
        lemma_position_is(rest, task);
        assert forall|j: int| 0 <= j < position(list, task) implies (#[trigger] list[j]).task
            != task by {
            if j > 0 {
                assert(list[j] == rest[j - 1]);
            }
        }
        assert(list[position(list, task)] == rest[position(rest, task)]);
    }
}

/// Whether waking `task` makes it ready: it is blocked, and its frame is not
/// being copied.
pub open spec fn wakes(task: Task) -> bool {
    task.status != TaskStatus::Ready && task.frame_location != FrameLocation::BeingEvicted
}

/// `task` once it was woken. A wake that comes while the frame is being copied
/// is remembered; a ready task stays as it is.
pub open spec fn woken(task: Task) -> Task {
    if task.status == TaskStatus::Ready {
        task
    } else if task.frame_location == FrameLocation::BeingEvicted {
        Task { wake_pending: true, ..task }
    } else {
        Task { status: TaskStatus::Ready, ..task }
    }
}

/// Whether `task` may be woken on `core_id`: it lives there, and it is blocked
/// or already ready.
pub open spec fn wakeable(task: Task, core_id: u32) -> bool {
    &&& task.core_id == core_id
    &&& task.status == TaskStatus::Blocked || task.status == TaskStatus::Ready
}

/// The tasks and the ready queues after the tasks `ids` were woken in turn.
pub open spec fn woken_in_turn(
    tasks: Map<i32, Task>,
    ready: Seq<Seq<TaskId>>,
    ids: Seq<TaskId>,
) -> (Map<i32, Task>, Seq<Seq<TaskId>>)
    decreases ids.len(),
{
    if ids.len() == 0 {
        (tasks, ready)
    } else {
        let (t, q) = woken_in_turn(tasks, ready, ids.drop_last());
        let id = ids.last();
        let task = t[id.0];
        (
            t.insert(id.0, woken(task)),
            if wakes(task) {
                crate::scheduler::task::priority_queue::pushed(q, id, task.prio.0 as int)
            } else {
                q
            },
        )
    }
}

/// Whether a node's time has elapsed at `time`.
pub open spec fn due(node: BlockedTask, time: u64) -> bool {
    wakes_at(node) < time
}

/// The tasks whose time has elapsed at `time`, in the order of the list.
pub open spec fn due_tasks(list: Seq<BlockedTask>, time: u64) -> Seq<TaskId>
    decreases list.len(),
{
    if list.len() == 0 {
        Seq::empty()
    } else if due(list.last(), time) {
        due_tasks(list.drop_last(), time).push(list.last().task)
    } else {
        due_tasks(list.drop_last(), time)
    }
}

/// The nodes whose time has not elapsed at `time`, in the order of the list.
pub open spec fn not_due(list: Seq<BlockedTask>, time: u64) -> Seq<BlockedTask>
    decreases list.len(),
{
    if list.len() == 0 {
        list
    } else if due(list.last(), time) {
        not_due(list.drop_last(), time)
    } else {
        not_due(list.drop_last(), time).push(list.last())
    }
}

/// The time at which the first node wakes up by itself, if it does.
pub open spec fn front_time(list: Seq<BlockedTask>) -> Option<u64> {
    if list.len() == 0 {
        None
    } else {
        list[0].wakeup_time
    }
}

/// A task touched within this many nanoseconds is too fresh to be evicted.
pub open spec fn fresh_nanos() -> int {
    10_000_000
}

/// Whether the frame of `task` may be evicted at all: it is blocked, and its
/// frame lies in a slot.
pub open spec fn resident(task: Task) -> bool {
    &&& task.frame_location == FrameLocation::InSlot
    &&& task.slot is Some
    &&& task.status == TaskStatus::Blocked
}

/// Whether `task` was not touched recently.
pub open spec fn stale(task: Task, now: Duration) -> bool {
    now@ - task.last_touch@ >= fresh_nanos()
}

/// First criterion for a victim: the later a task wakes up, the smaller; a
/// task that waits without limit comes first.
pub open spec fn wake_key(node: BlockedTask) -> int {
    match node.wakeup_time {
        Some(w) => u64::MAX - w,
        None => 0,
    }
}

/// Whether the node at `a` is a better victim than the one at `b`: it wakes up
/// later, or at the same time and was touched earlier.
pub open spec fn better(list: Seq<BlockedTask>, tasks: Map<i32, Task>, a: int, b: int) -> bool {
    let key_a = wake_key(list[a]);
    let key_b = wake_key(list[b]);
    key_a < key_b || (key_a == key_b && tasks[list[a].task.0].last_touch@
        < tasks[list[b].task.0].last_touch@)
}

/// Whether the node at `k` can be evicted at `now`.
pub open spec fn candidate(
    list: Seq<BlockedTask>,
    tasks: Map<i32, Task>,
    now: Duration,
    k: int,
) -> bool {
    let task = tasks[list[k].task.0];
    0 <= k < list.len() && resident(task) && stale(task, now)
}

/// Whether the node at `k` is the victim to be evicted at `now`: no candidate
/// is better, and none before it is as good.
pub open spec fn is_victim(
    list: Seq<BlockedTask>,
    tasks: Map<i32, Task>,
    now: Duration,
    k: int,
) -> bool {
    &&& candidate(list, tasks, now, k)
    &&& forall|j: int| #[trigger] candidate(list, tasks, now, j) ==> !better(list, tasks, j, k)
    &&& forall|j: int| #[trigger]
        candidate(list, tasks, now, j) && j < k ==> better(list, tasks, k, j)
}

/// The victim to be evicted at `now`, by its node.
pub open spec fn victim(list: Seq<BlockedTask>, tasks: Map<i32, Task>, now: Duration) -> Option<
    int,
> {
    if exists|k: int| #[trigger] is_victim(list, tasks, now, k) {
        Some(choose|k: int| #[trigger] is_victim(list, tasks, now, k))
    } else {
        None
    }
}

/// There is at most one victim.
pub proof fn lemma_victim_unique(
    list: Seq<BlockedTask>,
    tasks: Map<i32, Task>,
    now: Duration,
    a: int,
    b: int,
)
    requires
        is_victim(list, tasks, now, a),
        is_victim(list, tasks, now, b),
    ensures
        a == b,
{
    assert(candidate(list, tasks, now, a));
    assert(candidate(list, tasks, now, b));
}

/// Inserting a node adds its task to the named ones and no other.
pub proof fn lemma_insert_names(list: Seq<BlockedTask>, i: int, node: BlockedTask)
    requires
        0 <= i <= list.len(),
    ensures
        forall|t: TaskId|
            #[trigger] names(list.insert(i, node), t) <==> (t == node.task || names(list, t)),
        distinct(list) && !names(list, node.task) ==> distinct(list.insert(i, node)),
{
    let after = list.insert(i, node);
    assert forall|t: TaskId| #[trigger] names(after, t) <==> (t == node.task || names(list, t)) by {
        if names(after, t) {
            let k = choose|k: int| 0 <= k < after.len() && (#[trigger] after[k]).task == t;
            if k < i {
                assert(list[k].task == t);
            } else if k > i {
                assert(list[k - 1].task == t);
            }
        }
        if t == node.task {
            assert(after[i].task == t);
        }
        if names(list, t) {
            let k = choose|k: int| 0 <= k < list.len() && (#[trigger] list[k]).task == t;
            if k < i {
                assert(after[k].task == t);
            } else {
                assert(after[k + 1].task == t);
            }
        }
    }
    if distinct(list) && !names(list, node.task) {
        assert forall|a: int, b: int| 0 <= a < b < after.len() implies (#[trigger] after[a]).task != (
        #[trigger] after[b]).task by {
            let a0 = if a < i {
                a
            } else {
                a - 1
            };
            let b0 = if b < i {
                b
            } else {
                b - 1
            };
            if a != i {
                assert(after[a] == list[a0]);
            }
            if b != i {
                assert(after[b] == list[b0]);
            }
        }
    }
}

/// Removing a node takes its task away from the named ones and no other.
pub proof fn lemma_remove_names(list: Seq<BlockedTask>, i: int)
    requires
        0 <= i < list.len(),
        distinct(list),
    ensures
        forall|t: TaskId|
            #[trigger] names(list.remove(i), t) <==> (t != list[i].task && names(list, t)),
        distinct(list.remove(i)),
{
    let after = list.remove(i);
    assert forall|t: TaskId| #[trigger] names(after, t) <==> (t != list[i].task && names(list, t)) by {
        if names(after, t) {
            let k = choose|k: int| 0 <= k < after.len() && (#[trigger] after[k]).task == t;
            if k < i {
                assert(list[k].task == t);
            } else {
                assert(list[k + 1].task == t);
            }
        }
        if t != list[i].task && names(list, t) {
            let k = choose|k: int| 0 <= k < list.len() && (#[trigger] list[k]).task == t;
            if k < i {
                assert(after[k].task == t);
            } else {
                assert(after[k - 1].task == t);
            }
        }
    }
    assert forall|a: int, b: int| 0 <= a < b < after.len() implies (#[trigger] after[a]).task != (
    #[trigger] after[b]).task by {
        let a0 = if a < i {
            a
        } else {
            a + 1
        };
        let b0 = if b < i {
            b
        } else {
            b + 1
        };
        assert(after[a] == list[a0]);
        assert(after[b] == list[b0]);
    }
}

/// When the elapsed tasks are woken, none is lost and none is left: every
/// named task is either woken or still named, and no task whose time has
/// elapsed is left.
pub proof fn lemma_due_split(list: Seq<BlockedTask>, time: u64)
    ensures
        forall|i: int|
            0 <= i < not_due(list, time).len() ==> !due(#[trigger] not_due(list, time)[i], time),
        forall|t: TaskId|
            #![trigger names(not_due(list, time), t)]
            #![trigger due_tasks(list, time).contains(t)]
            names(list, t) <==> (names(not_due(list, time), t) || due_tasks(list, time).contains(
                t,
            )),
        sorted(list) ==> sorted(not_due(list, time)),
        distinct(list) ==> {
            &&& distinct(not_due(list, time))
            &&& due_tasks(list, time).no_duplicates()
            &&& forall|t: TaskId|
                #[trigger] names(not_due(list, time), t) ==> !due_tasks(list, time).contains(t)
        },
        forall|i: int|
            0 <= i < not_due(list, time).len() ==> list.contains(
                #[trigger] not_due(list, time)[i],
            ),
    decreases list.len(),
{
    if list.len() > 0 {
        let init = list.drop_last();
        let last = list.last();
        lemma_due_split(init, time);
        let kept0 = not_due(init, time);
        let due0 = due_tasks(init, time);
        let kept = not_due(list, time);
        let woken = due_tasks(list, time);
        assert(init.insert(init.len() as int, last) =~= list);
        lemma_insert_names(init, init.len() as int, last);
        assert(list.remove(list.len() - 1) =~= init);
        if due(last, time) {
            assert forall|t: TaskId| woken.contains(t) <==> (t == last.task || due0.contains(t)) by {
                if woken.contains(t) {
                    let k = choose|k: int| 0 <= k < woken.len() && woken[k] == t;
                    if k < due0.len() {
                        assert(due0[k] == t);
                    }
                }
                if t == last.task {
                    assert(woken[due0.len() as int] == t);
                }
                if due0.contains(t) {
                    let k = choose|k: int| 0 <= k < due0.len() && due0[k] == t;
                    assert(woken[k] == t);
                }
            }
            assert forall|t: TaskId| names(list, t) <==> (#[trigger] names(kept, t)
                || woken.contains(t)) by {
                assert(names(init, t) <==> (names(kept0, t) || due0.contains(t)));
            }
        } else {
            assert(kept0.insert(kept0.len() as int, last) =~= kept);
            lemma_insert_names(kept0, kept0.len() as int, last);
            assert forall|t: TaskId| names(list, t) <==> (#[trigger] names(kept, t)
                || woken.contains(t)) by {
                assert(names(init, t) <==> (names(kept0, t) || due0.contains(t)));
            }
            if sorted(list) {
                assert(sorted(init)) by {
                    assert forall|i: int, j: int| 0 <= i <= j < init.len() implies wakes_at(
                        #[trigger] init[i],
                    ) <= wakes_at(#[trigger] init[j]) by {
                        assert(init[i] == list[i] && init[j] == list[j]);
                    }
                }
                assert forall|i: int, j: int| 0 <= i <= j < kept.len() implies wakes_at(
                    #[trigger] kept[i],
                ) <= wakes_at(#[trigger] kept[j]) by {
                    if j < kept0.len() {
                        assert(kept[i] == kept0[i] && kept[j] == kept0[j]);
                    } else if i < kept0.len() {
                        assert(kept[i] == kept0[i]);
                        assert(init.contains(kept0[i]));
                        let k = choose|k: int|
                            0 <= k < init.len() && #[trigger] init[k] == kept0[i];
                        assert(list[k] == kept[i]);
                        assert(list[list.len() - 1] == last);
                    }
                }
            }
        }
        assert forall|i: int| 0 <= i < kept.len() implies list.contains(#[trigger] kept[i]) by {
            if i < kept0.len() {
                assert(kept[i] == kept0[i]);
                assert(init.contains(kept0[i]));
                let k = choose|k: int| 0 <= k < init.len() && #[trigger] init[k] == kept0[i];
                assert(list[k] == kept[i]);
            } else {
                assert(list[list.len() - 1] == kept[i]);
            }
        }
        if sorted(list) && due(last, time) {
            assert forall|i: int, j: int| 0 <= i <= j < init.len() implies wakes_at(
                #[trigger] init[i],
            ) <= wakes_at(#[trigger] init[j]) by {
                assert(init[i] == list[i] && init[j] == list[j]);
            }
        }
        if distinct(list) {
            assert forall|a: int, b: int| 0 <= a < b < init.len() implies (#[trigger] init[a]).task
                != (#[trigger] init[b]).task by {
                assert(init[a] == list[a] && init[b] == list[b]);
            }
            assert(!names(init, last.task)) by {
                if names(init, last.task) {
                    let k = choose|k: int|
                        0 <= k < init.len() && (#[trigger] init[k]).task == last.task;
                    assert(list[k].task == list[list.len() - 1].task);
                }
            }
            let t = last.task;
            assert(names(not_due(init, time), t) ==> names(init, t));
            assert(due_tasks(init, time).contains(t) ==> names(init, t)) by {
                assert(!names(not_due(init, time), t));
            }
        }
    }
}

/// The blocked tasks of a core.
pub struct BlockedTaskQueue {
    list: VecDeque<BlockedTask>,
}

impl View for BlockedTaskQueue {
    type V = Seq<BlockedTask>;

    /// The nodes from the front to the back.
    closed spec fn view(&self) -> Seq<BlockedTask> {
        self.list@
    }
}

impl BlockedTaskQueue {
    /// An empty queue.
    pub fn new() -> (r: Self)
        ensures
            r@ == Seq::<BlockedTask>::empty(),
    {
        BlockedTaskQueue { list: VecDeque::new() }
    }

    /// Wakes `task`. Returns whether it became ready by this: a wake that comes
    /// while the task's frame is being copied is only remembered, and a task
    /// that is ready stays as it is.
    pub fn mark_ready(task: &mut Task, core_id: u32) -> (r: bool)
        requires
            wakeable(*old(task), core_id),
        ensures
            r == wakes(*old(task)),
            *final(task) == woken(*old(task)),
    {
        if task.status == TaskStatus::Ready {
            return false;
        }
        match task.frame_location {
            FrameLocation::BeingEvicted => {
                task.wake_pending = true;
                false
            },
            FrameLocation::Evicted | FrameLocation::InSlot => {
                task.status = TaskStatus::Ready;
                true
            },
        }
    }

    /// Blocks a running task until `wakeup_time`, or without limit. Returns the
    /// time for which the timer is to be set, if it is.
    pub fn add(&mut self, task: &mut Task, wakeup_time: Option<u64>) -> (r: Option<u64>)
        requires
            old(task).status == TaskStatus::Running,
        ensures
            r == wakeup_time,
            *final(task) == (Task { status: TaskStatus::Blocked, ..*old(task) }),
            final(self)@ == old(self)@.insert(
                insert_index(old(self)@, wakeup_time),
                (BlockedTask { task: old(task).id, wakeup_time }),
            ),
    {
        task.status = TaskStatus::Blocked;
        let new_node = BlockedTask::new(task.id, wakeup_time);
        let len: usize = self.list.len();
        match wakeup_time {
            Some(wt) => {
                let mut i: usize = 0;
                while i < len
                    invariant
                        i <= len,
                        len == self@.len(),
                        forall|j: int| 0 <= j < i ==> wakes_at(#[trigger] self@[j]) <= wt,
                    ensures
                        i <= len,
                        forall|j: int| 0 <= j < i ==> wakes_at(#[trigger] self@[j]) <= wt,
                        i < len ==> wt < wakes_at(self@[i as int]),
                    decreases len - i,
                {
                    match self.list[i].wakeup_time {
                        None => {
                            break;
                        },
                        Some(node_wakeup_time) => {
                            if wt < node_wakeup_time {
                                break;
                            }
                        },
                    }
                    i += 1;
                }
                proof {
                    lemma_insert_index(self@, wt, i as int);
                }
                self.list.insert(i, new_node);
            },
            None => {
                self.list.push_back(new_node);
                assert(self@ =~= old(self)@.insert(old(self)@.len() as int, new_node));
            },
        }
        wakeup_time
    }

    /// The blocked tasks from the front to the back.
    pub fn iter(&self) -> (r: Vec<TaskId>)
        ensures
            r@ == self@.map_values(|node: BlockedTask| node.task),
    {
        let mut r: Vec<TaskId> = Vec::new();
        let mut i: usize = 0;
        while i < self.list.len()
            invariant
                i <= self@.len(),
                r@.len() == i,
                forall|j: int| 0 <= j < i ==> #[trigger] r@[j] == self@[j].task,
            decreases self@.len() - i,
        {
            r.push(self.list[i].task);
            i += 1;
        }
        assert(r@ =~= self@.map_values(|node: BlockedTask| node.task));
        r
    }

    /// Selects the task whose frame is to be evicted at `now`: among the
    /// blocked tasks with a slot that were not touched recently, the one that
    /// wakes up last, and among those the one touched first.
    pub fn select_eviction_victim(
        &self,
        tasks: &TaskTable,
        exclude_id: TaskId,
        now: Duration,
    ) -> (r: Option<TaskId>)
        requires
            now.wf(),
            !names(self@, exclude_id),
            forall|i: int|
                0 <= i < self@.len() ==> tasks@.contains_key((#[trigger] self@[i]).task.0)
                    && tasks@[self@[i].task.0].last_touch.wf(),
        ensures
            match victim(self@, tasks@, now) {
                Some(k) => is_victim(self@, tasks@, now, k) && r == Some(self@[k].task),
                None => r is None && forall|k: int| !#[trigger] candidate(self@, tasks@, now, k),
            },
    {
        let threshold = Duration::from_millis(10);
        let mut best: Option<usize> = None;
        let mut i: usize = 0;
        let ghost list = self@;
        while i < self.list.len()
            invariant
                list == self@,
                i <= list.len(),
                now.wf(),
                threshold.wf(),
                threshold@ == fresh_nanos(),
                forall|j: int|
                    0 <= j < list.len() ==> tasks@.contains_key((#[trigger] list[j]).task.0)
                        && tasks@[list[j].task.0].last_touch.wf(),
                best is None ==> forall|j: int|
                    #[trigger] candidate(list, tasks@, now, j) ==> j >= i,
                best matches Some(k) ==> {
                    &&& k < i
                    &&& candidate(list, tasks@, now, k as int)
                    &&& forall|j: int| #[trigger]
                        candidate(list, tasks@, now, j) && j < i ==> !better(
                            list,
                            tasks@,
                            j,
                            k as int,
                        )
                    &&& forall|j: int| #[trigger]
                        candidate(list, tasks@, now, j) && j < k ==> better(
                            list,
                            tasks@,
                            k as int,
                            j,
                        )
                },
            decreases list.len() - i,
        {
            let node: BlockedTask = self.list[i];
            let task: &Task = tasks.get(node.task);
            let is_resident: bool = task.frame_location == FrameLocation::InSlot
                && task.slot.is_some() && task.status == TaskStatus::Blocked;
            let age = now.saturating_sub(&task.last_touch);
            let is_stale: bool = !age.shorter_than(&threshold);
            if is_resident && is_stale {
                assert(candidate(list, tasks@, now, i as int));
                match best {
                    None => {
                        best = Some(i);
                    },
                    Some(k) => {
                        let best_node: BlockedTask = self.list[k];
                        let best_task: &Task = tasks.get(best_node.task);
                        let key: u64 = match node.wakeup_time {
                            Some(w) => u64::MAX - w,
                            None => 0,
                        };
                        let best_key: u64 = match best_node.wakeup_time {
                            Some(w) => u64::MAX - w,
                            None => 0,
                        };
                        if key < best_key || (key == best_key && task.last_touch.shorter_than(
                            &best_task.last_touch,
                        )) {
                            best = Some(i);
                        }
                    },
                }
            }
            i += 1;
        }
        match best {
            Some(k) => {
                proof {
                    assert(is_victim(list, tasks@, now, k as int));
                    lemma_victim_unique(
                        list,
                        tasks@,
                        now,
                        k as int,
                        victim(list, tasks@, now)->0,
                    );
                }
                Some(self.list[k].task)
            },
            None => None,
        }
    }

    /// Wakes a blocked task by hand. Returns the task, whether it became ready
    /// by this (only then it belongs into a ready queue), and the time for
    /// which the timer is to be set: if the task was the first, that of the
    /// next one.
    pub fn custom_wakeup(&mut self, tasks: &mut TaskTable, task: TaskHandle, core_id: u32) -> (r: (
        TaskId,
        bool,
        Option<u64>,
    ))
        requires
            names(old(self)@, task.id),
            old(tasks)@.contains_key(task.id.0),
            old(tasks)@[task.id.0].id == task.id,
            wakeable(old(tasks)@[task.id.0], core_id),
        ensures
            final(self)@ == old(self)@.remove(position(old(self)@, task.id)),
            final(tasks)@ == old(tasks)@.insert(task.id.0, woken(old(tasks)@[task.id.0])),
            r.0 == task.id,
            r.1 == wakes(old(tasks)@[task.id.0]),
            r.2 == (if position(old(self)@, task.id) == 0 {
                front_time(final(self)@)
            } else {
                None
            }),
    {
        let ghost list = self@;
        proof {
            lemma_position_is(list, task.id);
        }
        let len: usize = self.list.len();
        let mut i: usize = 0;
        while self.list[i].task != task.id
            invariant
                self@ == list,
                len == list.len(),
                names(list, task.id),
                i <= position(list, task.id) < list.len(),
                list[position(list, task.id)].task == task.id,
                forall|j: int| 0 <= j < i ==> (#[trigger] list[j]).task != task.id,
            decreases list.len() - i,
        {
            i += 1;
        }
        proof {
            lemma_position(list, task.id, i as int);
        }
        let node = self.list.remove(i).unwrap();
        let timer: Option<u64> = if i == 0 && self.list.len() > 0 {
            self.list[0].wakeup_time
        } else {
            None
        };
        let mut task_ref: Task = tasks.take(node.task);
        let completed: bool = BlockedTaskQueue::mark_ready(&mut task_ref, core_id);
        tasks.put(task_ref);
        assert(tasks@ =~= old(tasks)@.insert(task.id.0, woken(old(tasks)@[task.id.0])));
        (node.task, completed, timer)
    }

    /// Wakes all tasks whose time has elapsed at `time`, in the order of the
    /// list; those that become ready go to the back of their ready queues.
    /// Returns the time for which the timer is to be set: that of the first
    /// task that is left.
    pub fn handle_waiting_tasks(
        &mut self,
        tasks: &mut TaskTable,
        ready_queue: &mut PriorityTaskQueue,
        time: u64,
        core_id: u32,
    ) -> (r: Option<u64>)
        requires
            old(ready_queue).wf(),
            forall|i: int|
                0 <= i < old(self)@.len() ==> {
                    let id = (#[trigger] old(self)@[i]).task;
                    &&& old(tasks)@.contains_key(id.0)
                    &&& old(tasks)@[id.0].id == id
                    &&& old(tasks)@[id.0].prio.0 < NO_PRIORITIES
                    &&& wakeable(old(tasks)@[id.0], core_id)
                },
        ensures
            final(ready_queue).wf(),
            final(self)@ == not_due(old(self)@, time),
            (final(tasks)@, final(ready_queue)@) == woken_in_turn(
                old(tasks)@,
                old(ready_queue)@,
                due_tasks(old(self)@, time),
            ),
            r == front_time(final(self)@),
    {
        let ghost list = self@;
        let ghost tasks0 = tasks@;
        let ghost ready0 = ready_queue@;
        let mut kept: VecDeque<BlockedTask> = VecDeque::new();
        let mut i: usize = 0;
        assert(list.take(0) =~= Seq::<BlockedTask>::empty());
        while i < self.list.len()
            invariant
                self@ == list,
                i <= list.len(),
                ready_queue.wf(),
                kept@ == not_due(list.take(i as int), time),
                (tasks@, ready_queue@) == woken_in_turn(
                    tasks0,
                    ready0,
                    due_tasks(list.take(i as int), time),
                ),
                forall|j: int|
                    0 <= j < list.len() ==> {
                        let id = (#[trigger] list[j]).task;
                        &&& tasks@.contains_key(id.0)
                        &&& tasks@[id.0].id == id
                        &&& tasks@[id.0].prio.0 < NO_PRIORITIES
                        &&& wakeable(tasks@[id.0], core_id)
                    },
            decreases list.len() - i,
        {
            let node: BlockedTask = self.list[i];
            assert(node == list[i as int]);
            assert(list.take(i + 1).drop_last() =~= list.take(i as int));
            assert(list.take(i + 1).last() == node);
            let elapsed: bool = match node.wakeup_time {
                Some(wakeup_time) => wakeup_time < time,
                None => false,
            };
            if elapsed {
                let ghost before = tasks@;
                let ghost ids = due_tasks(list.take(i as int), time);
                assert(ids.push(node.task).drop_last() =~= ids);
                let mut task: Task = tasks.take(node.task);
                let prio = task.prio;
                let completed: bool = BlockedTaskQueue::mark_ready(&mut task, core_id);
                tasks.put(task);
                assert(tasks@ =~= before.insert(node.task.0, woken(before[node.task.0])));
                if completed {
                    ready_queue.push(node.task, prio);
                }
            } else {
                kept.push_back(node);
            }
            i += 1;
        }
        assert(list.take(list.len() as int) =~= list);
        self.list = kept;
        if self.list.len() > 0 {
            self.list[0].wakeup_time
        } else {
            None
        }
    }
}

} // verus!
