//! The ready queue: one FIFO per priority and a bitmap of the non-empty ones.

use vstd::prelude::*;

use std::collections::VecDeque;

use crate::scheduler::task::handle::TaskHandle;
use crate::scheduler::task::{Priority, TaskId, IDLE_PRIO, NO_PRIORITIES};

verus! {

/// The highest index below `n` whose queue holds a task, or -1.
pub open spec fn highest_below<T>(queues: Seq<Seq<T>>, n: int) -> int
    decreases n,
{
    if n <= 0 {
        -1
    } else if queues[n - 1].len() > 0 {
        n - 1
    } else {
        highest_below(queues, n - 1)
    }
}

/// The highest priority for which a task is queued, or -1 if none is.
pub open spec fn highest<T>(queues: Seq<Seq<T>>) -> int {
    highest_below(queues, queues.len() as int)
}

/// The queues after `task` was appended to the one of priority `prio`.
pub open spec fn pushed<T>(queues: Seq<Seq<T>>, task: T, prio: int) -> Seq<Seq<T>> {
    queues.update(prio, queues[prio].push(task))
}

/// The queues after the first task of priority `prio` was taken.
pub open spec fn popped<T>(queues: Seq<Seq<T>>, prio: int) -> Seq<Seq<T>> {
    queues.update(prio, queues[prio].drop_first())
}

/// Whether `task` is in one of the queues.
pub open spec fn queued(queues: Seq<Seq<TaskId>>, task: TaskId) -> bool {
    exists|i: int, k: int|
        0 <= i < queues.len() && 0 <= k < queues[i].len() && #[trigger] queues[i][k] == task
}

/// Whether no task is queued twice.
pub open spec fn unique(queues: Seq<Seq<TaskId>>) -> bool {
    forall|i: int, k: int, j: int, l: int|
        0 <= i < queues.len() && 0 <= k < queues[i].len() && 0 <= j < queues.len() && 0 <= l
            < queues[j].len() && #[trigger] queues[i][k] == #[trigger] queues[j][l] ==> i == j && k
            == l
}

/// The index that `highest_below` returns is non-empty, and nothing above it is.
pub proof fn lemma_highest_below<T>(queues: Seq<Seq<T>>, n: int)
    requires
        0 <= n <= queues.len(),
    ensures
        -1 <= highest_below(queues, n) < n,
        highest_below(queues, n) >= 0 ==> queues[highest_below(queues, n)].len() > 0,
        forall|j: int| highest_below(queues, n) < j < n ==> (#[trigger] queues[j]).len() == 0,
    decreases n,
{
    if n > 0 && queues[n - 1].len() == 0 {
        lemma_highest_below(queues, n - 1);
    }
}

/// The highest non-empty queue is the only one with nothing above it.
pub proof fn lemma_highest_is<T>(queues: Seq<Seq<T>>, i: int)
    requires
        0 <= i < queues.len(),
        queues[i].len() > 0,
        forall|j: int| i < j < queues.len() ==> (#[trigger] queues[j]).len() == 0,
    ensures
        highest(queues) == i,
{
    lemma_highest_below(queues, queues.len() as int);
}

/// Appending a task adds that task to the queued ones and no other.
pub proof fn lemma_pushed(queues: Seq<Seq<TaskId>>, task: TaskId, prio: int)
    requires
        0 <= prio < queues.len(),
    ensures
        forall|t: TaskId|
            #[trigger] queued(pushed(queues, task, prio), t) <==> (t == task || queued(queues, t)),
        unique(queues) && !queued(queues, task) ==> unique(pushed(queues, task, prio)),
{
    let after = pushed(queues, task, prio);
    assert forall|t: TaskId| #[trigger] queued(after, t) implies t == task || queued(queues, t) by {
        let (i, k) = choose|i: int, k: int|
            0 <= i < after.len() && 0 <= k < after[i].len() && #[trigger] after[i][k] == t;
        if i == prio && k == queues[prio].len() {
            assert(t == task);
        } else {
            assert(queues[i][k] == t);
        }
    }
    assert forall|t: TaskId| t == task || queued(queues, t) implies #[trigger] queued(after, t) by {
        if t == task {
            assert(after[prio][queues[prio].len() as int] == t);
        } else {
            let (i, k) = choose|i: int, k: int|
                0 <= i < queues.len() && 0 <= k < queues[i].len() && #[trigger] queues[i][k] == t;
            assert(after[i][k] == t);
        }
    }
    if unique(queues) && !queued(queues, task) {
        assert forall|i: int, k: int, j: int, l: int|
            0 <= i < after.len() && 0 <= k < after[i].len() && 0 <= j < after.len() && 0 <= l
                < after[j].len() && #[trigger] after[i][k] == #[trigger] after[j][l] implies i == j
            && k == l by {
            let a = i == prio && k == queues[prio].len();
            let b = j == prio && l == queues[prio].len();
            if !a {
                assert(queues[i][k] == after[i][k]);
            }
            if !b {
                assert(queues[j][l] == after[j][l]);
            }
        }
    }
}

/// Taking the first task of a queue takes that task away and no other.
pub proof fn lemma_popped(queues: Seq<Seq<TaskId>>, prio: int)
    requires
        0 <= prio < queues.len(),
        queues[prio].len() > 0,
        unique(queues),
    ensures
        queued(queues, queues[prio][0]),
        forall|t: TaskId|
            #[trigger] queued(popped(queues, prio), t) <==> (t != queues[prio][0] && queued(
                queues,
                t,
            )),
        unique(popped(queues, prio)),
{
    let after = popped(queues, prio);
    let task = queues[prio][0];
    assert forall|t: TaskId| #[trigger] queued(after, t) implies t != task && queued(queues, t) by {
        let (i, k) = choose|i: int, k: int|
            0 <= i < after.len() && 0 <= k < after[i].len() && #[trigger] after[i][k] == t;
        if i == prio {
            assert(queues[i][k + 1] == t);
        } else {
            assert(queues[i][k] == t);
        }
    }
    assert forall|t: TaskId| t != task && queued(queues, t) implies #[trigger] queued(after, t) by {
        let (i, k) = choose|i: int, k: int|
            0 <= i < queues.len() && 0 <= k < queues[i].len() && #[trigger] queues[i][k] == t;
        if i == prio {
            assert(after[i][k - 1] == t);
        } else {
            assert(after[i][k] == t);
        }
    }
    assert forall|i: int, k: int, j: int, l: int|
        0 <= i < after.len() && 0 <= k < after[i].len() && 0 <= j < after.len() && 0 <= l
            < after[j].len() && #[trigger] after[i][k] == #[trigger] after[j][l] implies i == j && k
        == l by {
        let k0 = if i == prio {
            k + 1
        } else {
            k
        };
        let l0 = if j == prio {
            l + 1
        } else {
            l
        };
        assert(queues[i][k0] == after[i][k]);
        assert(queues[j][l0] == after[j][l]);
    }
}

/// A priority queue of tasks: tasks of equal priority leave in the order in
/// which they came.
pub struct PriorityTaskQueue {
    queues: Vec<VecDeque<TaskId>>,
    prio_bitmap: u64,
}

impl View for PriorityTaskQueue {
    type V = Seq<Seq<TaskId>>;

    /// The queues by priority, each from its front to its back.
    closed spec fn view(&self) -> Seq<Seq<TaskId>> {
        self.queues@.map_values(|q: VecDeque<TaskId>| q@)
    }
}

impl PriorityTaskQueue {
    /// The bitmap of the priorities for which tasks are queued.
    pub closed spec fn bitmap(&self) -> u64 {
        self.prio_bitmap
    }

    /// There is one queue per priority, and the bitmap has exactly the bits of
    /// the non-empty ones.
    pub open spec fn wf(&self) -> bool {
        &&& self@.len() == NO_PRIORITIES
        &&& forall|i: int|
            0 <= i < 64 ==> #[trigger] crate::bits::bit(self.bitmap(), i) == (i < NO_PRIORITIES
                && self@[i].len() > 0)
    }

    /// An empty queue.
    pub fn new() -> (r: PriorityTaskQueue)
        ensures
            r.wf(),
            forall|i: int| 0 <= i < NO_PRIORITIES ==> #[trigger] r@[i] == Seq::<TaskId>::empty(),
    {
        let mut queues: Vec<VecDeque<TaskId>> = Vec::new();
        let mut i: usize = 0;
        while i < NO_PRIORITIES
            invariant
                i <= NO_PRIORITIES,
                queues@.len() == i,
                forall|j: int| 0 <= j < i ==> (#[trigger] queues@[j])@ == Seq::<TaskId>::empty(),
            decreases NO_PRIORITIES - i,
        {
            queues.push(VecDeque::new());
            i += 1;
        }
        proof {
            crate::bits::lemma_zero_bits();
        }
        PriorityTaskQueue { queues, prio_bitmap: 0 }
    }

    /// Appends a task to the queue of its priority.
    pub fn push(&mut self, task: TaskId, prio: Priority)
        requires
            old(self).wf(),
            prio.0 < NO_PRIORITIES,
        ensures
            final(self).wf(),
            final(self)@ == pushed(old(self)@, task, prio.0 as int),
    {
        let i: usize = prio.into() as usize;
        proof {
            crate::bits::lemma_set_bit(self.prio_bitmap, i as u64);
        }
        self.prio_bitmap = self.prio_bitmap | (1u64 << (i as u64));
        let queue = &mut self.queues[i];
        queue.push_back(task);
        assert(self@ =~= pushed(old(self)@, task, prio.0 as int));
        assert forall|j: int| 0 <= j < 64 implies #[trigger] crate::bits::bit(self.bitmap(), j) == (j
            < NO_PRIORITIES && self@[j].len() > 0) by {
            assert(crate::bits::bit(old(self).bitmap(), j) == (j < NO_PRIORITIES && old(
                self,
            )@[j].len() > 0));
        }
    }

    /// Takes the first task of the queue `queue_index`.
    fn pop_from_queue(&mut self, queue_index: usize) -> (r: Option<TaskId>)
        requires
            old(self).wf(),
            queue_index < NO_PRIORITIES,
        ensures
            final(self).wf(),
            match r {
                None => old(self)@[queue_index as int].len() == 0 && final(self)@ == old(self)@,
                Some(t) => old(self)@[queue_index as int].len() > 0 && t == old(
                    self,
                )@[queue_index as int][0] && final(self)@ == popped(old(self)@, queue_index as int),
            },
    {
        let task = self.queues[queue_index].pop_front();
        if self.queues[queue_index].len() == 0 {
            proof {
                crate::bits::lemma_clear_bit(self.prio_bitmap, queue_index as u64);
            }
            self.prio_bitmap = self.prio_bitmap & !(1u64 << (queue_index as u64));
        }
        proof {
            if task is None {
                assert(self@ =~= old(self)@);
            } else {
                assert(self@ =~= popped(old(self)@, queue_index as int));
            }
            assert forall|j: int| 0 <= j < 64 implies #[trigger] crate::bits::bit(self.bitmap(), j)
                == (j < NO_PRIORITIES && self@[j].len() > 0) by {
                assert(crate::bits::bit(old(self).bitmap(), j) == (j < NO_PRIORITIES && old(
                    self,
                )@[j].len() > 0));
            }
        }
        task
    }

    /// Takes the task at `task_index` out of the queue `queue_index`, or
    /// returns `None` if the index is out of range.
    fn remove_from_queue(&mut self, task_index: usize, queue_index: usize) -> (r: Option<TaskId>)
        requires
            old(self).wf(),
            queue_index < NO_PRIORITIES,
        ensures
            final(self).wf(),
            match r {
                None => task_index >= old(self)@[queue_index as int].len() && final(self)@ == old(
                    self,
                )@,
                Some(t) => {
                    &&& task_index < old(self)@[queue_index as int].len()
                    &&& t == old(self)@[queue_index as int][task_index as int]
                    &&& final(self)@ == old(self)@.update(
                        queue_index as int,
                        old(self)@[queue_index as int].remove(task_index as int),
                    )
                },
            },
    {
        let element = self.queues[queue_index].remove(task_index);
        if self.queues[queue_index].len() == 0 {
            proof {
                crate::bits::lemma_clear_bit(self.prio_bitmap, queue_index as u64);
            }
            self.prio_bitmap = self.prio_bitmap & !(1u64 << (queue_index as u64));
        }
        proof {
            if element is None {
                assert(self@ =~= old(self)@);
            } else {
                assert(self@ =~= old(self)@.update(
                    queue_index as int,
                    old(self)@[queue_index as int].remove(task_index as int),
                ));
            }
            assert forall|j: int| 0 <= j < 64 implies #[trigger] crate::bits::bit(self.bitmap(), j)
                == (j < NO_PRIORITIES && self@[j].len() > 0) by {
                assert(crate::bits::bit(old(self).bitmap(), j) == (j < NO_PRIORITIES && old(
                    self,
                )@[j].len() > 0));
            }
        }
        element
    }

    /// Whether no task is queued.
    pub fn is_empty(&self) -> (r: bool)
        requires
            self.wf(),
        ensures
            r == (forall|i: int| 0 <= i < NO_PRIORITIES ==> (#[trigger] self@[i]).len() == 0),
            r == (highest(self@) < 0),
    {
        proof {
            lemma_highest_below(self@, NO_PRIORITIES as int);
            if self.prio_bitmap == 0 {
                crate::bits::lemma_zero_bits();
                assert forall|i: int| 0 <= i < NO_PRIORITIES implies (#[trigger] self@[i]).len()
                    == 0 by {
                    assert(!crate::bits::bit(self.bitmap(), i));
                }
            } else {
                if forall|i: int| 0 <= i < NO_PRIORITIES ==> (#[trigger] self@[i]).len() == 0 {
                    assert forall|j: int| 0 <= j < 64 implies !#[trigger] crate::bits::bit(
                        self.prio_bitmap,
                        j,
                    ) by {
                        assert(crate::bits::bit(self.bitmap(), j) == (j < NO_PRIORITIES
                            && self@[j].len() > 0));
                    }
                    crate::bits::lemma_no_bits_is_zero(self.prio_bitmap);
                }
            }
        }
        self.prio_bitmap == 0
    }

    /// The bitmap of the priorities for which tasks are queued.
    pub fn get_priority_bitmap(&self) -> (r: &u64)
        ensures
            *r == self.bitmap(),
    {
        &self.prio_bitmap
    }

    /// The highest priority for which a task is queued; the most significant
    /// bit of the bitmap names it.
    fn highest_index(&self) -> (r: Option<u32>)
        requires
            self.wf(),
        ensures
            match r {
                None => highest(self@) == -1,
                Some(i) => i < NO_PRIORITIES && highest(self@) == i,
            },
    {
        let r = crate::bits::msb(self.prio_bitmap);
        proof {
            lemma_highest_below(self@, NO_PRIORITIES as int);
            match r {
                None => {
                    crate::bits::lemma_zero_bits();
                    let h = highest(self@);
                    if h >= 0 {
                        assert(crate::bits::bit(self.bitmap(), h));
                    }
                },
                Some(i) => {
                    assert(crate::bits::bit(self.bitmap(), i as int));
                    assert forall|j: int| i < j < NO_PRIORITIES implies (#[trigger] self@[j]).len()
                        == 0 by {
                        assert(!crate::bits::bit(self.bitmap(), j));
                    }
                    lemma_highest_is(self@, i as int);
                },
            }
        }
        r
    }

    /// Takes the first task of the highest priority.
    pub fn pop(&mut self) -> (r: Option<TaskId>)
        requires
            old(self).wf(),
        ensures
            final(self).wf(),
            match r {
                None => highest(old(self)@) < 0 && final(self)@ == old(self)@,
                Some(t) => {
                    let h = highest(old(self)@);
                    0 <= h < NO_PRIORITIES && old(self)@[h].len() > 0 && t == old(self)@[h][0]
                        && final(self)@ == popped(old(self)@, h)
                },
            },
    {
        proof {
            lemma_highest_below(self@, NO_PRIORITIES as int);
        }
        match self.highest_index() {
            None => None,
            Some(i) => self.pop_from_queue(i as usize),
        }
    }

    /// Takes the first task of the highest priority, if that priority is at
    /// least `prio`.
    pub fn pop_with_prio(&mut self, prio: Priority) -> (r: Option<TaskId>)
        requires
            old(self).wf(),
        ensures
            final(self).wf(),
            match r {
                None => highest(old(self)@) < prio.0 && final(self)@ == old(self)@,
                Some(t) => {
                    let h = highest(old(self)@);
                    prio.0 <= h < NO_PRIORITIES && old(self)@[h].len() > 0 && t == old(self)@[h][0]
                        && final(self)@ == popped(old(self)@, h)
                },
            },
    {
        proof {
            lemma_highest_below(self@, NO_PRIORITIES as int);
        }
        match self.highest_index() {
            None => None,
            Some(i) => {
                if i < prio.into() as u32 {
                    return None;
                }
                self.pop_from_queue(i as usize)
            },
        }
    }

    /// The highest priority for which a task is queued; the idle priority if
    /// no task is.
    pub fn get_highest_priority(&self) -> (r: Priority)
        requires
            self.wf(),
        ensures
            r.0 == (if highest(self@) < 0 {
                IDLE_PRIO as int
            } else {
                highest(self@)
            }),
    {
        match self.highest_index() {
            None => Priority::from(IDLE_PRIO),
            Some(i) => Priority::from(i as u8),
        }
    }

    /// Moves the task of `handle` from the queue of the handle's priority to
    /// the back of the queue of `prio`. Fails if it is not in that queue.
    pub fn set_priority(&mut self, handle: TaskHandle, prio: Priority) -> (r: Result<(), ()>)
        requires
            old(self).wf(),
            handle.priority.0 < NO_PRIORITIES,
            prio.0 < NO_PRIORITIES,
        ensures
            final(self).wf(),
            r is Ok <==> old(self)@[handle.priority.0 as int].contains(handle.id),
            r is Err ==> final(self)@ == old(self)@,
            r is Ok ==> final(self)@ == moved(
                old(self)@,
                handle.id,
                handle.priority.0 as int,
                prio.0 as int,
            ),
    {
        let old_priority: usize = handle.get_priority().into() as usize;
        let len: usize = self.queues[old_priority].len();
        let mut index: usize = 0;
        let ghost queue = self@[old_priority as int];
        while index < len
            invariant
                old_priority < self.queues@.len(),
                queue == self.queues@[old_priority as int]@,
                len == queue.len(),
                index <= len,
                forall|j: int| 0 <= j < index ==> queue[j] != handle.id,
            ensures
                index <= len,
                forall|j: int| 0 <= j < index ==> queue[j] != handle.id,
                index < len ==> queue[index as int] == handle.id,
            decreases len - index,
        {
            if self.queues[old_priority][index] == handle.id {
                break;
            }
            index += 1;
        }
        if index >= len {
            return Err(());
        }
        proof {
            lemma_first_index(queue, handle.id, index as int);
        }
        match self.remove_from_queue(index, old_priority) {
            None => Err(()),
            Some(task) => {
                self.push(task, prio);
                Ok(())
            },
        }
    }
}

/// The first position of `task` in `queue`, or the length if it is not there.
pub open spec fn first_index(queue: Seq<TaskId>, task: TaskId) -> int
    decreases queue.len(),
{
    if queue.len() == 0 {
        0
    } else if queue[0] == task {
        0
    } else {
        1 + first_index(queue.drop_first(), task)
    }
}

/// The queues after the first occurrence of `task` in the queue `from` was
/// moved to the back of the queue `to`.
pub open spec fn moved(
    queues: Seq<Seq<TaskId>>,
    task: TaskId,
    from: int,
    to: int,
) -> Seq<Seq<TaskId>> {
    pushed(queues.update(from, queues[from].remove(first_index(queues[from], task))), task, to)
}

/// Where the first position of a queued task is.
pub proof fn lemma_first_index_is(queue: Seq<TaskId>, task: TaskId)
    requires
        queue.contains(task),
    ensures
        0 <= first_index(queue, task) < queue.len(),
        queue[first_index(queue, task)] == task,
    decreases queue.len(),
{
    if queue[0] != task {
        let rest = queue.drop_first();
        let k = choose|k: int| 0 <= k < queue.len() && queue[k] == task;
        assert(rest[k - 1] == task);
        lemma_first_index_is(rest, task);
        assert(queue[first_index(queue, task)] == rest[first_index(rest, task)]);
    }
}

/// Moving a task between queues changes neither which tasks are queued nor
/// that none is queued twice.
pub proof fn lemma_moved(queues: Seq<Seq<TaskId>>, task: TaskId, from: int, to: int)
    requires
        0 <= from < queues.len(),
        0 <= to < queues.len(),
        unique(queues),
        queues[from].contains(task),
    ensures
        unique(moved(queues, task, from, to)),
        forall|t: TaskId| #[trigger] queued(moved(queues, task, from, to), t) <==> queued(queues, t),
        moved(queues, task, from, to).len() == queues.len(),
{
    lemma_first_index_is(queues[from], task);
    let p = first_index(queues[from], task);
    let after = queues.update(from, queues[from].remove(p));
    assert(queues[from][p] == task);
    assert(queued(queues, task));
    assert forall|t: TaskId| #[trigger] queued(after, t) <==> (t != task && queued(queues, t)) by {
        if queued(after, t) {
            let (i, k) = choose|i: int, k: int|
                0 <= i < after.len() && 0 <= k < after[i].len() && #[trigger] after[i][k] == t;
            let k0 = if i == from && k >= p {
                k + 1
            } else {
                k
            };
            assert(queues[i][k0] == t);
        }
        if t != task && queued(queues, t) {
            let (i, k) = choose|i: int, k: int|
                0 <= i < queues.len() && 0 <= k < queues[i].len() && #[trigger] queues[i][k] == t;
            let k0 = if i == from && k > p {
                k - 1
            } else {
                k
            };
            assert(after[i][k0] == t);
        }
    }
    assert(unique(after)) by {
        assert forall|i: int, k: int, j: int, l: int|
            0 <= i < after.len() && 0 <= k < after[i].len() && 0 <= j < after.len() && 0 <= l
                < after[j].len() && #[trigger] after[i][k] == #[trigger] after[j][l] implies i == j
            && k == l by {
            let k0 = if i == from && k >= p {
                k + 1
            } else {
                k
            };
            let l0 = if j == from && l >= p {
                l + 1
            } else {
                l
            };
            assert(queues[i][k0] == after[i][k]);
            assert(queues[j][l0] == after[j][l]);
        }
    }
    lemma_pushed(after, task, to);
}

/// What makes a position the first one.
pub proof fn lemma_first_index(queue: Seq<TaskId>, task: TaskId, i: int)
    requires
        0 <= i < queue.len(),
        queue[i] == task,
        forall|j: int| 0 <= j < i ==> queue[j] != task,
    ensures
        first_index(queue, task) == i,
    decreases queue.len(),
{
    if i > 0 {
        assert(queue[0] != task);
        let rest = queue.drop_first();
        assert forall|j: int| 0 <= j < i - 1 implies rest[j] != task by {
            assert(queue[j + 1] != task);
        }
        lemma_first_index(rest, task, i - 1);
    }
}

} // verus!
