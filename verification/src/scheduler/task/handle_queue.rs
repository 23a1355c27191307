//! Wait queues: task handles by priority, with their bitmaps in a shared pool.

use vstd::prelude::*;

use std::collections::VecDeque;

use crate::scheduler::task::handle::TaskHandle;
use crate::scheduler::task::{TaskId, NO_PRIORITIES};

verus! {

/// Number of wait queues whose bitmaps the pool can hold.
pub const MAX_BITMAP_POOL: usize = 256;

/// The bitmaps of all wait queues. A queue holds the index of its bitmap, so
/// that the queue itself stays small and eight-byte aligned.
pub struct BitmapPool {
    bitmaps: Vec<u64>,
    next_id: usize,
}

impl BitmapPool {
    /// The bitmaps by index.
    pub closed spec fn bitmaps(&self) -> Seq<u64> {
        self.bitmaps@
    }

    /// Number of bitmaps handed out.
    pub closed spec fn allocated(&self) -> int {
        self.next_id as int
    }

    /// The pool has its full size, and what was not handed out is zero.
    pub open spec fn wf(&self) -> bool {
        &&& self.bitmaps().len() == MAX_BITMAP_POOL
        &&& 0 <= self.allocated() <= MAX_BITMAP_POOL
        &&& forall|i: int|
            self.allocated() <= i < MAX_BITMAP_POOL ==> #[trigger] self.bitmaps()[i] == 0
    }

    /// A pool of which nothing was handed out.
    pub fn new() -> (r: Self)
        ensures
            r.wf(),
            r.allocated() == 0,
    {
        let mut bitmaps: Vec<u64> = Vec::new();
        let mut i: usize = 0;
        while i < MAX_BITMAP_POOL
            invariant
                i <= MAX_BITMAP_POOL,
                bitmaps@.len() == i,
                forall|j: int| 0 <= j < i ==> #[trigger] bitmaps@[j] == 0,
            decreases MAX_BITMAP_POOL - i,
        {
            bitmaps.push(0);
            i += 1;
        }
        BitmapPool { bitmaps, next_id: 0 }
    }

    /// Hands out the next bitmap.
    pub fn alloc_bitmap_id(&mut self) -> (id: usize)
        requires
            old(self).wf(),
            old(self).allocated() < MAX_BITMAP_POOL,
        ensures
            final(self).wf(),
            id == old(self).allocated(),
            final(self).allocated() == old(self).allocated() + 1,
            final(self).bitmaps() == old(self).bitmaps(),
    {
        let id: usize = self.next_id;
        self.next_id = id + 1;
        id
    }

    fn get(&self, id: usize) -> (r: u64)
        requires
            self.wf(),
            id < self.allocated(),
        ensures
            r == self.bitmaps()[id as int],
    {
        self.bitmaps[id]
    }

    fn set(&mut self, id: usize, bitmap: u64)
        requires
            old(self).wf(),
            id < old(self).allocated(),
        ensures
            final(self).wf(),
            final(self).allocated() == old(self).allocated(),
            final(self).bitmaps() == old(self).bitmaps().update(id as int, bitmap),
    {
        self.bitmaps.set(id, bitmap);
    }
}

/// `queue` without the handles of the task `id`.
pub open spec fn without(queue: Seq<TaskHandle>, id: TaskId) -> Seq<TaskHandle>
    decreases queue.len(),
{
    if queue.len() == 0 {
        queue
    } else if queue.last().id == id {
        without(queue.drop_last(), id)
    } else {
        without(queue.drop_last(), id).push(queue.last())
    }
}

/// Whether `queue` holds a handle of the task `id`.
pub open spec fn holds(queue: Seq<TaskHandle>, id: TaskId) -> bool {
    exists|k: int| 0 <= k < queue.len() && (#[trigger] queue[k]).id == id
}

/// Removing a task that is not there changes nothing; otherwise the queue
/// gets shorter. No handle of the task is left.
pub proof fn lemma_without(queue: Seq<TaskHandle>, id: TaskId)
    ensures
        !holds(queue, id) ==> without(queue, id) == queue,
        holds(queue, id) ==> without(queue, id).len() < queue.len(),
        without(queue, id).len() <= queue.len(),
        !holds(without(queue, id), id),
    decreases queue.len(),
{
    if queue.len() > 0 {
        let init = queue.drop_last();
        lemma_without(init, id);
        if queue.last().id == id {
            assert(queue[queue.len() - 1].id == id);
        } else {
            if holds(queue, id) {
                let k = choose|k: int| 0 <= k < queue.len() && (#[trigger] queue[k]).id == id;
                assert(init[k].id == id);
            } else {
                assert forall|k: int| 0 <= k < init.len() implies (#[trigger] init[k]).id != id by {
                    assert(queue[k].id != id);
                }
                assert(init.push(queue.last()) =~= queue);
            }
            let r = without(init, id).push(queue.last());
            assert forall|k: int| 0 <= k < r.len() implies (#[trigger] r[k]).id != id by {
                if k < without(init, id).len() {
                    assert(r[k] == without(init, id)[k]);
                }
            }
        }
    }
}

/// A priority queue of task handles. Its bitmap lies in a `BitmapPool` and is
/// handed out at the first access.
pub struct TaskHandlePriorityQueue {
    queues: Vec<Option<VecDeque<TaskHandle>>>,
    prio_bitmap_id: Option<usize>,
}

spec fn contents(queue: Option<VecDeque<TaskHandle>>) -> Seq<TaskHandle> {
    match queue {
        None => Seq::empty(),
        Some(q) => q@,
    }
}

impl View for TaskHandlePriorityQueue {
    type V = Seq<Seq<TaskHandle>>;

    /// The handles by priority, each queue from its front to its back.
    closed spec fn view(&self) -> Seq<Seq<TaskHandle>> {
        self.queues@.map_values(|q: Option<VecDeque<TaskHandle>>| contents(q))
    }
}

impl TaskHandlePriorityQueue {
    /// The index of this queue's bitmap, once it was handed out.
    pub closed spec fn bitmap_id(&self) -> Option<usize> {
        self.prio_bitmap_id
    }

    /// There is one queue per priority, and this queue's bitmap in `pool` has
    /// exactly the bits of the non-empty ones.
    pub open spec fn wf(&self, pool: &BitmapPool) -> bool {
        &&& self@.len() == NO_PRIORITIES
        &&& match self.bitmap_id() {
            None => forall|i: int| 0 <= i < NO_PRIORITIES ==> (#[trigger] self@[i]).len() == 0,
            Some(id) => {
                &&& id < pool.allocated()
                &&& forall|i: int|
                    0 <= i < 64 ==> #[trigger] crate::bits::bit(pool.bitmaps()[id as int], i) == (i
                        < NO_PRIORITIES && self@[i].len() > 0)
            },
        }
    }

    /// What an operation on this queue leaves of the pool: at most this
    /// queue's bitmap differs, and at most one bitmap was handed out.
    pub open spec fn pool_kept(&self, old_pool: &BitmapPool, after: &Self, pool: &BitmapPool) -> bool {
        &&& pool.wf()
        &&& after.bitmap_id() is Some
        &&& match self.bitmap_id() {
            Some(id) => after.bitmap_id() == Some(id) && pool.allocated() == old_pool.allocated(),
            None => after.bitmap_id()->0 == old_pool.allocated() && pool.allocated()
                == old_pool.allocated() + 1,
        }
        &&& forall|k: int|
            0 <= k < MAX_BITMAP_POOL && k != after.bitmap_id()->0 ==> #[trigger] pool.bitmaps()[k]
                == old_pool.bitmaps()[k]
    }

    /// Whether the bitmap is there or can be handed out.
    pub open spec fn can_allocate(&self, pool: &BitmapPool) -> bool {
        self.bitmap_id() is None ==> pool.allocated() < MAX_BITMAP_POOL
    }

    /// An empty queue; its bitmap is handed out later.
    pub fn new() -> (r: Self)
        ensures
            r.bitmap_id() is None,
            r@.len() == NO_PRIORITIES,
            forall|i: int| 0 <= i < NO_PRIORITIES ==> (#[trigger] r@[i]).len() == 0,
            forall|pool: BitmapPool| r.wf(&pool),
    {
        let mut queues: Vec<Option<VecDeque<TaskHandle>>> = Vec::new();
        let mut i: usize = 0;
        while i < NO_PRIORITIES
            invariant
                i <= NO_PRIORITIES,
                queues@.len() == i,
                forall|j: int| 0 <= j < i ==> #[trigger] queues@[j] is None,
            decreases NO_PRIORITIES - i,
        {
            queues.push(None);
            i += 1;
        }
        TaskHandlePriorityQueue { queues, prio_bitmap_id: None }
    }

    /// Makes sure that this queue has a bitmap, and returns its index.
    fn ensure_bitmap(&mut self, pool: &mut BitmapPool) -> (id: usize)
        requires
            old(pool).wf(),
            old(self).wf(old(pool)),
            old(self).can_allocate(old(pool)),
        ensures
            final(self)@ == old(self)@,
            final(self).wf(final(pool)),
            final(self).bitmap_id() == Some(id),
            final(pool).bitmaps() == old(pool).bitmaps(),
            old(self).pool_kept(old(pool), final(self), final(pool)),
    {
        match self.prio_bitmap_id {
            Some(id) => id,
            None => {
                let id: usize = pool.alloc_bitmap_id();
                self.prio_bitmap_id = Some(id);
                assert(self@ =~= old(self)@);
                proof {
                    crate::bits::lemma_zero_bits();
                }
                id
            },
        }
    }

    /// Whether no handle is queued.
    pub fn is_empty(&mut self, pool: &mut BitmapPool) -> (r: bool)
        requires
            old(pool).wf(),
            old(self).wf(old(pool)),
            old(self).can_allocate(old(pool)),
        ensures
            final(self)@ == old(self)@,
            final(self).wf(final(pool)),
            old(self).pool_kept(old(pool), final(self), final(pool)),
            r == (forall|i: int| 0 <= i < NO_PRIORITIES ==> (#[trigger] old(self)@[i]).len() == 0),
    {
        let id: usize = self.ensure_bitmap(pool);
        let bitmap: u64 = pool.get(id);
        proof {
            if bitmap == 0 {
                crate::bits::lemma_zero_bits();
                assert forall|i: int| 0 <= i < NO_PRIORITIES implies (#[trigger] self@[i]).len()
                    == 0 by {
                    assert(!crate::bits::bit(bitmap, i));
                }
            } else if forall|i: int| 0 <= i < NO_PRIORITIES ==> (#[trigger] self@[i]).len() == 0 {
                assert forall|j: int| 0 <= j < 64 implies !#[trigger] crate::bits::bit(bitmap, j) by {
                    assert(crate::bits::bit(bitmap, j) == (j < NO_PRIORITIES && self@[j].len() > 0));
                }
                crate::bits::lemma_no_bits_is_zero(bitmap);
            }
        }
        bitmap == 0
    }

    /// Whether the queue of the handle's priority holds a handle of its task.
    pub fn contains(&self, task: TaskHandle) -> (r: bool)
        requires
            self@.len() == NO_PRIORITIES,
            task.priority.0 < NO_PRIORITIES,
        ensures
            r == holds(self@[task.priority.0 as int], task.id),
    {
        let i: usize = task.priority.into() as usize;
        let ghost queue = self@[i as int];
        match &self.queues[i] {
            None => false,
            Some(q) => {
                let mut k: usize = 0;
                while k < q.len()
                    invariant
                        q@ == queue,
                        queue == self@[task.priority.0 as int],
                        k <= queue.len(),
                        forall|j: int| 0 <= j < k ==> (#[trigger] queue[j]).id != task.id,
                    decreases queue.len() - k,
                {
                    if q[k].id == task.id {
                        assert(queue[k as int].id == task.id);
                        return true;
                    }
                    k += 1;
                }
                false
            },
        }
    }

    /// Appends a handle to the queue of its priority.
    pub fn push(&mut self, pool: &mut BitmapPool, task: TaskHandle)
        requires
            old(pool).wf(),
            old(self).wf(old(pool)),
            old(self).can_allocate(old(pool)),
            task.priority.0 < NO_PRIORITIES,
        ensures
            final(self)@ == crate::scheduler::task::priority_queue::pushed(
                old(self)@,
                task,
                task.priority.0 as int,
            ),
            final(self).wf(final(pool)),
            old(self).pool_kept(old(pool), final(self), final(pool)),
    {
        let i: usize = task.priority.into() as usize;
        let id: usize = self.ensure_bitmap(pool);
        let bitmap: u64 = pool.get(id);
        pool.set(id, bitmap | (1u64 << (i as u64)));
        match self.queues[i].take() {
            Some(mut queue) => {
                queue.push_back(task);
                self.queues.set(i, Some(queue));
            },
            None => {
                let mut queue: VecDeque<TaskHandle> = VecDeque::new();
                queue.push_back(task);
                assert(queue@ =~= old(self)@[i as int].push(task));
                self.queues.set(i, Some(queue));
            },
        }
        proof {
            assert(self@ =~= crate::scheduler::task::priority_queue::pushed(
                old(self)@,
                task,
                i as int,
            ));
            crate::bits::lemma_set_bit(bitmap, i as u64);
            assert forall|j: int| 0 <= j < 64 implies #[trigger] crate::bits::bit(
                pool.bitmaps()[id as int],
                j,
            ) == (j < NO_PRIORITIES && self@[j].len() > 0) by {
                assert(crate::bits::bit(bitmap, j) == (j < NO_PRIORITIES && old(self)@[j].len()
                    > 0));
            }
        }
    }

    /// Takes the first handle of the queue `queue_index`.
    fn pop_from_queue(&mut self, pool: &mut BitmapPool, queue_index: usize) -> (r: Option<TaskHandle>)
        requires
            old(pool).wf(),
            old(self).wf(old(pool)),
            old(self).bitmap_id() is Some,
            queue_index < NO_PRIORITIES,
        ensures
            final(self).wf(final(pool)),
            old(self).pool_kept(old(pool), final(self), final(pool)),
            match r {
                None => old(self)@[queue_index as int].len() == 0 && final(self)@ == old(self)@,
                Some(t) => old(self)@[queue_index as int].len() > 0 && t == old(self)@[queue_index as int][0] && final(self)@
                    == crate::scheduler::task::priority_queue::popped(
                    old(self)@,
                    queue_index as int,
                ),
            },
    {
        match self.queues[queue_index].take() {
            None => {
                assert(self@ =~= old(self)@);
                None
            },
            Some(mut queue) => {
                let task = queue.pop_front();
                let empty: bool = queue.len() == 0;
                self.queues.set(queue_index, Some(queue));
                proof {
                    if task is None {
                        assert(self@ =~= old(self)@);
                    } else {
                        assert(self@ =~= crate::scheduler::task::priority_queue::popped(
                            old(self)@,
                            queue_index as int,
                        ));
                    }
                }
                self.drop_bit_if(pool, queue_index, empty, Ghost(old(self)@));
                task
            },
        }
    }

    /// Clears the bit of the queue `queue_index` if that queue is empty.
    fn drop_bit_if(
        &mut self,
        pool: &mut BitmapPool,
        queue_index: usize,
        empty: bool,
        before: Ghost<Seq<Seq<TaskHandle>>>,
    )
        requires
            old(pool).wf(),
            old(self)@.len() == NO_PRIORITIES,
            old(self).bitmap_id() is Some,
            old(self).bitmap_id()->0 < old(pool).allocated(),
            queue_index < NO_PRIORITIES,
            empty == (old(self)@[queue_index as int].len() == 0),
            forall|i: int|
                0 <= i < NO_PRIORITIES && i != queue_index ==> #[trigger] old(self)@[i]
                    == before@[i],
            before@[queue_index as int].len() >= old(self)@[queue_index as int].len(),
            forall|i: int|
                0 <= i < 64 ==> #[trigger] crate::bits::bit(
                    old(pool).bitmaps()[old(self).bitmap_id()->0 as int],
                    i,
                ) == (i < NO_PRIORITIES && before@[i].len() > 0),
        ensures
            *final(self) == *old(self),
            final(self).wf(final(pool)),
            old(self).pool_kept(old(pool), final(self), final(pool)),
    {
        let id: usize = self.prio_bitmap_id.unwrap();
        if empty {
            let bitmap: u64 = pool.get(id);
            pool.set(id, bitmap & !(1u64 << (queue_index as u64)));
            proof {
                crate::bits::lemma_clear_bit(bitmap, queue_index as u64);
                assert forall|j: int| 0 <= j < 64 implies #[trigger] crate::bits::bit(
                    pool.bitmaps()[id as int],
                    j,
                ) == (j < NO_PRIORITIES && self@[j].len() > 0) by {
                    assert(crate::bits::bit(bitmap, j) == (j < NO_PRIORITIES && before@[j].len()
                        > 0));
                }
            }
        }
    }

    /// Takes the first handle of the highest priority.
    pub fn pop(&mut self, pool: &mut BitmapPool) -> (r: Option<TaskHandle>)
        requires
            old(pool).wf(),
            old(self).wf(old(pool)),
            old(self).can_allocate(old(pool)),
        ensures
            final(self).wf(final(pool)),
            old(self).pool_kept(old(pool), final(self), final(pool)),
            match r {
                None => crate::scheduler::task::priority_queue::highest(old(self)@) < 0 && final(self)@ == old(self)@,
                Some(t) => {
                    let h = crate::scheduler::task::priority_queue::highest(old(self)@);
                    0 <= h < NO_PRIORITIES && old(self)@[h].len() > 0 && t == old(self)@[h][0]
                        && final(self)@ == crate::scheduler::task::priority_queue::popped(
                        old(self)@,
                        h,
                    )
                },
            },
    {
        let id: usize = self.ensure_bitmap(pool);
        let bitmap: u64 = pool.get(id);
        let top = crate::bits::msb(bitmap);
        proof {
            crate::scheduler::task::priority_queue::lemma_highest_below(
                self@,
                NO_PRIORITIES as int,
            );
            match top {
                None => {
                    crate::bits::lemma_zero_bits();
                    let h = crate::scheduler::task::priority_queue::highest(self@);
                    if h >= 0 {
                        assert(crate::bits::bit(bitmap, h));
                    }
                },
                Some(i) => {
                    assert(crate::bits::bit(bitmap, i as int));
                    assert forall|j: int| i < j < NO_PRIORITIES implies (#[trigger] self@[j]).len()
                        == 0 by {
                        assert(!crate::bits::bit(bitmap, j));
                    }
                    crate::scheduler::task::priority_queue::lemma_highest_is(self@, i as int);
                },
            }
        }
        match top {
            None => None,
            Some(i) => self.pop_from_queue(pool, i as usize),
        }
    }

    /// Removes every handle of a task from the queue of the handle's priority.
    /// Returns whether there was one.
    pub fn remove(&mut self, pool: &mut BitmapPool, task: TaskHandle) -> (r: bool)
        requires
            old(pool).wf(),
            old(self).wf(old(pool)),
            old(self).can_allocate(old(pool)),
            task.priority.0 < NO_PRIORITIES,
        ensures
            r == holds(old(self)@[task.priority.0 as int], task.id),
            final(self)@ == old(self)@.update(
                task.priority.0 as int,
                without(old(self)@[task.priority.0 as int], task.id),
            ),
            final(self).wf(final(pool)),
            old(self).pool_kept(old(pool), final(self), final(pool)),
    {
        let queue_index: usize = task.priority.into() as usize;
        let id: usize = self.ensure_bitmap(pool);
        let ghost whole = self@[queue_index as int];
        proof {
            lemma_without(whole, task.id);
        }
        let mut success: bool = false;
        match self.queues[queue_index].take() {
            None => {
                assert(self@ =~= old(self)@);
                assert(self@ =~= old(self)@.update(queue_index as int, whole));
                false
            },
            Some(mut queue) => {
                let ghost mut seen: int = 0;
                let mut i: usize = 0;
                assert(whole.take(0) =~= Seq::<TaskHandle>::empty());
                assert(whole.skip(0) =~= whole);
                assert(queue@ =~= without(whole.take(0), task.id) + whole.skip(0));
                while i < queue.len()
                    invariant
                        0 <= seen <= whole.len(),
                        queue@ == without(whole.take(seen), task.id) + whole.skip(seen),
                        i == without(whole.take(seen), task.id).len(),
                        success == holds(whole.take(seen), task.id),
                    decreases whole.len() - seen,
                {
                    assert(queue@[i as int] == whole[seen]);
                    assert(whole.take(seen + 1).drop_last() =~= whole.take(seen));
                    assert(whole.take(seen + 1).last() == whole[seen]);
                    if queue[i].id == task.id {
                        let _ = queue.remove(i);
                        success = true;
                        assert(queue@ =~= without(whole.take(seen + 1), task.id) + whole.skip(
                            seen + 1,
                        ));
                        assert(whole.take(seen + 1)[seen].id == task.id);
                    } else {
                        i += 1;
                        assert(queue@ =~= without(whole.take(seen + 1), task.id) + whole.skip(
                            seen + 1,
                        ));
                        proof {
                            let next = whole.take(seen + 1);
                            if holds(next, task.id) {
                                let k = choose|k: int|
                                    0 <= k < next.len() && (#[trigger] next[k]).id == task.id;
                                assert(whole.take(seen)[k].id == task.id);
                            }
                            if holds(whole.take(seen), task.id) {
                                let k = choose|k: int|
                                    0 <= k < seen && (#[trigger] whole.take(seen)[k]).id == task.id;
                                assert(next[k].id == task.id);
                            }
                        }
                    }
                    proof {
                        seen = seen + 1;
                    }
                }
                assert(whole.take(whole.len() as int) =~= whole);
                assert(queue@ =~= without(whole, task.id));
                let empty: bool = queue.len() == 0;
                self.queues.set(queue_index, Some(queue));
                assert(self@ =~= old(self)@.update(queue_index as int, without(whole, task.id)));
                self.drop_bit_if(pool, queue_index, empty, Ghost(old(self)@));
                success
            },
        }
    }
}

/// An operation on one wait queue leaves every wait queue with another bitmap
/// as it was.
pub proof fn lemma_other_queues_kept(
    queue: TaskHandlePriorityQueue,
    after: TaskHandlePriorityQueue,
    other: TaskHandlePriorityQueue,
    old_pool: BitmapPool,
    pool: BitmapPool,
)
    requires
        old_pool.wf(),
        other.wf(&old_pool),
        queue.pool_kept(&old_pool, &after, &pool),
        other.bitmap_id() is Some ==> other.bitmap_id() != after.bitmap_id(),
    ensures
        other.wf(&pool),
{
}

/// Bitmaps are handed out once: a queue that gets its bitmap gets another one
/// than every queue that has its own.
pub proof fn lemma_bitmaps_distinct(
    queue: TaskHandlePriorityQueue,
    after: TaskHandlePriorityQueue,
    other: TaskHandlePriorityQueue,
    old_pool: BitmapPool,
    pool: BitmapPool,
)
    requires
        old_pool.wf(),
        other.wf(&old_pool),
        queue.bitmap_id() is None,
        other.bitmap_id() is Some,
        queue.pool_kept(&old_pool, &after, &pool),
    ensures
        other.bitmap_id() != after.bitmap_id(),
{
}

/// Removing a task keeps exactly the handles of other tasks, in their order.
pub proof fn lemma_without_keeps_others(queue: Seq<TaskHandle>, id: TaskId)
    ensures
        without(queue, id) == queue.filter(|h: TaskHandle| h.id != id),
    decreases queue.len(),
{
    reveal(Seq::filter);
    if queue.len() > 0 {
        lemma_without_keeps_others(queue.drop_last(), id);
    }
}

} // verus!
