//! The pool of exception slots.
//!
//! Each core owns a few slots with a guard behind each. A task that is
//! dispatched gets a slot, its register frame is copied to the slot's top, and
//! every exception frame is built there from then on. If no slot is free, a
//! stale blocked task is evicted: its frame goes back to its kernel stack.

use vstd::prelude::*;

use crate::config::{EXCEPTION_SLOT_GUARD, EXCEPTION_SLOT_SIZE, SLOTS_PER_CORE};
use crate::memory::{Memory, FRAME_BYTES};
use crate::scheduler::task::{FrameLocation, Task};

verus! {

/// Bytes from one slot to the next: the body and the guard.
pub const SLOT_STRIDE: u64 = 0x11000;

/// Number of cores that have slots of their own.
pub const SLOT_CORES: usize = 4;

/// Owner of a slot that is free.
pub const FREE: i32 = -1;

/// Owner of a slot that was claimed and has no task yet.
pub const CLAIMED: i32 = i32::MAX;

/// The stride is a slot's body and guard.
pub proof fn lemma_stride()
    ensures
        SLOT_STRIDE == EXCEPTION_SLOT_SIZE + EXCEPTION_SLOT_GUARD,
        SLOT_STRIDE == 0x11000,
        SLOTS_PER_CORE * SLOT_STRIDE == 0x33000,
        FRAME_BYTES == crate::config::ARCH_STATE_SIZE,
{
}

/// The first free slot, or the number of slots if none is free.
pub open spec fn first_free(owners: Seq<i32>) -> int
    decreases owners.len(),
{
    if owners.len() == 0 {
        0
    } else if owners[0] == FREE {
        0
    } else {
        1 + first_free(owners.drop_first())
    }
}

/// What makes a slot the first free one.
pub proof fn lemma_first_free(owners: Seq<i32>)
    ensures
        0 <= first_free(owners) <= owners.len(),
        first_free(owners) < owners.len() ==> owners[first_free(owners)] == FREE,
        forall|j: int| 0 <= j < first_free(owners) ==> owners[j] != FREE,
    decreases owners.len(),
{
    if owners.len() > 0 && owners[0] != FREE {
        let rest = owners.drop_first();
        lemma_first_free(rest);
        assert forall|j: int| 0 <= j < first_free(owners) implies owners[j] != FREE by {
            if j > 0 {
                assert(owners[j] == rest[j - 1]);
            }
        }
        if first_free(owners) < owners.len() {
            assert(owners[first_free(owners)] == rest[first_free(rest)]);
        }
    }
}

/// No slot before the first free one is free.
pub proof fn lemma_is_first_free(owners: Seq<i32>, i: int)
    requires
        0 <= i <= owners.len(),
        i < owners.len() ==> owners[i] == FREE,
        forall|j: int| 0 <= j < i ==> owners[j] != FREE,
    ensures
        first_free(owners) == i,
{
    lemma_first_free(owners);
}

/// The owners of one core's slots.
pub struct CoreSlotOwners {
    owners: Vec<i32>,
}

impl View for CoreSlotOwners {
    type V = Seq<i32>;

    /// The owner of each slot: a task's identifier, `FREE` or `CLAIMED`.
    closed spec fn view(&self) -> Seq<i32> {
        self.owners@
    }
}

impl CoreSlotOwners {
    /// All slots free.
    pub fn new() -> (r: Self)
        ensures
            r@ == seq![FREE, FREE, FREE],
            r@.len() == SLOTS_PER_CORE,
    {
        let mut owners: Vec<i32> = Vec::new();
        owners.push(FREE);
        owners.push(FREE);
        owners.push(FREE);
        CoreSlotOwners { owners }
    }

    /// Claims the first free slot. Returns its index, or -1 if none is free.
    pub fn acquire(&mut self) -> (r: i32)
        requires
            old(self)@.len() == SLOTS_PER_CORE,
        ensures
            r == (if first_free(old(self)@) < SLOTS_PER_CORE {
                first_free(old(self)@)
            } else {
                -1
            }),
            final(self)@ == (if r >= 0 {
                old(self)@.update(r as int, CLAIMED)
            } else {
                old(self)@
            }),
    {
        let mut i: usize = 0;
        while i < SLOTS_PER_CORE
            invariant
                i <= SLOTS_PER_CORE,
                self@.len() == SLOTS_PER_CORE,
                self@ == old(self)@,
                forall|j: int| 0 <= j < i ==> self@[j] != FREE,
            decreases SLOTS_PER_CORE - i,
        {
            if self.owners[i] == FREE {
                proof {
                    lemma_is_first_free(self@, i as int);
                }
                self.owners.set(i, CLAIMED);
                return i as i32;
            }
            i += 1;
        }
        proof {
            lemma_is_first_free(self@, i as int);
        }
        -1
    }

    /// Frees slot `i`.
    pub fn release(&mut self, i: usize)
        requires
            i < old(self)@.len(),
        ensures
            final(self)@ == old(self)@.update(i as int, FREE),
    {
        self.owners.set(i, FREE);
    }

    /// Makes `owner` the owner of slot `i`.
    pub fn set_owner(&mut self, i: usize, owner: i32)
        requires
            i < old(self)@.len(),
        ensures
            final(self)@ == old(self)@.update(i as int, owner),
    {
        self.owners.set(i, owner);
    }
}

/// The entry of the owner table that a core uses: cores beyond the table share
/// the last one.
pub open spec fn owner_index(core: u32) -> int {
    if core < SLOT_CORES {
        core as int
    } else {
        SLOT_CORES - 1
    }
}

/// The top of slot `i` of a core; slots lie from `base` on.
pub open spec fn spec_slot_top(base: u64, core: u32, i: int) -> int {
    base + core * 0x33000 + i * 0x11000 + EXCEPTION_SLOT_SIZE
}

/// The register frame at the top of slot `i` of a core.
pub open spec fn slot_frame(base: u64, core: u32, i: int) -> int {
    spec_slot_top(base, core, i) - FRAME_BYTES
}

/// `task` once its frame lies at the top of slot `i`, at `frame`.
pub open spec fn placed(task: Task, frame: int, i: int) -> Task {
    Task {
        last_stack_pointer: frame as u64,
        slot: Some(i as usize),
        frame_location: FrameLocation::InSlot,
        wake_pending: false,
        ..task
    }
}

/// `task` once its frame went back to its kernel stack.
pub open spec fn evicted(task: Task) -> Task {
    Task {
        last_stack_pointer: task.stacks.persistent_frame() as u64,
        slot: None,
        frame_location: FrameLocation::Evicted,
        wake_pending: false,
        ..task
    }
}

/// The exception slots of all cores.
pub struct SlotPool {
    base: u64,
    cores: Vec<CoreSlotOwners>,
}

/// What acquiring a slot does: if one is free, `task` gets the first free one
/// and its frame is copied to the slot's top; otherwise nothing changes. `r`
/// says whether one was free.
pub open spec fn acquired(
    pool: SlotPool,
    core: u32,
    task: Task,
    words: Map<u64, u64>,
    r: bool,
    pool_after: SlotPool,
    task_after: Task,
    words_after: Map<u64, u64>,
) -> bool {
    let owners = pool.owners(core);
    let i = first_free(owners);
    let frame = slot_frame(pool.base(), core, i);
    &&& r == (i < SLOTS_PER_CORE)
    &&& if r {
        &&& pool.changed(core, owners.update(i, task.id.0), &pool_after)
        &&& task_after == placed(task, frame, i)
        &&& words_after == crate::memory::frame_copied(
            words,
            task.last_stack_pointer as int,
            frame,
        )
    } else {
        &&& pool.changed(core, owners, &pool_after)
        &&& task_after == task
        &&& words_after == words
    }
}

impl SlotPool {
    /// Where the first slot lies.
    pub closed spec fn base(&self) -> u64 {
        self.base
    }

    /// The owners by core.
    pub closed spec fn all_owners(&self) -> Seq<Seq<i32>> {
        self.cores@.map_values(|c: CoreSlotOwners| c@)
    }

    /// The owners of a core's slots.
    pub open spec fn owners(&self, core: u32) -> Seq<i32> {
        self.all_owners()[owner_index(core)]
    }

    /// The pool has an entry for each core, with an owner for each slot.
    pub open spec fn wf(&self) -> bool {
        &&& self.all_owners().len() == SLOT_CORES
        &&& forall|c: int|
            0 <= c < SLOT_CORES ==> (#[trigger] self.all_owners()[c]).len() == SLOTS_PER_CORE
        &&& self.base() % 4096 == 0
    }

    /// The slots of a core lie in the lower half of the address space.
    pub open spec fn core_fits(&self, core: u32) -> bool {
        self.base() + (core + 1) * 0x33000 <= 0x000f_ffff_ffff_ffff
    }

    /// The frames at the tops of a core's slots are mapped.
    pub open spec fn frames_mapped(&self, core: u32, words: Map<u64, u64>) -> bool {
        forall|i: int|
            0 <= i < SLOTS_PER_CORE ==> crate::memory::frame_mapped(
                words,
                #[trigger] slot_frame(self.base(), core, i),
            )
    }

    /// Whether `after` differs from this pool at most in the owners of `core`,
    /// which are `owners`.
    pub open spec fn changed(&self, core: u32, owners: Seq<i32>, after: &SlotPool) -> bool {
        &&& after.wf()
        &&& after.base() == self.base()
        &&& after.all_owners() == self.all_owners().update(owner_index(core), owners)
    }

    /// A pool of free slots from `base` on.
    pub fn new(base: u64) -> (r: Self)
        requires
            base % 4096 == 0,
        ensures
            r.wf(),
            r.base() == base,
            forall|core: u32| #[trigger] r.owners(core) == seq![FREE, FREE, FREE],
    {
        let mut cores: Vec<CoreSlotOwners> = Vec::new();
        let mut i: usize = 0;
        while i < SLOT_CORES
            invariant
                i <= SLOT_CORES,
                cores@.len() == i,
                forall|j: int| 0 <= j < i ==> (#[trigger] cores@[j])@ == seq![FREE, FREE, FREE],
            decreases SLOT_CORES - i,
        {
            cores.push(CoreSlotOwners::new());
            i += 1;
        }
        SlotPool { base, cores }
    }

    /// The top of slot `i` of a core. Exception frames grow down from here.
    pub fn slot_top(&self, core: u32, i: usize) -> (r: u64)
        requires
            self.core_fits(core),
            i < SLOTS_PER_CORE,
        ensures
            r == spec_slot_top(self.base(), core, i as int),
            self.base() <= r - EXCEPTION_SLOT_SIZE,
            r + SLOT_STRIDE - EXCEPTION_SLOT_SIZE <= 0x000f_ffff_ffff_ffff,
    {
        self.base + (core as u64) * 0x33000 + (i as u64) * 0x11000 + EXCEPTION_SLOT_SIZE as u64
    }

    /// The entry of the owner table that a core uses.
    fn owners_for_core(&self, core: u32) -> (r: usize)
        ensures
            r == owner_index(core),
    {
        if (core as usize) < SLOT_CORES {
            core as usize
        } else {
            SLOT_CORES - 1
        }
    }

    /// Claims a slot of the core and copies the frame of `task` to its top.
    /// Returns whether a slot was free.
    fn place_in_slot(&mut self, core: u32, task: &mut Task, memory: &mut Memory) -> (r: bool)
        requires
            old(self).wf(),
            old(self).core_fits(core),
            old(memory).wf(),
            old(self).frames_mapped(core, old(memory)@),
            crate::memory::frame_mapped(old(memory)@, old(task).last_stack_pointer as int),
        ensures
            final(memory).wf(),
            final(memory)@.dom() == old(memory)@.dom(),
            acquired(
                *old(self),
                core,
                *old(task),
                old(memory)@,
                r,
                *final(self),
                *final(task),
                final(memory)@,
            ),
    {
        let ghost pool = *self;
        let entry: usize = self.owners_for_core(core);
        proof {
            lemma_first_free(self.owners(core));
            assert(self.cores@[entry as int]@ == self.owners(core));
        }
        let idx: i32 = self.cores[entry].acquire();
        if idx < 0 {
            assert(self.all_owners() =~= pool.all_owners().update(
                entry as int,
                pool.owners(core),
            ));
            return false;
        }
        let idx: usize = idx as usize;
        let top: u64 = self.slot_top(core, idx);
        let frame_base: u64 = top - FRAME_BYTES;
        assert(frame_base == slot_frame(self.base(), core, idx as int));
        memory.copy_frame(task.last_stack_pointer, frame_base);
        task.last_stack_pointer = crate::addr::virt_addr(frame_base);
        task.slot = Some(idx);
        task.frame_location = FrameLocation::InSlot;
        task.wake_pending = false;
        self.cores[entry].set_owner(idx, task.id.into());
        assert(self.cores@[entry as int]@ =~= pool.owners(core).update(idx as int, task.id.0));
        assert(self.all_owners() =~= pool.all_owners().update(
            entry as int,
            pool.owners(core).update(idx as int, task.id.0),
        ));
        true
    }

    /// Gives `task` a slot of the core, with its frame at the slot's top.
    /// Returns whether a slot was free.
    pub fn dispatch_acquire_slot(&mut self, core: u32, task: &mut Task, memory: &mut Memory) -> (r:
        bool)
        requires
            old(self).wf(),
            old(self).core_fits(core),
            old(memory).wf(),
            old(self).frames_mapped(core, old(memory)@),
            crate::memory::frame_mapped(old(memory)@, old(task).last_stack_pointer as int),
        ensures
            final(memory).wf(),
            final(memory)@.dom() == old(memory)@.dom(),
            acquired(
                *old(self),
                core,
                *old(task),
                old(memory)@,
                r,
                *final(self),
                *final(task),
                final(memory)@,
            ),
    {
        self.place_in_slot(core, task, memory)
    }

    /// Frees the slot of a task that ends.
    pub fn release_slot(&mut self, core: u32, task: &Task)
        requires
            old(self).wf(),
            task.slot matches Some(i) ==> i < SLOTS_PER_CORE && task.frame_location
                == FrameLocation::InSlot,
        ensures
            old(self).changed(
                core,
                match task.slot {
                    Some(i) => old(self).owners(core).update(i as int, FREE),
                    None => old(self).owners(core),
                },
                final(self),
            ),
    {
        let ghost pool = *self;
        let entry: usize = self.owners_for_core(core);
        assert(self.cores@[entry as int]@ == self.owners(core));
        match task.slot {
            None => {
                assert(self.all_owners() =~= pool.all_owners().update(
                    entry as int,
                    pool.owners(core),
                ));
            },
            Some(i) => {
                self.cores[entry].release(i);
                assert(self.all_owners() =~= pool.all_owners().update(
                    entry as int,
                    pool.owners(core).update(i as int, FREE),
                ));
            },
        }
    }

    /// Evicts a task from its slot `slot_idx`: the frame is copied back to the
    /// task's kernel stack and the slot is freed. While the frame is copied,
    /// the task is marked so that a wake waits. Returns whether a wake did; the
    /// caller then completes it.
    pub fn evict_victim(
        &mut self,
        core: u32,
        victim: &mut Task,
        slot_idx: usize,
        memory: &mut Memory,
    ) -> (r: bool)
        requires
            old(self).wf(),
            old(self).core_fits(core),
            old(memory).wf(),
            slot_idx < SLOTS_PER_CORE,
            old(victim).frame_location == FrameLocation::InSlot,
            old(victim).slot is Some,
            old(victim).stacks.wf(),
            old(self).frames_mapped(core, old(memory)@),
            crate::memory::frame_mapped(old(memory)@, old(victim).stacks.persistent_frame()),
        ensures
            final(memory).wf(),
            r == old(victim).wake_pending,
            *final(victim) == evicted(*old(victim)),
            old(self).changed(
                core,
                old(self).owners(core).update(slot_idx as int, FREE),
                final(self),
            ),
            final(memory)@ == crate::memory::frame_copied(
                old(memory)@,
                slot_frame(old(self).base(), core, slot_idx as int),
                old(victim).stacks.persistent_frame(),
            ),
            final(memory)@.dom() == old(memory)@.dom(),
    {
        let ghost pool = *self;
        let entry: usize = self.owners_for_core(core);
        assert(self.cores@[entry as int]@ == self.owners(core));
        victim.frame_location = FrameLocation::BeingEvicted;
        let top: u64 = self.slot_top(core, slot_idx);
        let frame_base: u64 = top - FRAME_BYTES;
        assert(frame_base == slot_frame(self.base(), core, slot_idx as int));
        let persistent: u64 = victim.stacks.get_kernel_stack()
            + victim.stacks.get_kernel_stack_size() as u64
            - crate::arch::aarch64::kernel::stacks::MARKER_SIZE as u64 - FRAME_BYTES;
        memory.copy_frame(frame_base, persistent);
        victim.last_stack_pointer = crate::addr::virt_addr(persistent);
        victim.frame_location = FrameLocation::Evicted;
        victim.slot = None;
        self.cores[entry].release(slot_idx);
        assert(self.all_owners() =~= pool.all_owners().update(
            entry as int,
            pool.owners(core).update(slot_idx as int, FREE),
        ));
        let woken: bool = victim.wake_pending;
        victim.wake_pending = false;
        woken
    }

    /// Gives a task whose frame was evicted a slot again. Returns whether one
    /// was free.
    pub fn resume_from_evicted(&mut self, core: u32, task: &mut Task, memory: &mut Memory) -> (r:
        bool)
        requires
            old(self).wf(),
            old(self).core_fits(core),
            old(memory).wf(),
            old(task).frame_location == FrameLocation::Evicted,
            old(self).frames_mapped(core, old(memory)@),
            crate::memory::frame_mapped(old(memory)@, old(task).last_stack_pointer as int),
        ensures
            final(memory).wf(),
            final(memory)@.dom() == old(memory)@.dom(),
            acquired(
                *old(self),
                core,
                *old(task),
                old(memory)@,
                r,
                *final(self),
                *final(task),
                final(memory)@,
            ),
    {
        self.place_in_slot(core, task, memory)
    }
}

/// The slots of all cores lie apart, with a guard between any two: a slot's
/// body ends a guard before the next one begins.
pub proof fn lemma_slots_disjoint(base: u64, core_a: u32, a: int, core_b: u32, b: int)
    requires
        0 <= a < SLOTS_PER_CORE,
        0 <= b < SLOTS_PER_CORE,
        core_a != core_b || a != b,
    ensures
        ({
            let top_a = spec_slot_top(base, core_a, a);
            let top_b = spec_slot_top(base, core_b, b);
            ||| top_a + EXCEPTION_SLOT_GUARD <= top_b - EXCEPTION_SLOT_SIZE
            ||| top_b + EXCEPTION_SLOT_GUARD <= top_a - EXCEPTION_SLOT_SIZE
        }),
{
    let x = core_a * 3 + a;
    let y = core_b * 3 + b;
    assert(x != y);
    assert(spec_slot_top(base, core_a, a) == base + x * 0x11000 + EXCEPTION_SLOT_SIZE);
    assert(spec_slot_top(base, core_b, b) == base + y * 0x11000 + EXCEPTION_SLOT_SIZE);
}

/// A frame in a slot lies in the slot's body and ends at the slot's top.
pub proof fn lemma_frame_in_slot(base: u64, core: u32, i: int)
    ensures
        slot_frame(base, core, i) + FRAME_BYTES == spec_slot_top(base, core, i),
        slot_frame(base, core, i) >= spec_slot_top(base, core, i) - EXCEPTION_SLOT_SIZE,
{
}

/// Whether the kernel stack of a task has nothing in common with the slots of a
/// core.
pub open spec fn outside_slots(base: u64, core: u32, task: Task) -> bool {
    forall|i: int|
        0 <= i < SLOTS_PER_CORE ==> {
            ||| task.stacks.kernel_stack_top() <= #[trigger] spec_slot_top(base, core, i)
                - EXCEPTION_SLOT_SIZE
            ||| spec_slot_top(base, core, i) <= task.stacks.kernel_stack()
        }
}

/// Whether `later` is what `words` became while nothing but the slots of a core was
/// written.
pub open spec fn only_slots_written(
    base: u64,
    core: u32,
    words: Map<u64, u64>,
    later: Map<u64, u64>,
) -> bool {
    forall|a: u64| #[trigger]
        later[a] != words[a] ==> exists|i: int|
            0 <= i < SLOTS_PER_CORE && #[trigger] spec_slot_top(base, core, i)
                - EXCEPTION_SLOT_SIZE <= a < spec_slot_top(base, core, i)
}

/// The frame of an evicted task survives whatever is done to the slots: once its
/// frame was copied from slot `i`, it lies on the task's kernel stack and outside
/// all slots, and holds what the slot held, also when other tasks took the slots
/// since. The kernel stack must not lie in the slots.
pub proof fn lemma_evicted_frame_survives(
    base: u64,
    core: u32,
    i: int,
    victim: Task,
    words: Map<u64, u64>,
    later: Map<u64, u64>,
    w: int,
)
    requires
        0 <= i < SLOTS_PER_CORE,
        0 <= w < crate::memory::FRAME_WORDS,
        victim.stacks.wf(),
        outside_slots(base, core, victim),
        crate::memory::frame_mapped(words, slot_frame(base, core, i)),
        crate::memory::frame_mapped(words, victim.stacks.persistent_frame()),
        only_slots_written(
            base,
            core,
            crate::memory::frame_copied(
                words,
                slot_frame(base, core, i),
                victim.stacks.persistent_frame(),
            ),
            later,
        ),
    ensures
        ({
            let kept = evicted(victim).last_stack_pointer as int;
            &&& victim.stacks.kernel_stack() <= kept
            &&& kept + FRAME_BYTES <= victim.stacks.kernel_stack_top()
            &&& forall|j: int|
                0 <= j < SLOTS_PER_CORE ==> kept + FRAME_BYTES <= #[trigger] spec_slot_top(
                    base,
                    core,
                    j,
                ) - EXCEPTION_SLOT_SIZE || spec_slot_top(base, core, j) <= kept
            &&& later[crate::memory::word_at(kept, w)] == words[crate::memory::word_at(
                slot_frame(base, core, i),
                w,
            )]
        }),
{
    let slot = slot_frame(base, core, i);
    let kept = victim.stacks.persistent_frame();
    let copied = crate::memory::frame_copied(words, slot, kept);
    let a = crate::memory::word_at(kept, w);
    lemma_frame_in_slot(base, core, i);
    assert(spec_slot_top(base, core, i) == slot + FRAME_BYTES);
    assert(crate::memory::disjoint(slot, 36, kept, 36));
    crate::memory::lemma_copied_words(words, slot, kept, 36, w);
    if later[a] != copied[a] {
        let j = choose|j: int|
            0 <= j < SLOTS_PER_CORE && #[trigger] spec_slot_top(base, core, j)
                - EXCEPTION_SLOT_SIZE <= a < spec_slot_top(base, core, j);
        assert(kept <= a < kept + FRAME_BYTES);
    }
}

/// A task that takes a slot writes nothing but the slots.
pub proof fn lemma_acquire_writes_slots(
    base: u64,
    core: u32,
    i: int,
    words: Map<u64, u64>,
    src: int,
)
    requires
        0 <= i < SLOTS_PER_CORE,
        crate::memory::frame_mapped(words, slot_frame(base, core, i)),
    ensures
        only_slots_written(
            base,
            core,
            words,
            crate::memory::frame_copied(words, src, slot_frame(base, core, i)),
        ),
{
    let dst = slot_frame(base, core, i);
    let after = crate::memory::frame_copied(words, src, dst);
    lemma_frame_in_slot(base, core, i);
    assert forall|a: u64| #[trigger] after[a] != words[a] implies exists|j: int|
        0 <= j < SLOTS_PER_CORE && #[trigger] spec_slot_top(base, core, j) - EXCEPTION_SLOT_SIZE
            <= a < spec_slot_top(base, core, j) by {
        if !(dst <= a < dst + FRAME_BYTES) {
            crate::memory::lemma_copied_elsewhere(words, src, dst, 36, a);
        }
        assert(spec_slot_top(base, core, i) - EXCEPTION_SLOT_SIZE <= a < spec_slot_top(
            base,
            core,
            i,
        ));
    }
}

/// Evicting a frame and resuming it later brings the frame back word for word,
/// whichever slot it is resumed into, as long as the kernel stack's copy was
/// left alone in between.
pub proof fn lemma_evict_resume_restores(
    words: Map<u64, u64>,
    slot: int,
    persistent: int,
    between: Map<u64, u64>,
    new_slot: int,
    w: int,
)
    requires
        0 <= w < crate::memory::FRAME_WORDS,
        crate::memory::frame_mapped(words, slot),
        crate::memory::frame_mapped(words, persistent),
        crate::memory::frame_mapped(between, persistent),
        crate::memory::frame_mapped(between, new_slot),
        crate::memory::disjoint(slot, 36, persistent, 36),
        crate::memory::disjoint(new_slot, 36, persistent, 36),
        forall|k: int|
            0 <= k < 36 ==> between[#[trigger] crate::memory::word_at(persistent, k)]
                == crate::memory::frame_copied(
                words,
                slot,
                persistent,
            )[crate::memory::word_at(persistent, k)],
    ensures
        crate::memory::frame_copied(
            between,
            persistent,
            new_slot,
        )[crate::memory::word_at(new_slot, w)] == words[crate::memory::word_at(slot, w)],
{
    crate::memory::lemma_copied_words(words, slot, persistent, 36, w);
    crate::memory::lemma_copied_words(between, persistent, new_slot, 36, w);
    assert(between[crate::memory::word_at(persistent, w)] == crate::memory::frame_copied(
        words,
        slot,
        persistent,
    )[crate::memory::word_at(persistent, w)]);
}

} // verus!
