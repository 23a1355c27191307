//! What the kernel's operations on continuations, contexts, stacks, slots and
//! cores do, word by word and field by field.

use vstd::prelude::*;

use crate::arch::aarch64::kernel::context::{Context, Resumed};
use crate::arch::aarch64::kernel::continuations::{
    Cont, ContLayout, ContState, ContSwitch, ContView, Continuations, Parked,
};
use crate::arch::aarch64::kernel::core_local::CoreLocal;
use crate::arch::aarch64::kernel::kernel_stack::KernelCall;
use crate::arch::aarch64::kernel::slot_pool::SlotPool;
use crate::arch::aarch64::kernel::stacks::{StackRelease, TaskStacks};
use crate::arch::aarch64::kernel::start::{CoreSetup, EntryStep};
use crate::arch::aarch64::kernel::{
    context, continuations, core_local, kernel_stack, scheduler, slot_pool, stacks, start, Conduit,
    GuardPlan, NextProcessor, ProcessorStep, Processors, StackSections,
};
use crate::memory;
use crate::memory::Memory;
use crate::scheduler::task::{FrameLocation, Task};

verus! {

/// The stacks of continuations lie one after the other from the start of their
/// section on, each below its guard: first those of core 0, then those of the next
/// core. So do their exception slots.
pub proof fn lemma_cont_places(layout: ContLayout, core: int, i: int)
    requires
        layout.max >= 1,
    ensures
        layout.stack_top(0, 0) == layout.stacks + layout.stack_size,
        layout.stack_top(core, i + 1) == layout.stack_top(core, i) + layout.stack_guard
            + layout.stack_size,
        layout.stack_top(core + 1, 0) == layout.stack_top(core, layout.max - 1)
            + layout.stack_guard + layout.stack_size,
        layout.slot_top(0, 0) == layout.slots + layout.slot_size,
        layout.slot_top(core, i + 1) == layout.slot_top(core, i) + layout.slot_guard
            + layout.slot_size,
        layout.slot_top(core + 1, 0) == layout.slot_top(core, layout.max - 1) + layout.slot_guard
            + layout.slot_size,
{
    let m = layout.max as int;
    let s = layout.stack_size + layout.stack_guard;
    let t = layout.slot_size + layout.slot_guard;
    assert((core * m + (i + 1)) * s == (core * m + i) * s + s) by (nonlinear_arith);
    assert((core * m + (i + 1)) * t == (core * m + i) * t + t) by (nonlinear_arith);
    assert(((core + 1) * m + 0) * s == (core * m + (m - 1)) * s + s) by (nonlinear_arith);
    assert(((core + 1) * m + 0) * t == (core * m + (m - 1)) * t + t) by (nonlinear_arith);
    assert((0 * m + 0) * s == 0) by (nonlinear_arith);
    assert((0 * m + 0) * t == 0) by (nonlinear_arith);
}

/// Whether every continuation but number `i` is the same in both.
pub open spec fn other_conts(a: ContView, b: ContView, i: int) -> bool {
    &&& a.conts.len() == b.conts.len()
    &&& forall|j: int| 0 <= j < a.conts.len() && j != i ==> #[trigger] a.conts[j] == b.conts[j]
}

/// Whether two values are the same continuation: frame, slot, thread pointer and
/// entry agree.
pub open spec fn same_cont(a: Cont, b: Cont) -> bool {
    &&& a.state_frame == b.state_frame
    &&& a.slot_top == b.slot_top
    &&& a.tls == b.tls
    &&& a.entry == b.entry
}

/// A continuation that parks without having been woken before stops running, knows
/// whom to go back to, and waits to be woken if it asked for that; otherwise whoever
/// waited goes on waiting. One that was woken before runs on, and that wake is used up.
/// The other continuations stay as they are.
pub proof fn lemma_park_effect(v: ContView, pend: bool)
    requires
        continuations::cont_inv(v),
        v.current is Some,
    ensures
        ({
            let i = v.current->0 as int;
            let a = continuations::parked(v, pend);
            &&& other_conts(v, a, i)
            &&& same_cont(v.conts[i], a.conts[i])
            &&& a.conts[i].resumer_frame == v.conts[i].resumer_frame
            &&& a.conts[i].resumer_slot == v.conts[i].resumer_slot
            &&& !a.conts[i].pending_wake
            &&& v.conts[i].pending_wake ==> a.current == v.current && a.pending == v.pending
                && a.conts[i].state == v.conts[i].state
            &&& !v.conts[i].pending_wake ==> a.current is None && a.conts[i].state
                == ContState::Parked
            &&& !v.conts[i].pending_wake && pend ==> a.pending == v.current
            &&& !v.conts[i].pending_wake && !pend ==> a.pending == v.pending
            &&& continuations::goes_on(v) == v.conts[i].pending_wake
            &&& continuations::switch_back(v.conts[i]).save == v.conts[i].state_frame
            &&& continuations::switch_back(v.conts[i]).target == v.conts[i].resumer_frame
            &&& continuations::switch_back(v.conts[i]).target_slot == v.conts[i].resumer_slot
            &&& continuations::switch_back(v.conts[i]).cur == v.conts[i].resumer_frame
        }),
{
}

/// Waking makes the continuation that waits ready, and remembers the wake. It neither
/// resumes anything nor touches another continuation; without one that waits it does
/// nothing.
pub proof fn lemma_cont_wake_effect(v: ContView)
    requires
        continuations::cont_inv(v),
    ensures
        ({
            let a = continuations::woken(v);
            &&& a.current == v.current
            &&& a.pending == v.pending
            &&& v.pending is None ==> a.conts == v.conts
            &&& v.pending matches Some(p) ==> {
                &&& other_conts(v, a, p as int)
                &&& same_cont(v.conts[p as int], a.conts[p as int])
                &&& a.conts[p as int].state == ContState::Ready
                &&& a.conts[p as int].pending_wake
                &&& a.conts[p as int].resumer_frame == v.conts[p as int].resumer_frame
                &&& a.conts[p as int].resumer_slot == v.conts[p as int].resumer_slot
            }
        }),
{
}

/// A continuation is resumed exactly if it waits and is ready. It then runs, waits no
/// longer, and knows the frame and the slot to go back to; the core goes on from its
/// frame, with its slot, and keeps what ran in the frame that it comes from.
pub proof fn lemma_resume_effect(v: ContView, task_frame: u64, scratch_slot: u64)
    requires
        continuations::cont_inv(v),
    ensures
        v.pending is None ==> !continuations::resumes(v),
        v.pending matches Some(p) ==> continuations::resumes(v) == (v.conts[p as int].state
            == ContState::Ready),
        continuations::resumes(v) ==> {
            let i = v.pending->0 as int;
            let a = continuations::resumed(v, task_frame, scratch_slot);
            let to = continuations::switch_to(task_frame, v.conts[i]);
            &&& other_conts(v, a, i)
            &&& same_cont(v.conts[i], a.conts[i])
            &&& a.conts[i].state == ContState::Running
            &&& !a.conts[i].pending_wake
            &&& a.conts[i].resumer_frame == task_frame
            &&& a.conts[i].resumer_slot == scratch_slot
            &&& a.current == v.pending
            &&& a.pending is None
            &&& to.save == task_frame
            &&& to.target == v.conts[i].state_frame
            &&& to.cur == v.conts[i].state_frame
            &&& to.target_slot == v.conts[i].slot_top
        },
{
}

/// A continuation that is started goes on, once the core switched to it, at its entry,
/// on exception level 1 with its user stack pointer 16 bytes below the top of its own
/// stack, with its own slot and thread pointer, and with all general registers zero.
/// Its frame is the highest on its stack, and nothing outside the frame is written.
pub proof fn lemma_cont_start_effect(
    layout: ContLayout,
    core: int,
    i: int,
    entry: u64,
    task_frame: u64,
    scratch_slot: u64,
    before: Map<u64, u64>,
    after: Map<u64, u64>,
    r: Resumed,
)
    requires
        0 <= i < layout.max,
        layout.fits(core),
        core >= 0,
        ({
            let c = continuations::started(layout, core, i, entry, task_frame, scratch_slot);
            &&& continuations::frame_built(
                before,
                after,
                entry,
                c.tls,
                layout.stack_top(core, i),
            )
            &&& context::is_resumed(after, c.state_frame as int, c.slot_top, r)
        }),
    ensures
        ({
            let c = continuations::started(layout, core, i, entry, task_frame, scratch_slot);
            &&& c.state_frame + 36 * 8 == layout.stack_top(core, i)
            &&& c.slot_top == layout.slot_top(core, i)
            &&& c.state == ContState::Ready
            &&& !c.pending_wake
            &&& c.entry == entry
            &&& c.resumer_frame == task_frame
            &&& c.resumer_slot == scratch_slot
            &&& c.tls == 0xC0DE_C7E7
            &&& r.pc == entry
            &&& r.spsr == 0x3e4
            &&& r.tpidr_el0 == c.tls
            &&& r.sp_el0 == Some((layout.stack_top(core, i) - 16) as u64)
            &&& r.sp_el1 == c.slot_top
            &&& r.x@.len() == 31
            &&& forall|k: int| 0 <= k < 31 ==> #[trigger] r.x@[k] == 0
            &&& forall|a: u64|
                a < c.state_frame || a >= layout.stack_top(core, i) ==> #[trigger] after[a]
                    == before[a]
        }),
{
    let top = layout.stack_top(core, i);
    assert(layout.stack_top(core, i) <= u64::MAX);
    assert(layout.slot_top(core, i) <= u64::MAX);
    let m = layout.max as int;
    assert((core * m + i) * (layout.stack_size + layout.stack_guard) >= 0) by (nonlinear_arith)
        requires
            core >= 0,
            m >= 0,
            i >= 0,
            layout.stack_size + layout.stack_guard >= 0,
    ;
    assert((core * m + i) * (layout.slot_size + layout.slot_guard) >= 0) by (nonlinear_arith)
        requires
            core >= 0,
            m >= 0,
            i >= 0,
            layout.slot_size + layout.slot_guard >= 0,
    ;
    let frame = top - 288;
    assert(after[memory::word_at(frame, 0)] == 0);
    assert(after[memory::word_at(frame, 1)] == entry);
    assert(after[memory::word_at(frame, 2)] == 0x3e4);
    assert(after[memory::word_at(frame, 3)] == (top - 16) as u64);
    assert forall|k: int| 0 <= k < 31 implies #[trigger] r.x@[k] == 0 by {
        assert(after[memory::word_at(frame, 5 + k)] == 0);
    }
}

/// What is kept of a context that gives itself up tells exception level and interrupt
/// mask: it goes on at exception level 1 with interrupts kept out, on the stack that it
/// used. No word outside the frame changes.
pub proof fn lemma_context_kept_effect(
    before: Map<u64, u64>,
    after: Map<u64, u64>,
    frame: int,
    context: Context,
    slot: u64,
    r: Resumed,
)
    requires
        context.wf(),
        context::context_kept(before, after, frame, context),
        context::is_resumed(after, frame, slot, r),
    ensures
        context.spsel == 0 ==> r.spsr == 0x3c4 && r.sp_el0 == Some(context.sp) && r.sp_el1
            == slot,
        context.spsel == 1 ==> r.spsr == 0x3c5 && r.sp_el0 is None && r.sp_el1 == context.sp,
        r.pc == context.x@[30],
        r.tpidr_el0 == context.tpidr_el0,
        r.x@ == context.x@,
        forall|a: u64| a < frame || a >= frame + 36 * 8 ==> #[trigger] after[a] == before[a],
        after.dom() == before.dom(),
{
    context::lemma_switch_roundtrip(before, after, after, frame, context, slot, r);
    assert(0x3c4u64 | 0 == 0x3c4) by (bit_vector);
    assert(0x3c4u64 | 1 == 0x3c5) by (bit_vector);
    assert(after[memory::word_at(frame, 0)] == context.spsel);
}

/// Whether `i` is the first slot that belongs to nobody.
pub open spec fn is_first_unowned(owners: Seq<i32>, i: int) -> bool {
    &&& 0 <= i < owners.len()
    &&& owners[i] == -1
    &&& forall|j: int| 0 <= j < i ==> #[trigger] owners[j] != -1
}

/// Each of the first four cores has slots of its own: taking or freeing one core's
/// slots leaves those of the other cores as they are. Slot `i` of a core ends
/// 0x10000 bytes above its start, and slots lie 0x11000 bytes apart, three per core.
pub proof fn lemma_slots_of_cores(pool: SlotPool, core: u32, owners: Seq<i32>, after: SlotPool)
    requires
        pool.wf(),
        pool.changed(core, owners, &after),
    ensures
        after.base() == pool.base(),
        after.owners(core) == owners,
        forall|other: u32|
            other < 4 && core < 4 && other != core ==> #[trigger] after.owners(other)
                == pool.owners(other),
        slot_pool::spec_slot_top(pool.base(), 0, 0) == pool.base() + 0x1_0000,
        slot_pool::spec_slot_top(pool.base(), core, 1) == slot_pool::spec_slot_top(
            pool.base(),
            core,
            0,
        ) + 0x1_1000,
        slot_pool::spec_slot_top(pool.base(), core, 2) == slot_pool::spec_slot_top(
            pool.base(),
            core,
            1,
        ) + 0x1_1000,
        core < u32::MAX ==> slot_pool::spec_slot_top(pool.base(), (core + 1) as u32, 0)
            == slot_pool::spec_slot_top(pool.base(), core, 2) + 0x1_1000,
{
}

/// A task that takes a slot gets the first one that belongs to nobody and owns it from
/// then on. Its frame lies at the slot's top and holds what it held before; it is in
/// its slot, and nothing else about it changes. Without such a slot nothing happens.
pub proof fn lemma_acquire_effect(
    pool: SlotPool,
    core: u32,
    task: Task,
    words: Map<u64, u64>,
    r: bool,
    pool_after: SlotPool,
    task_after: Task,
    words_after: Map<u64, u64>,
)
    requires
        pool.wf(),
        pool.core_fits(core),
        pool.frames_mapped(core, words),
        memory::frame_mapped(words, task.last_stack_pointer as int),
        slot_pool::acquired(pool, core, task, words, r, pool_after, task_after, words_after),
    ensures
        r == exists|i: int| is_first_unowned(pool.owners(core), i),
        !r ==> task_after == task && words_after == words && pool_after.owners(core)
            == pool.owners(core),
        r ==> exists|i: int| #[trigger]
            is_first_unowned(pool.owners(core), i) && {
                let frame = pool.base() + core * 0x3_3000 + i * 0x1_1000 + 0x1_0000 - 288;
                &&& pool_after.owners(core) == pool.owners(core).update(i, task.id.0)
                &&& task_after.slot == Some(i as usize)
                &&& task_after.frame_location == FrameLocation::InSlot
                &&& task_after.last_stack_pointer == frame
                &&& !task_after.wake_pending
                &&& task_after.id == task.id
                &&& task_after.status == task.status
                &&& task_after.prio == task.prio
                &&& task_after.stacks == task.stacks
                &&& task_after.tls == task.tls
                &&& task_after.user_stack_pointer == task.user_stack_pointer
                &&& words_after.dom() == words.dom()
                &&& memory::disjoint(task.last_stack_pointer as int, 36, frame, 36)
                    ==> forall|w: int|
                    0 <= w < 36 ==> words_after[#[trigger] memory::word_at(frame, w)]
                        == words[memory::word_at(task.last_stack_pointer as int, w)]
                &&& forall|a: u64|
                    a < frame || a >= frame + 288 ==> #[trigger] words_after[a] == words[a]
            },
{
    let owners = pool.owners(core);
    let i = slot_pool::first_free(owners);
    slot_pool::lemma_first_free(owners);
    if r {
        let frame = slot_pool::slot_frame(pool.base(), core, i);
        assert(is_first_unowned(owners, i));
        let src = task.last_stack_pointer as int;
        assert(memory::frame_mapped(words, frame));
        memory::lemma_copied_dom(words, src, frame, 36);
        if memory::disjoint(src, 36, frame, 36) {
            assert forall|w: int| 0 <= w < 36 implies words_after[#[trigger] memory::word_at(
                frame,
                w,
            )] == words[memory::word_at(src, w)] by {
                memory::lemma_copied_words(words, src, frame, 36, w);
            }
        }
        assert forall|a: u64| a < frame || a >= frame + 288 implies #[trigger] words_after[a]
            == words[a] by {
            memory::lemma_copied_elsewhere(words, src, frame, 36, a);
        }
    } else {
        assert forall|k: int| !is_first_unowned(owners, k) by {}
    }
}

/// An evicted task has no slot: its frame lies below the marker at the top of its
/// kernel stack. It stays what it was otherwise.
pub proof fn lemma_evicted_effect(task: Task)
    requires
        task.stacks.wf(),
    ensures
        ({
            let e = slot_pool::evicted(task);
            &&& e.slot is None
            &&& e.frame_location == FrameLocation::Evicted
            &&& !e.wake_pending
            &&& e.last_stack_pointer + 288 + 16 == task.stacks.kernel_stack()
                + task.stacks.kernel_stack_size()
            &&& e.id == task.id
            &&& e.status == task.status
            &&& e.prio == task.prio
            &&& e.stacks == task.stacks
            &&& e.tls == task.tls
            &&& e.user_stack_pointer == task.user_stack_pointer
            &&& e.last_touch == task.last_touch
        }),
{
}

/// The stack that a core booted on is a kernel stack of 0x8000 bytes without a user
/// stack. Allocated stacks are laid out from low to high: a guard page, the kernel
/// stack, a guard page, the user stack and a guard page, which ends the region. The
/// stacks share no address.
pub proof fn lemma_stack_layout(stacks: TaskStacks)
    requires
        stacks.wf(),
    ensures
        stacks matches TaskStacks::Boot(b) ==> stacks.kernel_stack() == b.stack
            && stacks.kernel_stack_size() == 0x8000 && stacks.user_stack_size() == 0
            && stacks.user_stack() == 0,
        stacks matches TaskStacks::Common(s) ==> {
            &&& stacks.kernel_stack() == s.virt_addr + 0x1000
            &&& stacks.user_stack() == stacks.kernel_stack() + stacks.kernel_stack_size() + 0x1000
            &&& stacks.user_stack() + stacks.user_stack_size() + 0x1000 == s.virt_addr
                + s.total_size + 0x3000
            &&& stacks.kernel_stack_size() == 0x2_0000
            &&& stacks.kernel_stack_size() + stacks.user_stack_size() == s.total_size
            &&& stacks.user_stack_size() >= 0x8000
        },
        stacks.kernel_stack_top() == stacks.kernel_stack() + stacks.kernel_stack_size(),
{
}

/// The unused part of a kernel stack tells its own addresses: the word at an address
/// holds the address under the tag, for every aligned address of the lower half.
pub proof fn lemma_sentinel_tells_address(addr: u64)
    requires
        addr % 8 == 0,
        addr < 0x1_0000_0000_0000,
    ensures
        scheduler::sentinel(addr) == 0x5EED_0000_0000_0000 + addr,
{
    assert((0x5EED_0000_0000_0000u64 | (addr & 0x0000_FFFF_FFFF_FFF8u64)) == 0x5EED_0000_0000_0000
        + addr) by (bit_vector)
        requires
            addr % 8 == 0,
            addr < 0x1_0000_0000_0000,
    ;
}

/// As many cores are brought up as possible: at least one, no more than there are, and
/// no more than the image has exception stacks for. Without support for more cores it
/// is one.
pub proof fn lemma_bootable_is_most(processors: Processors, n: int)
    ensures
        processors.bootable() >= 1,
        !processors.smp ==> processors.bootable() == 1,
        processors.bootable() > 1 ==> processors.bootable() <= processors.possible
            && processors.bootable() * 0x2_1000 <= processors.exception_stacks,
        processors.smp && 1 <= n <= processors.possible && n * 0x2_1000
            <= processors.exception_stacks ==> n <= processors.bootable(),
{
}

/// The pages that are unmapped are those directly above the stacks: for each of the `n`
/// cores one above its exception, interrupt, overflow, task, reactor and idle stack, and
/// one above each of its three exception slots. No other page is unmapped.
pub proof fn lemma_guards_are_above_stacks(sections: StackSections, n: int, j: int)
    requires
        sections.fit(n),
        0 <= j < n,
    ensures
        sections.all_guards(n).len() == 9 * n,
        sections.all_guards(n)[j] == sections.exception_stacks + j * 0x2_1000 + 0x2_0000,
        sections.all_guards(n)[n + j] == sections.irq_stacks + j * 0x9000 + 0x8000,
        sections.all_guards(n)[2 * n + j] == sections.overflow_stacks + j * 0x9000 + 0x8000,
        sections.all_guards(n)[3 * n + j] == sections.task_stacks + j * 0x2_1000 + 0x2_0000,
        sections.all_guards(n)[4 * n + j] == sections.reactor_stacks + j * 0x2_1000 + 0x2_0000,
        sections.all_guards(n)[5 * n + j] == sections.idle_stacks + j * 0x9000 + 0x8000,
        forall|k: int|
            0 <= k < 3 * n ==> #[trigger] sections.all_guards(n)[6 * n + k]
                == sections.exception_slots + k * 0x1_1000 + 0x1_0000,
{
    assert(crate::addr::canonical(super::guard_addr(sections.exception_stacks as int, 0x20000, j)));
    assert(crate::addr::canonical(super::guard_addr(sections.irq_stacks as int, 0x8000, j)));
    assert(crate::addr::canonical(super::guard_addr(sections.overflow_stacks as int, 0x8000, j)));
    assert(crate::addr::canonical(super::guard_addr(sections.task_stacks as int, 0x20000, j)));
    assert(crate::addr::canonical(super::guard_addr(sections.reactor_stacks as int, 0x20000, j)));
    assert(crate::addr::canonical(super::guard_addr(sections.idle_stacks as int, 0x8000, j)));
    assert forall|k: int| 0 <= k < 3 * n implies #[trigger] sections.all_guards(n)[6 * n + k]
        == sections.exception_slots + k * 0x1_1000 + 0x1_0000 by {
        assert(crate::addr::canonical(
            super::guard_addr(sections.exception_slots as int, 0x10000, k),
        ));
    }
}

/// Where a step of setting up the core that boots stands among all of them.
pub open spec fn step_rank(step: ProcessorStep) -> int {
    match step {
        ProcessorStep::Configure => 0,
        ProcessorStep::InitMemory => 1,
        ProcessorStep::PrintMemory => 2,
        ProcessorStep::ProtectStackGuards => 3,
        ProcessorStep::AddIrqCounter => 4,
        ProcessorStep::InitInterrupts => 5,
        ProcessorStep::DetectFrequency => 6,
        ProcessorStep::SetLogTime => 7,
        ProcessorStep::PrintProcessor => 8,
        ProcessorStep::InitSystemTime => 9,
        ProcessorStep::InitPci => 10,
        ProcessorStep::Finish => 11,
        ProcessorStep::ReleaseCores => 12,
    }
}

/// Every step of setting up the core that boots comes, each once and in its order;
/// devices are looked for only where there is support for them.
pub proof fn lemma_processor_steps_in_order(pci: bool, step: ProcessorStep)
    ensures
        super::processor_steps(pci).contains(step) == (!(step is InitPci) || pci),
        forall|i: int, j: int|
            0 <= i < j < super::processor_steps(pci).len() ==> step_rank(
                #[trigger] super::processor_steps(pci)[i],
            ) < step_rank(#[trigger] super::processor_steps(pci)[j]),
{
    let steps = super::processor_steps(pci);
    if !(step is InitPci) || pci {
        let r = step_rank(step);
        let i = if r > 10 && !pci {
            r - 1
        } else {
            r
        };
        assert(steps[i] == step);
    }
}

/// Core `i + 1` is woken by call `i`, through the conduit, the firmware function and the
/// entry that were given, and waited for before the next one; core 0 is not woken.
pub proof fn lemma_wake_calls_effect(conduit: Conduit, cpu_on: u32, entry: u64, n: u32, i: int)
    requires
        0 <= i < n - 1,
    ensures
        ({
            let calls = super::wake_calls(conduit, cpu_on, entry, n as int);
            &&& calls.len() == n - 1
            &&& calls[i].cpu_id == i + 1
            &&& calls[i].wait_for == calls[i].cpu_id + 1
            &&& calls[i].conduit == conduit
            &&& calls[i].cpu_on == cpu_on
            &&& calls[i].entry == entry
        }),
{
}

/// The firmware is called by the hypervisor call if the method reads `hvc`, by the
/// monitor call if it reads `smc`, and not at all otherwise.
pub proof fn lemma_conduit_effect(method: Seq<u8>)
    ensures
        super::conduit_of(method) == Some(Conduit::Hvc) <==> method.len() == 3 && method[0] == 0x68
            && method[1] == 0x76 && method[2] == 0x63,
        super::conduit_of(method) == Some(Conduit::Smc) <==> method.len() == 3 && method[0] == 0x73
            && method[1] == 0x6d && method[2] == 0x63,
{
    if method.len() == 3 && method[0] == 0x68 && method[1] == 0x76 && method[2] == 0x63 {
        assert(method =~= seq![104u8, 118, 99]);
    }
    if method.len() == 3 && method[0] == 0x73 && method[1] == 0x6d && method[2] == 0x63 {
        assert(method =~= seq![115u8, 109, 99]);
    }
}

/// How cores are woken is read from the properties `cpu_on` and `method` of the node
/// `/psci`.
pub proof fn lemma_wake_from_tree(dtb: Seq<u8>, n: int)
    ensures
        super::cpu_on_of(dtb) == Some(n) ==> n <= u32::MAX && crate::device_tree::node_found(
            dtb,
            "/psci"@,
        ) && crate::device_tree::node_property(dtb, "/psci"@, "cpu_on"@) is Some
            && crate::device_tree::number_of(
            crate::device_tree::node_property(dtb, "/psci"@, "cpu_on"@)->0,
        ) == Some(n),
        super::tree_conduit(dtb) is Some ==> crate::device_tree::node_property(
            dtb,
            "/psci"@,
            "method"@,
        ) is Some && super::tree_conduit(dtb) == super::conduit_of(
            crate::device_tree::trimmed(
                crate::device_tree::node_property(dtb, "/psci"@, "method"@)->0,
            ),
        ),
{
}

/// The exception stacks lie one after the other, each of 0x20000 bytes below a guard
/// page: that of core 0 first.
pub proof fn lemma_exception_stack_places(base: int, core: int)
    ensures
        core_local::exception_stack_top(base, 0) == base + 0x2_0000,
        core_local::exception_stack_top(base, core + 1) == core_local::exception_stack_top(
            base,
            core,
        ) + 0x1000 + 0x2_0000,
{
}

/// A core is told from another by the low byte of its affinity register, and its entry
/// stack by the low six bits. The boot stack is noted once: one that is noted stays.
pub proof fn lemma_entry_effect(exception_stacks: int, a: u64, b: u64, stack: u64, sp: u64)
    ensures
        start::affinity(a) == a & 0xff,
        a & 0xff == b & 0xff ==> start::affinity(a) == start::affinity(b),
        a & 0x3f == b & 0x3f ==> start::entry_stack_top(exception_stacks, a)
            == start::entry_stack_top(exception_stacks, b),
        start::entry_stack_top(exception_stacks, a) == exception_stacks + (a & 0x3f) * 0x2_1000
            + 0x2_0000,
        start::noted_stack(0, sp) == sp,
        stack != 0 ==> start::noted_stack(stack, sp) == stack,
{
    assert(a & 0xff == a % 256) by (bit_vector);
    assert(b & 0xff == b % 256) by (bit_vector);
    assert(a & 0x3f == a % 64) by (bit_vector);
    assert(b & 0x3f == b % 64) by (bit_vector);
}

/// What is given back of dropped stacks is the whole region, guard pages and all, and the whole
/// memory behind it: as many bytes as are allocated for stacks of that size. The stack that the
/// core booted on is kept.
pub proof fn lemma_release_effect(stacks: TaskStacks, size: usize, r: Option<StackRelease>, l: (usize, usize))
    requires
        stacks.wf(),
        stacks::size_fits(size as int),
        call_ensures(TaskStacks::release, (&stacks,), r),
        call_ensures(TaskStacks::layout, (size,), l),
    ensures
        r is None <==> stacks is Boot,
        stacks matches TaskStacks::Common(s) ==> (r matches Some(back) && {
            &&& back.unmap_start == s.virt_addr
            &&& back.pages.0 == s.virt_addr
            &&& back.pages.1 - back.pages.0 == s.total_size + 0x3000
            &&& back.unmap_pages * 4096 == back.pages.1 - back.pages.0
            &&& back.frames.0 == s.phys_addr
            &&& back.frames.1 - back.frames.0 == s.total_size
        }),
        l.0 == l.1 + 0x3000,
        l.1 % 4096 == 0,
        l.1 >= size + 0x2_0000,
        l.1 >= 0x2_8000,
        size >= 0x8000 ==> l.1 < size + 0x2_0000 + 0x1000,
        size < 0x8000 ==> l.1 == 0x2_8000,
{
}

/// At the kernel's entry point core 0 boots, on the exception stack that is its own; any other
/// core goes on once the cores are released.
pub proof fn lemma_start_effect(
    mpidr: u64,
    released: bool,
    noted: u64,
    sp: u64,
    stacks: u64,
    r: EntryStep,
)
    requires
        stacks + 64 * 0x21000 <= u64::MAX,
        call_ensures(start::_start, (mpidr, released, noted, sp, stacks), r),
    ensures
        mpidr % 256 != 0 ==> r is Park || r is Join,
        r is Park <==> mpidr % 256 != 0 && !released,
        r matches EntryStep::Boot { current_stack, sp_el1 } ==> {
            &&& mpidr % 256 == 0
            &&& sp_el1 == stacks + 0x2_0000
            &&& noted == 0 ==> current_stack == sp
            &&& noted != 0 ==> current_stack == noted
        },
{
}

/// What the entry code of another core sets.
pub proof fn lemma_smp_start_effect(
    mpidr: u64,
    mmfr0: u64,
    big_endian: bool,
    noted: u64,
    sp: u64,
    stacks: u64,
    r: CoreSetup,
)
    requires
        stacks + 64 * 0x21000 <= u64::MAX,
        call_ensures(start::smp_start, (mpidr, mmfr0, big_endian, noted, sp, stacks), r),
    ensures
        r.cpu_id == mpidr % 256,
        r.mair == 0xff_440c_0400,
        r.tcr % 0x1_0000_0000 == 0x3510_3510,
        r.tcr / 0x1_0000_0000 == mmfr0 % 16,
        r.cpacr == 0x30_0000,
        !big_endian ==> r.sctlr == 0x0405_d01d,
        big_endian ==> r.sctlr == 0x0705_d01d,
        noted == 0 ==> r.current_stack == sp,
        noted != 0 ==> r.current_stack == noted,
        r.sp_el1 == stacks + (mpidr % 64) * 0x2_1000 + 0x2_0000,
{
}

/// The number of cores is at least one, and one without support for more.
pub proof fn lemma_core_counts(p: Processors, detected: u32, online: u32, boot: u32)
    requires
        call_ensures(super::detected_cores, (&p,), detected),
        call_ensures(super::get_processor_count, (&p,), online),
        call_ensures(super::boot_core_count, (&p,), boot),
    ensures
        detected >= 1,
        boot >= 1,
        !p.smp ==> detected == 1 && online == 1 && boot == 1,
        p.smp ==> online == p.online,
        p.smp && p.possible >= 1 ==> detected == p.possible,
        boot <= detected,
{
}

/// A function that runs on the kernel stack starts at the running task's kernel stack pointer,
/// and behind it the stack is the one before, which is the exception slot again.
pub proof fn lemma_kernel_call_effect(core: CoreLocal, sp: u64, call: KernelCall, after: &mut CoreLocal, r: u64)
    requires
        core.kernel_sp != 0,
        call_ensures(kernel_stack::enter_kernel_stack, (&core, sp), call),
        call_ensures(kernel_stack::leave_kernel_stack, (after, call), r),
    ensures
        call.sp == core.kernel_sp,
        r == sp,
        final(after).scratch_slot == sp,
        final(after).kernel_sp == old(after).kernel_sp,
        final(after).exception_sp == old(after).exception_sp,
        final(after).core_id == old(after).core_id,
{
}

/// The stack of core `n` begins `n` stacks of 0x8000 bytes with a guard page each above that of
/// the core that boots.
pub proof fn lemma_core_stack_effect(p: &mut Processors, core_id: u32)
    requires
        old(p).boot_stack + core_id * 0x9000 <= u64::MAX,
        call_ensures(super::finish_processor_init, (p, core_id), ()),
    ensures
        final(p).current_stack == old(p).boot_stack + core_id * (0x8000 + 0x1000),
        final(p).boot_stack == old(p).boot_stack,
        final(p).online == old(p).online,
        final(p).possible == old(p).possible,
{
}

/// The trial of continuations begins once, on core 0 and not before the drivers are ready. It
/// passes if it goes on for the first time, with its own thread pointer and slot.
pub proof fn lemma_trial_effect(
    c: &mut Continuations,
    core_id: u32,
    ready: bool,
    starts: bool,
    d: &mut Continuations,
    tls: u64,
    slot: u64,
    expected: u64,
    passed: bool,
)
    requires
        call_ensures(Continuations::continuation_maybe_trigger, (c, core_id, ready), starts),
        old(d).resumes < u32::MAX,
        call_ensures(Continuations::harness_passed, (d, tls, slot, expected), passed),
    ensures
        starts <==> core_id == 0 && ready && !old(c).spawned,
        starts ==> final(c).spawned,
        old(c).spawned ==> final(c).spawned,
        passed <==> tls == 0xC0DE_C7E7 && slot == expected && old(d).resumes == 0,
        final(d).resumes == old(d).resumes + 1,
{
}

/// Parking, waking and resuming the continuations of a core: a continuation that parks gives the
/// core back to whoever resumed it, asking by interrupt 11 to be woken if it is to go on; waking
/// makes the one that waits ready; resuming goes to its frame and its slot.
pub proof fn lemma_cont_results(
    a: &mut Continuations,
    parked: Parked,
    b: &mut Continuations,
    c: &mut Continuations,
    frame: u64,
    slot: u64,
    to: Option<ContSwitch>,
)
    requires
        old(a).wf(),
        old(a).current is Some,
        call_ensures(Continuations::park_on, (a,), parked),
        old(b).wf(),
        call_ensures(Continuations::coop_wake, (b,), ()),
        old(c).wf(),
        call_ensures(Continuations::drain_ready, (c, frame, slot), to),
    ensures
        ({
            let i = old(a).current->0 as int;
            let me = old(a).conts@[i];
            &&& parked is Woken <==> me.pending_wake
            &&& parked is Woken ==> final(a).current == old(a).current
            &&& parked matches Parked::Switch { switch, sgi } ==> {
                &&& switch.save == me.state_frame
                &&& switch.target == me.resumer_frame
                &&& switch.cur == me.resumer_frame
                &&& switch.target_slot == me.resumer_slot
                &&& sgi == Some(0x0b00_0001u64)
                &&& final(a).conts@[i].state == ContState::Parked
                &&& final(a).current is None
                &&& final(a).pending == old(a).current
            }
        }),
        old(b).pending matches Some(p) ==> final(b).conts@[p as int].state == ContState::Ready
            && final(b).conts@[p as int].pending_wake,
        final(b).pending == old(b).pending,
        final(b).current == old(b).current,
        to is Some <==> (old(c).pending matches Some(p) && old(c).conts@[p as int].state
            == ContState::Ready),
        to matches Some(switch) ==> {
            let p = old(c).pending->0 as int;
            let next = old(c).conts@[p];
            &&& switch.save == frame
            &&& switch.target == next.state_frame
            &&& switch.cur == next.state_frame
            &&& switch.target_slot == next.slot_top
            &&& final(c).current == old(c).pending
            &&& final(c).pending is None
            &&& final(c).conts@[p].state == ContState::Running
            &&& final(c).conts@[p].resumer_frame == frame
            &&& final(c).conts@[p].resumer_slot == slot
        },
{
    lemma_park_effect(old(a)@, true);
    lemma_cont_wake_effect(old(b)@);
    lemma_resume_effect(old(c)@, frame, slot);
    assert(((11u64 << 24u64) | (1u64 << 0u64)) == 0x0b00_0001) by (bit_vector);
    assert(final(a)@.conts == final(a).conts@ && final(b)@.conts == final(b).conts@
        && final(c)@.conts == final(c).conts@);
    assert(final(a)@.current == final(a).current && final(a)@.pending == final(a).pending);
    assert(final(b)@.current == final(b).current && final(b)@.pending == final(b).pending);
    assert(final(c)@.current == final(c).current && final(c)@.pending == final(c).pending);
}

/// A switch of contexts keeps what ran in its frame, so that it can go on where its link register
/// points to, takes the other one's slot for the core, and changes no word outside the frame.
pub proof fn lemma_cont_switch_result(
    core: &mut CoreLocal,
    m: &mut Memory,
    switch: ContSwitch,
    context: Context,
    r: Resumed,
)
    requires
        old(m).wf(),
        context.wf(),
        call_ensures(context::cont_switch, (core, m, &switch, &context), r),
    ensures
        final(core).scratch_slot == switch.target_slot,
        final(core).kernel_sp == old(core).kernel_sp,
        final(m)@[memory::word_at(switch.save as int, 1)] == context.x@[30],
        final(m)@[memory::word_at(switch.save as int, 3)] == context.sp,
        final(m)@[memory::word_at(switch.save as int, 4)] == context.tpidr_el0,
        forall|k: int|
            0 <= k < 31 ==> final(m)@[#[trigger] memory::word_at(switch.save as int, 5 + k)]
                == context.x@[k],
        forall|a: u64|
            a < switch.save || a >= switch.save + 288 ==> #[trigger] final(m)@[a] == old(m)@[a],
        r.pc == final(m)@[memory::word_at(switch.target as int, 1)],
        r.spsr == final(m)@[memory::word_at(switch.target as int, 2)],
        r.tpidr_el0 == final(m)@[memory::word_at(switch.target as int, 4)],
        r.x@.len() == 31,
{
    let save = switch.save as int;
    assert forall|w: int| 0 <= w < 36 implies final(m)@[#[trigger] memory::word_at(save, w)]
        == context::kept_word(context, w) by {}
}

/// A task that takes a slot owns the first free one from then on, with its frame at the slot's
/// top; an evicted one gives its slot back and has its frame on its kernel stack.
pub proof fn lemma_slot_results(
    a: &mut SlotPool,
    core: u32,
    t: &mut Task,
    m: &mut Memory,
    r: bool,
    b: &mut SlotPool,
    v: &mut Task,
    i: usize,
    n: &mut Memory,
    woken: bool,
)
    requires
        old(a).wf(),
        old(a).core_fits(core),
        old(m).wf(),
        old(a).frames_mapped(core, old(m)@),
        memory::frame_mapped(old(m)@, old(t).last_stack_pointer as int),
        call_ensures(SlotPool::dispatch_acquire_slot, (a, core, t, m), r),
        old(b).wf(),
        old(b).core_fits(core),
        i < 3,
        old(v).stacks.wf(),
        call_ensures(SlotPool::evict_victim, (b, core, v, i, n), woken),
    ensures
        r <==> exists|k: int| 0 <= k < 3 && #[trigger] old(a).owners(core)[k] == -1,
        r ==> (final(t).slot matches Some(k) && k < 3 && old(a).owners(core)[k as int] == -1
            && final(a).owners(core)[k as int] == old(t).id.0 && final(t).last_stack_pointer
            == old(a).base() + core * 0x3_3000 + k * 0x1_1000 + 0x1_0000 - 288),
        !r ==> *final(t) == *old(t) && final(m)@ == old(m)@,
        final(b).owners(core)[i as int] == -1,
        final(v).slot is None,
        final(v).frame_location == FrameLocation::Evicted,
        final(v).last_stack_pointer + 304 == old(v).stacks.kernel_stack()
            + old(v).stacks.kernel_stack_size(),
        woken == old(v).wake_pending,
{
    lemma_acquire_effect(
        *old(a),
        core,
        *old(t),
        old(m)@,
        r,
        *final(a),
        *final(t),
        final(m)@,
    );
    lemma_evicted_effect(*old(v));
    let owners = old(a).owners(core);
    slot_pool::lemma_first_free(owners);
    lemma_slots_of_cores(
        *old(b),
        core,
        old(b).owners(core).update(i as int, slot_pool::FREE),
        *final(b),
    );
    if r {
        let k = choose|k: int| is_first_unowned(owners, k) && final(t).slot == Some(k as usize)
            && final(a).owners(core) == owners.update(k, old(t).id.0);
        assert(owners[slot_pool::first_free(owners)] == -1);
    }
}

/// The plan that guards the stacks maps the exception slots if there are any, with as many whole
/// pages as they need, and unmaps nine pages per core.
pub proof fn lemma_guard_plan_result(p: Processors, sections: StackSections, r: GuardPlan, j: int)
    requires
        sections.fit(p.bootable()),
        0 <= j < p.bootable(),
        call_ensures(super::protect_stack_guards, (&p, &sections), r),
    ensures
        r.map is Some <==> sections.exception_slots < sections.exception_slots_end,
        r.map matches Some((start, pages)) ==> start == sections.exception_slots && (pages - 1)
            * 4096 < sections.exception_slots_end - sections.exception_slots <= pages * 4096,
        r.unmap@.len() == 9 * p.bootable(),
        r.unmap@[j] == sections.exception_stacks + j * 0x2_1000 + 0x2_0000,
        r.unmap@[3 * p.bootable() + j] == sections.task_stacks + j * 0x2_1000 + 0x2_0000,
{
    lemma_guards_are_above_stacks(sections, p.bootable(), j);
}

/// The first core brings up the others unless the hypervisor does; every core that comes by is
/// counted as online.
pub proof fn lemma_boot_next_result(
    p: &mut Processors,
    hypervisor: bool,
    dtb: &[u8],
    entry: u64,
    r: NextProcessor,
    i: int,
)
    requires
        call_ensures(super::boot_next_processor, (p, hypervisor, dtb, entry), r),
    ensures
        old(p).online < u32::MAX ==> final(p).online == old(p).online + 1,
        hypervisor || old(p).online > 0 || old(p).bootable() <= 1 <==> r is Done,
        r matches NextProcessor::Wake(calls) ==> {
            &&& calls@.len() == old(p).bootable() - 1
            &&& 0 <= i < calls@.len() ==> calls@[i].cpu_id == i + 1 && calls@[i].entry == entry
                && calls@[i].wait_for == i + 2
        },
{
}

} // verus!
