//! What handling interrupts and exceptions does, in terms of numbers, registers and
//! counters.

use vstd::prelude::*;

use crate::arch::aarch64::kernel::core_local::CoreLocal;
use crate::arch::aarch64::kernel::interrupts::double_fault::DfAction;
use crate::arch::aarch64::kernel::interrupts::fault_report::SlotPlace;
use crate::arch::aarch64::kernel::interrupts::frame_dump::{FrameDump, FrameDumps};
use crate::arch::aarch64::kernel::interrupts::handlers::{Features, Handler, InterruptHandlers};
use crate::arch::aarch64::kernel::interrupts::ids::{IrqKind, SGI_RESCHED};
use crate::arch::aarch64::kernel::interrupts::irq::{
    EndOfInterrupt, IrqEnd, IrqEntry, IrqStart,
};
use crate::arch::aarch64::kernel::interrupts::pmr::{
    BandHarness, CoopBand, CoopNetHarness, CoopNetStep, CoopWakeup, PriorityMask, SpikeStep,
};
use crate::arch::aarch64::kernel::interrupts::sync::{
    FatalAction, SlotFault, SyncAction, SyncOutcome, SyncRegs,
};
use crate::arch::aarch64::kernel::interrupts::{
    double_fault, fault_report, frame_dump, handlers, ids, irq, pmr, statistics, sync, syndrome,
};
use crate::diagnostics::{self, FrameNote};
use crate::memory::Memory;
use crate::scheduler::per_core::{Machine, PerCoreScheduler};
use crate::scheduler::state::CoreState;
use crate::scheduler::task::{FpuState, FrameLocation, TaskId};

verus! {

/// Whether the core keeps its stacks, its slot and its number.
pub open spec fn stacks_kept(a: CoreLocal, b: CoreLocal) -> bool {
    &&& a.exception_sp == b.exception_sp
    &&& a.kernel_sp == b.kernel_sp
    &&& a.scratch_slot == b.scratch_slot
    &&& a.core_id == b.core_id
}

/// An interrupt that is taken is counted once under its own number, and no other
/// counter changes. Where interrupts nest, one more is being handled; where they end in
/// two steps, one more is to be ended. The core keeps its stacks.
pub proof fn lemma_taken_effect(before: CoreLocal, after: CoreLocal, vector: u8, features: Features)
    requires
        before.wf(),
        irq::can_enter(before, features),
        irq::counted(before, after, vector, features),
    ensures
        stacks_kept(before, after),
        after.irq_statistics@.len() == 256,
        before.irq_statistics@[vector as int] < u64::MAX ==> after.irq_statistics@[vector as int]
            == before.irq_statistics@[vector as int] + 1,
        before.irq_statistics@[vector as int] == u64::MAX ==> after.irq_statistics@[vector as int]
            == 0,
        forall|k: int|
            0 <= k < 256 && k != vector ==> #[trigger] after.irq_statistics@[k]
                == before.irq_statistics@[k],
        features.pmr_band ==> after.in_irq && after.rt_nest_depth == before.rt_nest_depth + 1,
        !features.pmr_band ==> after.in_irq == before.in_irq && after.rt_nest_depth
            == before.rt_nest_depth,
        features.pmr_coop_net ==> after.eoi_inflight == before.eoi_inflight + 1,
        !features.pmr_coop_net ==> after.eoi_inflight == before.eoi_inflight,
{
}

/// An interrupt that is done undoes what taking it did to the counters of nested and of
/// pending interrupts. How often interrupts came stays, and so do the stacks.
pub proof fn lemma_done_effect(core: CoreLocal, features: Features)
    requires
        irq::can_leave(core, features),
    ensures
        ({
            let after = irq::core_left(core, features);
            &&& stacks_kept(core, after)
            &&& after.irq_statistics == core.irq_statistics
            &&& features.pmr_band ==> !after.in_irq && after.rt_nest_depth + 1
                == core.rt_nest_depth
            &&& !features.pmr_band ==> after.in_irq == core.in_irq && after.rt_nest_depth
                == core.rt_nest_depth
            &&& features.pmr_coop_net ==> after.eoi_inflight + 1 == core.eoi_inflight
            &&& !features.pmr_coop_net ==> after.eoi_inflight == core.eoi_inflight
        }),
        !features.pmr_band ==> irq::depth_left(core.rt_nest_depth, features)
            == core.rt_nest_depth,
        features.pmr_band ==> irq::depth_left(core.rt_nest_depth, features)
            == core.rt_nest_depth - 1,
{
}

/// An interrupt ends under its own number, in two steps exactly where the network runs
/// in the cooperative band.
pub proof fn lemma_end_is_own(intid: u32, features: Features)
    ensures
        irq::end_of(intid, features) == (EndOfInterrupt::Split { intid })
            <==> features.pmr_coop_net,
        irq::end_of(intid, features) == (EndOfInterrupt::Combined { intid })
            <==> !features.pmr_coop_net,
{
}

/// Without an acknowledged interrupt nothing happens. The test interrupts, 14 and 15 where
/// the test is built in, have no handlers and are not counted. Any other one is counted,
/// and the handlers of its own number run, all of them and in their order.
pub proof fn lemma_irq_start_effect(
    before: CoreLocal,
    acked: Option<u32>,
    handlers: Option<&InterruptHandlers>,
    features: Features,
    start: IrqStart,
    after: CoreLocal,
)
    requires
        before.wf(),
        acked matches Some(n) ==> n <= 255,
        irq::can_enter(before, features),
        irq::irq_started(before, acked, handlers, features, start, after),
    ensures
        acked is None ==> start is Spurious && after == before,
        acked is Some ==> !(start is Spurious),
        start is Test <==> features.pmr_preempt_spike && (acked == Some(14u32) || acked == Some(
            15u32,
        )),
        start matches IrqStart::Test { vector } ==> acked == Some(vector as u32)
            && after.irq_statistics == before.irq_statistics && stacks_kept(before, after),
        start matches IrqStart::Handle { vector, handlers: run } ==> {
            &&& acked == Some(vector as u32)
            &&& irq::counted(before, after, vector, features)
            &&& handlers is None ==> run@.len() == 0
            &&& handlers matches Some(h) ==> {
                &&& h@.contains_key(vector) ==> run@ == h@[vector]
                &&& !h@.contains_key(vector) ==> run@.len() == 0
            }
        },
{
}

/// Once an interrupt was handled, those whose time has elapsed are awake; the scheduler
/// runs after them, and only if no other interrupt is being handled.
pub proof fn lemma_interrupted_effect(c: CoreState, time: u64, now: u64)
    ensures
        irq::interrupted(c, time, now, false) == crate::scheduler::wake::elapsed_woken(c, time),
        irq::interrupted(c, time, now, true) == crate::scheduler::state::scheduled(
            crate::scheduler::wake::elapsed_woken(c, time),
            now,
        ),
{
}

/// The handlers that drivers have for interrupt `k`: those of the last entry with its
/// number, counted from 32 on.
pub proof fn lemma_driver_handlers(old: Seq<(u8, Vec<u64>)>, k: u8, i: int)
    requires
        forall|j: int| 0 <= j < old.len() ==> (#[trigger] old[j]).0 + 32 <= 255,
    ensures
        handlers::driver_handlers(old).contains_key(k) <==> exists|j: int|
            0 <= j < old.len() && (#[trigger] old[j]).0 + 32 == k,
        0 <= i < old.len() && old[i].0 + 32 == k && (forall|j: int|
            i < j < old.len() ==> (#[trigger] old[j]).0 + 32 != k)
            ==> handlers::driver_handlers(old)[k] == Seq::new(
            old[i].1@.len(),
            |m: int| Handler::Driver(old[i].1@[m]),
        ),
    decreases old.len(),
{
    if old.len() > 0 {
        let init = old.drop_last();
        assert forall|j: int| 0 <= j < init.len() implies (#[trigger] init[j]).0 + 32 <= 255 by {
            assert(init[j] == old[j]);
        }
        lemma_driver_handlers(init, k, i);
        let last = old.last();
        let key = (last.0 + 32) as u8;
        if last.0 + 32 == k {
            assert(old[old.len() - 1].0 + 32 == k);
            if 0 <= i < old.len() && old[i].0 + 32 == k && (forall|j: int|
                i < j < old.len() ==> (#[trigger] old[j]).0 + 32 != k) {
                assert(i == old.len() - 1);
                assert(last.1@.map_values(|h: u64| Handler::Driver(h)) =~= Seq::new(
                    old[i].1@.len(),
                    |m: int| Handler::Driver(old[i].1@[m]),
                ));
            }
        } else {
            if handlers::driver_handlers(init).contains_key(k) {
                let j = choose|j: int| 0 <= j < init.len() && (#[trigger] init[j]).0 + 32 == k;
                assert(old[j].0 + 32 == k);
            }
            if exists|j: int| 0 <= j < old.len() && (#[trigger] old[j]).0 + 32 == k {
                let j = choose|j: int| 0 <= j < old.len() && (#[trigger] old[j]).0 + 32 == k;
                assert(init[j].0 + 32 == k);
            }
            if 0 <= i < old.len() && old[i].0 + 32 == k && (forall|j: int|
                i < j < old.len() ==> (#[trigger] old[j]).0 + 32 != k) {
                assert(init[i] == old[i]);
                assert forall|j: int| i < j < init.len() implies (#[trigger] init[j]).0 + 32
                    != k by {
                    assert(init[j] == old[j]);
                }
            }
        }
    }
}

/// `[h]` if `yes`, else nothing.
pub open spec fn one_if(yes: bool, h: Handler) -> Seq<Handler> {
    if yes {
        seq![h]
    } else {
        Seq::empty()
    }
}

/// Which handlers interrupt `k` has: first those of drivers, then the timer's if it is the
/// timer's private interrupt, the serial port's if it is its shared one, and those of the
/// optional parts on the software-generated interrupts 13, 12 and 11.
pub proof fn lemma_installed_effect(
    old: Seq<(u8, Vec<u64>)>,
    timer: u32,
    uart: u32,
    features: Features,
    k: u8,
)
    requires
        timer + 16 <= 255,
        uart + 32 <= 255,
    ensures
        ({
            let d = handlers::driver_handlers(old);
            let all = handlers::installed(old, timer, uart, features);
            let own = one_if(k == timer + 16, Handler::Timer) + one_if(
                k == uart + 32,
                Handler::Uart,
            ) + one_if(
                k == 13 && (features.pmr_band || features.pmr_coop_net),
                Handler::CoopWake,
            ) + one_if(k == 12 && features.pmr_band, Handler::RtBridge) + one_if(
                k == 11 && features.continuations,
                Handler::ContWake,
            );
            &&& all.contains_key(k) == (d.contains_key(k) || own.len() > 0)
            &&& d.contains_key(k) ==> all[k] == d[k] + own
            &&& !d.contains_key(k) && own.len() > 0 ==> all[k] == own
        }),
{
    let d = handlers::driver_handlers(old);
    let all = handlers::installed(old, timer, uart, features);
    let own = one_if(k == timer + 16, Handler::Timer) + one_if(k == uart + 32, Handler::Uart)
        + one_if(k == 13 && (features.pmr_band || features.pmr_coop_net), Handler::CoopWake)
        + one_if(k == 12 && features.pmr_band, Handler::RtBridge) + one_if(
        k == 11 && features.continuations,
        Handler::ContWake,
    );
    if d.contains_key(k) {
        assert(all[k] =~= d[k] + own);
    } else if own.len() > 0 {
        assert(all[k] =~= own);
    }
}

/// What to do about a synchronous exception goes by the class in bits 26 to 31 of the
/// syndrome register and, for failed accesses to data, by bit 10.
pub proof fn lemma_kind_by_class(esr: u64)
    ensures
        ({
            let ec = (esr / 0x400_0000) % 64;
            let unknown = (esr / 0x400) % 2 == 1;
            let kind = syndrome::sync_kind(esr);
            &&& syndrome::class_bits(esr) == ec
            &&& kind is PageFault <==> (ec == 0x24 || ec == 0x25) && !unknown
            &&& kind is UnknownAbort <==> (ec == 0x24 || ec == 0x25) && unknown
            &&& kind is DebugTrap <==> ec == 0x3c
            &&& kind is InstructionAbort <==> ec == 0x20 || ec == 0x21
            &&& kind is FloatingPoint <==> ec == 0x07
        }),
{
    assert(((esr >> 26u64) & 0x3f) == (esr / 0x400_0000) % 64) by (bit_vector);
    assert(((esr & 0x1ff_ffff) & 0x400 == 0) == ((esr / 0x400) % 2 == 0)) by (bit_vector);
}

/// An exception that a task took is handled only if its frame lies in the task's own slot
/// and the task is said to be there; one that the kernel took on its own stack always is.
pub proof fn lemma_slot_fault_effect(spsr: u64, sp_el1: u64, scratch: u64, location: FrameLocation)
    ensures
        sync::slot_fault(spsr, sp_el1, scratch, location) is None <==> spsr % 2 == 1 || (sp_el1
            == scratch && location == FrameLocation::InSlot),
        sync::slot_fault(spsr, sp_el1, scratch, location) == Some(SlotFault::WrongStack)
            <==> spsr % 2 == 0 && sp_el1 != scratch,
        sync::slot_fault(spsr, sp_el1, scratch, location) == Some(SlotFault::NotInSlot)
            <==> spsr % 2 == 0 && sp_el1 == scratch && location != FrameLocation::InSlot,
        sync::from_kernel_stack(spsr) <==> spsr % 2 == 1,
{
    assert((spsr & 1 == 1) == (spsr % 2 == 1)) by (bit_vector);
}

/// What is done about a synchronous exception: a failed access to a known address halts, as
/// do a breakpoint, which names its place, and an exception that is not supported, which
/// names its place and address; an access whose address is not known goes on; a failed fetch
/// ends the task. Floating-point registers are loaded for a task that does not own them,
/// with what was saved for it.
pub proof fn lemma_sync_effect(
    scheduler: &PerCoreScheduler,
    machine: &Machine,
    regs: SyncRegs,
    action: SyncAction,
)
    requires
        sync::is_action(scheduler, machine, regs, action),
    ensures
        ({
            let kind = syndrome::sync_kind(regs.esr);
            let current = scheduler.current_task;
            let frame = regs.frame as int;
            let words = machine.memory@;
            &&& kind is PageFault <==> action is HaltPageFault
            &&& kind is UnknownAbort <==> action is Resume
            &&& kind is DebugTrap <==> action is HaltDebugTrap
            &&& kind is InstructionAbort <==> action is EndTask
            &&& kind is FloatingPoint <==> action is LoadFpu
            &&& kind is Unsupported <==> action is HaltUnsupported
            &&& action matches SyncAction::HaltDebugTrap { pc } ==> pc == regs.elr
            &&& action matches SyncAction::HaltUnsupported { pc, far } ==> pc == regs.elr && far
                == regs.far
            &&& action matches SyncAction::LoadFpu { load } ==> {
                &&& current == scheduler.fpu_owner ==> load is None
                &&& current != scheduler.fpu_owner ==> load == Some(
                    scheduler.tasks@[current.0].last_fpu_state,
                )
            }
            &&& action matches SyncAction::HaltPageFault { report } ==> {
                let sp = words[crate::memory::word_at(frame, 3)];
                let top = scheduler.tasks@[current.0].stacks.kernel_stack_top() as u64;
                &&& report.sp_at_far == (sp == regs.far)
                &&& report.sp_at_top == (sp == top)
                &&& report.far_at_top == (regs.far == top)
                &&& regs.elr >= regs.image_start ==> report.link_pc == regs.elr - regs.image_start
                &&& report.to_kernel == (regs.trace.spsr % 16 == 5)
                &&& report.clobbered == (regs.trace.spsr % 16 == 5 && regs.trace.resume_sp
                    != regs.trace.scratch_slot)
                &&& report.place is Some <==> 0x417f_d000 <= regs.far < 0x4184_1000
                &&& report.user_stack is Some <==> report.place is Some && sp != 0 && sp % 8 == 0
                &&& report.user_stack matches Some(stack) ==> stack@.len() == 16 && forall|i: int|
                    0 <= i < 16 ==> #[trigger] stack@[i] == words[crate::memory::word_at(
                        sp as int,
                        i,
                    )]
            }
        }),
{
    let t = regs.trace.spsr;
    assert((t & 0xf) == t % 16) by (bit_vector);
}

/// Floating-point registers that change hands: the running task owns them then, what they
/// held is kept for the task that owned them before, and nothing else changes. A task that
/// owns them keeps them.
pub proof fn lemma_fpu_effect(c: CoreState, live: FpuState)
    requires
        c.tasks.contains_key(c.fpu_owner.0),
    ensures
        ({
            let a = sync::fpu_handed(c, live);
            &&& a.fpu_owner == c.current
            &&& c.current == c.fpu_owner ==> a == c
            &&& a.current == c.current
            &&& a.ready == c.ready
            &&& a.blocked == c.blocked
            &&& a.finished == c.finished
            &&& a.words == c.words
            &&& a.owners == c.owners
            &&& a.kernel_sp == c.kernel_sp
            &&& a.tasks.dom() == c.tasks.dom()
            &&& c.current != c.fpu_owner ==> a.tasks[c.fpu_owner.0].last_fpu_state == live
            &&& a.tasks[c.fpu_owner.0].status == c.tasks[c.fpu_owner.0].status
            &&& a.tasks[c.fpu_owner.0].last_stack_pointer
                == c.tasks[c.fpu_owner.0].last_stack_pointer
            &&& forall|k: i32| k != c.fpu_owner.0 ==> #[trigger] a.tasks[k] == c.tasks[k]
        }),
{
    let a = sync::fpu_handed(c, live);
    assert(a.tasks.dom() =~= c.tasks.dom());
}

/// A double fault ends the task exactly if it came from a task: code 2 or 3.
pub proof fn lemma_double_fault_effect(v: u64)
    ensures
        double_fault::spec_flavor(v).from_task() <==> v == 2 || v == 3,
        v == 0 || v > 3 ==> double_fault::spec_flavor(v) is El1hSync,
        v == 1 ==> double_fault::spec_flavor(v) is El1hError,
        v == 2 ==> double_fault::spec_flavor(v) is El1tSync,
        v == 3 ==> double_fault::spec_flavor(v) is El1tError,
{
}

/// Different interrupts have different numbers: private ones from 16 to 31, shared ones from
/// 32 to 1019.
pub proof fn lemma_irq_ids(a: IrqKind, i: u32, b: IrqKind, j: u32)
    requires
        ids::irq_exists(a, i),
        ids::irq_exists(b, j),
    ensures
        a is Ppi ==> 16 <= ids::irq_id(a, i) < 32,
        a is Spi ==> 32 <= ids::irq_id(a, i) < 1020,
        ids::irq_id(a, i) == ids::irq_id(b, j) ==> a == b && i == j,
        ids::irq_id(IrqKind::Ppi, 0) == 16,
        ids::irq_id(IrqKind::Spi, 0) == 32,
        a is Ppi ==> i < 16,
        a is Spi ==> i < 988,
{
}

/// Every number of an interrupt is that of a private or a shared one: nothing is left out.
pub proof fn lemma_irq_ids_cover(n: u32)
    requires
        16 <= n < 1020,
    ensures
        n < 32 ==> ids::irq_exists(IrqKind::Ppi, (n - 16) as u32) && ids::irq_id(
            IrqKind::Ppi,
            (n - 16) as u32,
        ) == n,
        n >= 32 ==> ids::irq_exists(IrqKind::Spi, (n - 32) as u32) && ids::irq_id(
            IrqKind::Spi,
            (n - 32) as u32,
        ) == n,
{
}

/// Sending interrupt 1 to a core lets its scheduler run. Different cores get different
/// values.
pub proof fn lemma_wakeup_value(a: u32, b: u32)
    requires
        a < 16,
        b < 16,
    ensures
        ids::spec_sgi_value(SGI_RESCHED, a) == 0x100_0000 + (1u64 << (a as u64)),
        ids::spec_sgi_value(SGI_RESCHED, a) == ids::spec_sgi_value(SGI_RESCHED, b) ==> a == b,
{
    let x = a as u64;
    let y = b as u64;
    assert(((1u64 << 24u64) | (1u64 << x)) == 0x100_0000 + (1u64 << x)) by (bit_vector)
        requires
            x < 16,
    ;
    assert((1u64 << x) == (1u64 << y) ==> x == y) by (bit_vector)
        requires
            x < 16,
            y < 16,
    ;
    assert(((1u64 << 24u64) | (1u64 << y)) == 0x100_0000 + (1u64 << y)) by (bit_vector)
        requires
            y < 16,
    ;
}

/// Under a mask come exactly the interrupts of a numerically smaller priority.
pub proof fn lemma_mask_effect(mask: u8, priority: u8)
    ensures
        pmr::admits(mask, priority) <==> priority < mask,
        priority < 0xff ==> pmr::admits(0xff, priority),
{
}

/// Where a fault address lies among the exception slots of the first core, which begin at
/// 0x4180_e000 and follow each other every 0x11000 bytes: below the first one, or in the body
/// or the guard of one of them.
pub proof fn lemma_place_effect(far: u64, place: SlotPlace)
    requires
        fault_report::is_place(far, place),
    ensures
        place.offset == far - 0x4180_e000,
        far < 0x4180_e000 ==> place.underflow && !place.in_guard,
        far >= 0x4180_e000 ==> {
            &&& !place.underflow
            &&& place.slot_idx >= 0
            &&& 0x4180_e000 + place.slot_idx * 0x1_1000 <= far < 0x4180_e000 + (place.slot_idx
                + 1) * 0x1_1000
            &&& place.in_guard <==> far >= 0x4180_e000 + place.slot_idx * 0x1_1000 + 0x1_0000
        },
{
}

/// The words of a window are those at its addresses, every eight bytes.
pub proof fn lemma_window_effect(words: Map<u64, u64>, base: u64, n: int, i: int)
    requires
        0 <= i < n,
        base + 8 * n <= u64::MAX,
    ensures
        fault_report::window(words, base as int, n).len() == n,
        fault_report::window(words, base as int, n)[i] == words[(base + 8 * i) as u64],
{
}

/// The broken sentinels are exactly the words of the window that do not hold their own
/// address under the tag, in ascending order.
pub proof fn lemma_broken_effect(words: Map<u64, u64>, lo: int, n: int, i: int)
    requires
        0 <= i < n,
        0 <= lo,
        lo + 8 * n <= u64::MAX,
    ensures
        fault_report::broken(words, lo, n).contains((lo + 8 * i) as u64) <==> words[(lo + 8
            * i) as u64] != (0x5EED_0000_0000_0000u64 | ((lo + 8 * i) as u64
            & 0x0000_FFFF_FFFF_FFF8u64)),
        forall|a: int, b: int|
            0 <= a < b < fault_report::broken(words, lo, n).len()
                ==> #[trigger] fault_report::broken(words, lo, n)[a]
                < #[trigger] fault_report::broken(words, lo, n)[b],
        forall|a: int|
            0 <= a < fault_report::broken(words, lo, n).len() ==> lo
                <= #[trigger] fault_report::broken(words, lo, n)[a] < lo + 8 * n,
    decreases n,
{
    let list = fault_report::broken(words, lo, n);
    let before = fault_report::broken(words, lo, n - 1);
    let last = (lo + 8 * (n - 1)) as u64;
    if n > 1 {
        let k = if i < n - 1 {
            i
        } else {
            0
        };
        lemma_broken_effect(words, lo, n - 1, k);
    }
    let a = (lo + 8 * i) as u64;
    if list.len() > before.len() {
        assert(list == before.push(last));
        assert(list[list.len() - 1] == last);
        if i < n - 1 {
            if before.contains(a) {
                let j = choose|j: int| 0 <= j < before.len() && before[j] == a;
                assert(list[j] == a);
            }
            if list.contains(a) {
                let j = choose|j: int| 0 <= j < list.len() && list[j] == a;
                assert(before[j] == a);
            }
        }
    } else {
        assert(list == before);
    }
}

/// The part of a stack that is reported reaches from two words below the stack pointer to two
/// words above where the task began, or 0x200 bytes up where that is not known, and in any
/// case past the word at the stack pointer. A part of more than 128 words is not reported.
pub proof fn lemma_stack_part_effect(sp: u64, initial_sp: u64)
    ensures
        sp >= 16 ==> fault_report::stack_lo(sp) == sp - 16,
        sp < 16 ==> fault_report::stack_lo(sp) == 0,
        fault_report::stack_hi(sp, initial_sp) >= sp + 8,
        initial_sp == 0 ==> fault_report::stack_hi(sp, initial_sp) == sp + 0x200,
        initial_sp > 0 && initial_sp + 8 >= sp ==> fault_report::stack_hi(sp, initial_sp)
            == initial_sp + 16,
        initial_sp > 0 && initial_sp + 8 < sp ==> fault_report::stack_hi(sp, initial_sp) == sp + 8,
        ({
            let bytes = fault_report::stack_hi(sp, initial_sp) - fault_report::stack_lo(sp);
            fault_report::shows_stack(sp, initial_sp) <==> sp != 0 && 8 <= bytes < 129 * 8
        }),
{
}

/// A frame pointer is followed exactly if it lies on the stack in use: not below the stack
/// pointer, and below the end of user stacks.
pub proof fn lemma_follows_effect(fp: u64, sp: u64)
    ensures
        fault_report::follows(fp, sp) <==> fp != 0 && fp >= sp && fp < 0x8000_15d9_2000,
{
}

/// A scan gives the first word of the region, counted every eight bytes, that holds one of the
/// two values; it gives nothing exactly if there is none, or if the first one is at address 0.
pub proof fn lemma_scan_effect(words: Map<u64, u64>, lo: int, hi: int)
    requires
        0 <= lo,
        hi <= u64::MAX,
    ensures
        match frame_dump::first_target(words, lo, hi) {
            Some((addr, value)) => {
                &&& addr != 0
                &&& lo <= addr < hi
                &&& (addr - lo) % 8 == 0
                &&& words[addr] == value
                &&& value == 0x6000_0207 || value == 0x7fff_ffff_f8a0
                &&& forall|a: u64|
                    lo <= a < addr && (a - lo) % 8 == 0 ==> #[trigger] words[a] != 0x6000_0207
                        && words[a] != 0x7fff_ffff_f8a0
            },
            None => (lo == 0 && hi > 0 && (words[0] == 0x6000_0207 || words[0] == 0x7fff_ffff_f8a0))
                || forall|a: u64|
                lo <= a < hi && (a - lo) % 8 == 0 ==> #[trigger] words[a] != 0x6000_0207
                    && words[a] != 0x7fff_ffff_f8a0,
        },
    decreases hi + 8 - lo,
{
    if lo < hi && !frame_dump::is_target(words[lo as u64]) {
        lemma_scan_effect(words, lo + 8, hi);
    }
}

/// The frame of task 1 is dumped while that task runs on its user stack, and at most six times.
/// The dump looks at the general registers, at 0x400 bytes from the thread pointer on, at the
/// stack from at most 0x80000 bytes below the stack pointer to 0x200 bytes above it, and at the
/// two heap blocks.
pub proof fn lemma_dump_effect(
    count: u64,
    current: Option<TaskId>,
    words: Map<u64, u64>,
    frame: u64,
    found: Option<FrameDump>,
    after: u64,
)
    requires
        frame_dump::is_dump(count, current, words, frame, found, after),
    ensures
        found is Some <==> current == Some(TaskId(1)) && words[crate::memory::word_at(
            frame as int,
            0,
        )] == 0 && count < 6,
        found is Some ==> after == count + 1,
        found is None ==> after == count,
        found matches Some(d) ==> {
            let sp = words[crate::memory::word_at(frame as int, 3)];
            let tls = words[crate::memory::word_at(frame as int, 4)];
            &&& d.index == count
            &&& d.hit_x <==> exists|i: int|
                5 <= i < 36 && words[#[trigger] crate::memory::word_at(frame as int, i)]
                    == 0x6000_0207
            &&& d.tls == frame_dump::hit(words, tls as int, tls + 0x400)
            &&& sp >= 0x8000_15e5_6000 ==> d.stack == frame_dump::hit(
                words,
                sp - 0x8_0000,
                sp + 0x200,
            )
            &&& sp < 0x8000_15e5_6000 ==> d.stack == frame_dump::hit(
                words,
                0x8000_15dd_6000,
                sp + 0x200,
            )
            &&& d.heap0 == frame_dump::hit(words, 0x8000_0001_8b00, 0x8000_0002_ab10)
            &&& d.heap1 == frame_dump::hit(words, 0x8000_0002_d160, 0x8000_0003_f170)
        },
{
}

/// The registers of task 1 are reported when it resumes exactly if one of them holds the magic
/// value, and they are those of its frame.
pub proof fn lemma_resume_check_effect(
    current: Option<TaskId>,
    words: Map<u64, u64>,
    frame: u64,
    found: Option<Vec<u64>>,
)
    requires
        frame_dump::is_resume_check(current, words, frame, found),
    ensures
        found is Some <==> current == Some(TaskId(1)) && exists|i: int|
            5 <= i < 36 && words[#[trigger] crate::memory::word_at(frame as int, i)]
                == 0x6000_0207,
        found matches Some(x) ==> x@.len() == 31 && forall|i: int|
            0 <= i < 31 ==> #[trigger] x@[i] == words[crate::memory::word_at(
                frame as int,
                5 + i,
            )],
{
}

/// What is noted of a frame: every word that holds the magic value, by its index and with
/// whether it is a general register; and the link register and the program status if they do
/// not.
pub proof fn lemma_note_effect(index: int, value: u64)
    requires
        0 <= index < 36,
    ensures
        value == 0x6000_0207 ==> diagnostics::note_of(index, value) == Some(
            FrameNote::Match { index: index as u64, is_x: index >= 5 },
        ),
        value != 0x6000_0207 && index == 1 ==> diagnostics::note_of(index, value) == Some(
            FrameNote::Elr { value },
        ),
        value != 0x6000_0207 && index == 2 ==> diagnostics::note_of(index, value) == Some(
            FrameNote::Spsr { value },
        ),
        value != 0x6000_0207 && index != 1 && index != 2 ==> diagnostics::note_of(index, value)
            is None,
{
}

/// The notes of a frame are those of its words, in the order of the words: each word has a
/// note at most once.
pub proof fn lemma_notes_effect(words: Map<u64, u64>, base: int, n: int)
    requires
        n > 0,
    ensures
        ({
            let value = words[crate::memory::word_at(base, n - 1)];
            let earlier = diagnostics::notes(words, base, n - 1);
            &&& diagnostics::note_of(n - 1, value) is None ==> diagnostics::notes(words, base, n)
                == earlier
            &&& diagnostics::note_of(n - 1, value) matches Some(note) ==> diagnostics::notes(
                words,
                base,
                n,
            ) == earlier.push(note)
            &&& diagnostics::notes(words, base, 0).len() == 0
        }),
{
}

/// The statistics of a core have a line for each interrupt that came, and for no other: with
/// its own counter and its name, in ascending order of the interrupts.
pub proof fn lemma_core_lines_effect(
    core_id: u32,
    counters: Seq<u64>,
    names: Map<u8, Seq<char>>,
    n: int,
)
    requires
        0 <= n <= 256,
        counters.len() == 256,
    ensures
        ({
            let lines = statistics::core_lines(core_id, counters, names, n);
            &&& forall|i: int|
                0 <= i < lines.len() ==> {
                    let line = #[trigger] lines[i];
                    &&& line.core_id == core_id
                    &&& line.irq < n
                    &&& line.counter == counters[line.irq as int]
                    &&& line.counter > 0
                    &&& names.contains_key(line.irq) ==> line.name == Some(names[line.irq])
                    &&& !names.contains_key(line.irq) ==> line.name is None
                }
            &&& forall|i: int, j: int|
                0 <= i < j < lines.len() ==> (#[trigger] lines[i]).irq < (#[trigger] lines[j]).irq
            &&& forall|k: int|
                0 <= k < n && #[trigger] counters[k] > 0 ==> exists|i: int|
                    0 <= i < lines.len() && (#[trigger] lines[i]).irq == k
        }),
    decreases n,
{
    if n > 0 {
        lemma_core_lines_effect(core_id, counters, names, n - 1);
        let lines = statistics::core_lines(core_id, counters, names, n);
        let before = statistics::core_lines(core_id, counters, names, n - 1);
        assert forall|k: int| 0 <= k < n && #[trigger] counters[k] > 0 implies exists|i: int|
            0 <= i < lines.len() && (#[trigger] lines[i]).irq == k by {
            if k < n - 1 {
                let i = choose|i: int| 0 <= i < before.len() && (#[trigger] before[i]).irq == k;
                assert(lines[i].irq == k);
            } else {
                assert(lines[before.len() as int].irq == k);
            }
        }
    }
}

/// The statistics of all cores are those of the cores that are there, one after the other in
/// ascending order.
pub proof fn lemma_all_lines_effect(cores: Map<u32, Seq<u64>>, names: Map<u8, Seq<char>>, n: u32)
    ensures
        statistics::all_lines(cores, names, 0).len() == 0,
        cores.contains_key(n) ==> statistics::all_lines(cores, names, n + 1)
            == statistics::all_lines(cores, names, n as int) + statistics::core_lines(
            n,
            cores[n],
            names,
            256,
        ),
        !cores.contains_key(n) ==> statistics::all_lines(cores, names, n + 1)
            == statistics::all_lines(cores, names, n as int),
        statistics::all_cores() == u32::MAX + 1,
{
}

/// An exception whose frame lies where it should is handled; otherwise the fault is named. An
/// error that cannot be handled ends the task, but stops where the frame lies wrong.
pub proof fn lemma_fatal_effect(
    spsr: u64,
    sp: u64,
    scratch: u64,
    location: FrameLocation,
    r: Result<(), SlotFault>,
    a: FatalAction,
)
    requires
        call_ensures(sync::check_slot, (spsr, sp, scratch, location), r),
        call_ensures(sync::do_error, (spsr, sp, scratch, location), a),
    ensures
        r is Ok <==> spsr % 2 == 1 || (sp == scratch && location == FrameLocation::InSlot),
        r matches Err(f) ==> (f is WrongStack <==> sp != scratch),
        a is EndTask <==> r is Ok,
        a matches FatalAction::Stop { fault } ==> r == Err::<(), SlotFault>(fault),
{
    lemma_slot_fault_effect(spsr, sp, scratch, location);
}

/// A double fault ends the task if it came from one, and stops the kernel otherwise.
pub proof fn lemma_double_fault_result(v: u64, r: DfAction)
    requires
        call_ensures(double_fault::do_double_fault, (v,), r),
    ensures
        r is KillTask <==> v == 2 || v == 3,
{
}

/// Taking an interrupt and being done with it leaves the core as it was, but that no interrupt
/// is being handled where they nest.
pub proof fn lemma_enter_exit_effect(
    a: &mut CoreLocal,
    b: &mut CoreLocal,
    features: Features,
)
    requires
        irq::can_enter(*old(a), features),
        call_ensures(irq::irq_enter, (a, features), ()),
        *old(b) == *final(a),
        call_ensures(irq::irq_exit, (b, features), ()),
    ensures
        features.pmr_band ==> final(a).in_irq && final(a).rt_nest_depth == old(a).rt_nest_depth
            + 1 && !final(b).in_irq,
        !features.pmr_band ==> *final(a) == *old(a) && *final(b) == *old(a),
        final(b).rt_nest_depth == old(a).rt_nest_depth,
        stacks_kept(*old(a), *final(b)),
{
}

/// The cooperative band is woken by its own interrupt, 13 on core 0, and a future that waits is
/// woken once. The real-time band does so under its ceiling and notes it; the mask is what it
/// was behind it.
pub proof fn lemma_band_effect(
    a: &mut CoopBand,
    r: CoopWakeup,
    b: &mut CoopBand,
    mask: &mut PriorityMask,
    s: CoopWakeup,
    c: &mut CoopBand,
    done: bool,
)
    requires
        call_ensures(CoopBand::wake_coop_future, (a,), r),
        old(mask).mask >= 0x20,
        call_ensures(CoopBand::rt_bridge_handler, (b, mask), s),
        call_ensures(CoopBand::poll, (c,), done),
    ensures
        r.sgi == 0x0d00_0001,
        r.wake == old(a).waker,
        !final(a).waker,
        final(a).triggered == old(a).triggered,
        s.sgi == r.sgi,
        s.wake == old(b).waker,
        final(b).triggered && !final(b).waker,
        final(b).wake_pending == old(b).wake_pending,
        final(mask).mask == old(mask).mask,
        done == old(c).triggered,
        final(c).waker,
        final(c).triggered == old(c).triggered,
{
    assert(((13u64 << 24u64) | (1u64 << 0u64)) == 0x0d00_0001) by (bit_vector);
}

/// The trials of the bands begin once and on core 0 alone: that of the bands by interrupt 12.
/// That of the network passes once, when it began, was woken and polled, and no interrupt is left
/// to be ended.
pub proof fn lemma_trials_effect(
    h: &mut BandHarness,
    core_id: u32,
    r: Option<u64>,
    n: &mut CoopNetHarness,
    woken: bool,
    left: u32,
    step: CoopNetStep,
)
    requires
        call_ensures(BandHarness::pmr_band_maybe_trigger, (h, core_id), r),
        call_ensures(CoopNetHarness::pmr_coop_net_maybe_trigger, (n, core_id, woken, left), step),
    ensures
        r is Some <==> core_id == 0 && !old(h).done,
        r matches Some(sgi) ==> sgi == 0x0c00_0001,
        r is Some ==> final(h).done,
        step is Arm <==> core_id == 0 && !old(n).armed,
        step is Pass <==> core_id == 0 && old(n).armed && !old(n).pass_emitted && woken
            && old(n).probe_polled && left == 0,
        step is Arm ==> final(n).armed,
        step is Pass ==> final(n).pass_emitted,
        final(n).probe_polled == old(n).probe_polled,
{
    assert(((12u64 << 24u64) | (1u64 << 0u64)) == 0x0c00_0001) by (bit_vector);
}

/// The test of nested preemption waits for the higher test interrupt, 15, which it sends to its
/// own core: what it expects is what the mask in place while it waits allows an interrupt of
/// priority 0.
pub proof fn lemma_spike_expects(i: int)
    requires
        0 <= i < pmr::spike_steps(14).len(),
    ensures
        pmr::spike_steps(14)[i] matches SpikeStep::Report { blocked_expected } ==> {
            &&& i >= 7
            &&& pmr::spike_steps(14)[i - 3] == (SpikeStep::Spin { rounds: 1_000_000 })
            &&& pmr::spike_steps(14)[i - 4] == (SpikeStep::Pend { sgi: 0x0f00_0001 })
            &&& pmr::spike_steps(14)[i - 7] == (SpikeStep::SetFlag { came: false })
            &&& blocked_expected == !pmr::admits(
                pmr::mask_before(pmr::spike_steps(14), i - 3),
                0,
            )
        },
        pmr::spike_steps(14).len() == 16,
        pmr::spike_steps(14)[7] is Report && pmr::spike_steps(14)[15] is Report,
        pmr::spike_steps(15) == seq![SpikeStep::SetFlag { came: true }],
{
    let s = pmr::spike_steps(14);
    assert(((15u64 << 24u64) | (1u64 << 0u64)) == 0x0f00_0001) by (bit_vector);
    reveal_with_fuel(pmr::mask_before, 14);
    assert(s.len() == 16);
    assert(s[0] is SetFlag && s[1] == SpikeStep::SetMask { mask: 0x40 } && s[2] is EnableIrqs);
    assert(s[3] is Pend && s[4] is Spin && s[5] is DisableIrqs && s[6] is SetMask);
    assert(s[8] is SetFlag && s[9] == SpikeStep::SetMask { mask: 0 } && s[10] is EnableIrqs);
    assert(s[11] is Pend && s[12] is Spin && s[13] is DisableIrqs && s[14] is SetMask);
    assert(s[7] is Report && s[15] is Report);
}

/// A fast interrupt that was acknowledged is counted under its number and handled by the handlers
/// of that number, whatever the number; an interrupt too, unless it is a test interrupt.
pub proof fn lemma_irq_results(
    a: &mut CoreLocal,
    acked: Option<u32>,
    handlers: Option<&InterruptHandlers>,
    features: Features,
    fast: IrqStart,
    b: &mut CoreLocal,
    dumps: &mut FrameDumps,
    current: Option<TaskId>,
    m: Memory,
    frame: u64,
    entry: IrqEntry,
)
    requires
        old(a).wf(),
        irq::can_enter(*old(a), features),
        acked matches Some(n) ==> n <= 255,
        call_ensures(irq::do_fiq, (a, acked, handlers, features), fast),
        old(b).wf(),
        irq::can_enter(*old(b), features),
        call_ensures(
            irq::do_irq,
            (b, dumps, current, &m, frame, acked, handlers, features),
            entry,
        ),
    ensures
        acked is None <==> fast is Spurious,
        acked is None <==> entry.start is Spurious,
        acked is None ==> *final(a) == *old(a) && *final(b) == *old(b),
        !(fast is Test),
        fast matches IrqStart::Handle { vector, handlers: run } ==> {
            &&& acked == Some(vector as u32)
            &&& old(a).irq_statistics@[vector as int] < u64::MAX
                ==> final(a).irq_statistics@[vector as int] == old(
                a,
            ).irq_statistics@[vector as int] + 1
            &&& handlers is None ==> run@.len() == 0
            &&& handlers matches Some(h) ==> (h@.contains_key(vector) ==> run@ == h@[vector])
        },
        entry.start is Test <==> features.pmr_preempt_spike && (acked == Some(14u32) || acked
            == Some(15u32)),
        entry.start matches IrqStart::Handle { vector, handlers: run } ==> {
            &&& acked == Some(vector as u32)
            &&& old(b).irq_statistics@[vector as int] < u64::MAX
                ==> final(b).irq_statistics@[vector as int] == old(
                b,
            ).irq_statistics@[vector as int] + 1
            &&& handlers matches Some(h) ==> (h@.contains_key(vector) ==> run@ == h@[vector])
        },
        stacks_kept(*old(a), *final(a)),
        stacks_kept(*old(b), *final(b)),
{
    lemma_irq_start_effect(*old(b), acked, handlers, features, entry.start, *final(b));
    if let Some(n) = acked {
        lemma_taken_effect(*old(a), *final(a), n as u8, features);
        if let IrqStart::Handle { vector, handlers: run } = entry.start {
            lemma_taken_effect(*old(b), *final(b), vector, features);
        }
    }
}

/// An interrupt that was handled ends under its number. The scheduler runs then exactly if no
/// other interrupt is being handled; otherwise the running task stays.
pub proof fn lemma_finish_irq_result(
    core: &mut CoreLocal,
    s: &mut PerCoreScheduler,
    m: &mut Machine,
    features: Features,
    vector: u8,
    time: u64,
    now: u64,
    r: IrqEnd,
)
    requires
        irq::can_leave(*old(core), features),
        old(s).wf(old(m)),
        call_ensures(irq::finish_irq, (core, s, m, features, vector, time, now), r),
    ensures
        features.pmr_coop_net ==> r.end == (EndOfInterrupt::Split { intid: vector as u32 }),
        !features.pmr_coop_net ==> r.end == (EndOfInterrupt::Combined { intid: vector as u32 }),
        r.rescheduled is Some <==> final(core).rt_nest_depth == 0,
        features.pmr_band ==> final(core).rt_nest_depth == old(core).rt_nest_depth - 1,
        r.rescheduled is None ==> final(s).current_task == old(s).current_task,
        r.rescheduled matches Some(x) ==> (x.previous is Some <==> final(s).current_task != old(
            s,
        ).current_task),
        stacks_kept(*old(core), *final(core)),
{
    lemma_done_effect(*old(core), features);
    let c = old(s).state(old(m));
    crate::scheduler::effects::lemma_elapsed_effect(c, time);
    assert(final(s).state(final(m)).current == final(s).current_task);
}

/// Handling a synchronous exception of a task takes the task's slot from the core, and leaves it
/// alone if the kernel took the exception on its own stack. The scheduler's state changes only
/// where floating-point registers change hands.
pub proof fn lemma_do_sync_result(
    core: &mut CoreLocal,
    s: &mut PerCoreScheduler,
    m: Machine,
    dumps: &mut FrameDumps,
    regs: SyncRegs,
    r: SyncOutcome,
)
    requires
        old(s).wf(&m),
        call_ensures(sync::do_sync, (core, s, &m, dumps, &regs), r),
    ensures
        regs.spsr % 2 == 0 ==> final(core).scratch_slot == 0,
        regs.spsr % 2 == 1 ==> final(core).scratch_slot == old(core).scratch_slot,
        final(core).kernel_sp == old(core).kernel_sp,
        ({
            let ec = (regs.esr / 0x400_0000) % 64;
            &&& r.action is LoadFpu <==> ec == 0x07
            &&& r.action is HaltDebugTrap <==> ec == 0x3c
            &&& r.action is EndTask <==> ec == 0x20 || ec == 0x21
            &&& r.action is HaltPageFault || r.action is Resume <==> ec == 0x24 || ec == 0x25
        }),
        !(r.action is LoadFpu) ==> final(s).state(&m) == old(s).state(&m),
        r.action is LoadFpu ==> final(s).fpu_owner == old(s).current_task,
        final(s).current_task == old(s).current_task,
{
    lemma_kind_by_class(regs.esr);
    lemma_slot_fault_effect(regs.spsr, regs.sp_el1, 0, FrameLocation::InSlot);
    lemma_sync_effect(old(s), &m, regs, r.action);
    assert(final(s).state(&m).fpu_owner == final(s).fpu_owner);
    assert(final(s).state(&m).current == final(s).current_task);
}

/// The handlers that are installed run on their own interrupts: the timer's on its private one,
/// the serial port's on its shared one.
pub proof fn lemma_install_result(
    old_handlers: Vec<(u8, Vec<u64>)>,
    timer: u32,
    uart: u32,
    features: Features,
    r: InterruptHandlers,
)
    requires
        timer + 16 <= 255,
        uart + 32 <= 255,
        call_ensures(handlers::install_handlers, (&old_handlers, timer, uart, features), r),
    ensures
        r@.contains_key((timer + 16) as u8),
        r@[(timer + 16) as u8].contains(Handler::Timer),
        r@.contains_key((uart + 32) as u8),
        r@[(uart + 32) as u8].contains(Handler::Uart),
        features.continuations ==> r@.contains_key(11) && r@[11].contains(Handler::ContWake),
{
    let d = handlers::driver_handlers(old_handlers@);
    let t = (timer + 16) as u8;
    let u = (uart + 32) as u8;
    lemma_installed_effect(old_handlers@, timer, uart, features, t);
    lemma_installed_effect(old_handlers@, timer, uart, features, u);
    lemma_installed_effect(old_handlers@, timer, uart, features, 11);
    let n: int = if d.contains_key(t) {
        d[t].len() as int
    } else {
        0
    };
    assert(r@[t][n] == Handler::Timer);
    let k: int = (if d.contains_key(u) {
        d[u].len() as int
    } else {
        0
    }) + (if u == timer + 16 {
        1int
    } else {
        0
    });
    assert(r@[u][k] == Handler::Uart);
    if features.continuations {
        assert(r@[11].last() == Handler::ContWake);
    }
}

} // verus!
