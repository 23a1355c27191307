//! What each core has of its own.

use vstd::prelude::*;

use crate::arch::aarch64::kernel::interrupts::statistics::IrqStatistics;
use crate::config::DEFAULT_STACK_SIZE;
use crate::pages::BASE_PAGE_SIZE;

verus! {

/// What a core has of its own.
pub struct CoreLocal {
    /// Top of the core's exception stack.
    pub exception_sp: u64,
    /// Top of the running task's kernel stack.
    pub kernel_sp: u64,
    /// Top of the running task's exception slot, 0 if none is assigned.
    pub scratch_slot: u64,
    /// The core.
    pub core_id: u32,
    /// How often each interrupt came.
    pub irq_statistics: IrqStatistics,
    /// How many interrupts are being handled, one within the other.
    pub rt_nest_depth: u32,
    /// Whether an interrupt is being handled.
    pub in_irq: bool,
    /// How many interrupts were acknowledged and not yet ended.
    pub eoi_inflight: u32,
}

/// Top of the exception stack of a core: each core has a stack and a guard
/// page.
pub open spec fn exception_stack_top(base: int, core_id: int) -> int {
    base + core_id * 0x21000 + 0x20000
}

impl CoreLocal {
    /// Every interrupt has a counter.
    pub open spec fn wf(&self) -> bool {
        self.irq_statistics.wf()
    }

    /// Sets up what the core `core_id` has of its own. Its exception stack is
    /// one of those that begin at `stacks`, and lies in the kernel's image.
    /// Until a task is dispatched, the kernel stack and the exception slot are
    /// the exception stack.
    pub fn install(core_id: u32, stacks: u64, image_start: u64, image_end: u64) -> (r: CoreLocal)
        requires
            image_start < exception_stack_top(stacks as int, core_id as int) < image_end,
        ensures
            r.wf(),
            r.core_id == core_id,
            r.exception_sp == exception_stack_top(stacks as int, core_id as int),
            r.kernel_sp == r.exception_sp,
            r.scratch_slot == r.exception_sp,
            forall|i: int| 0 <= i < 256 ==> #[trigger] r.irq_statistics@[i] == 0,
            r.rt_nest_depth == 0,
            !r.in_irq,
            r.eoi_inflight == 0,
    {
        let stride: u64 = DEFAULT_STACK_SIZE as u64 + BASE_PAGE_SIZE as u64;
        let e_top: u64 = stacks + (core_id as u64) * stride + DEFAULT_STACK_SIZE as u64;
        CoreLocal {
            exception_sp: e_top,
            kernel_sp: e_top,
            scratch_slot: e_top,
            core_id,
            irq_statistics: IrqStatistics::new(),
            rt_nest_depth: 0,
            in_irq: false,
            eoi_inflight: 0,
        }
    }

    /// Top of the running task's exception slot.
    pub fn scratch_slot(&self) -> (r: u64)
        ensures
            r == self.scratch_slot,
    {
        self.scratch_slot
    }

    /// Takes the exception slot back.
    pub fn clear_scratch_slot(&mut self)
        ensures
            *final(self) == (CoreLocal { scratch_slot: 0, ..*old(self) }),
    {
        self.scratch_slot = 0;
    }

    /// Sets the top of the running task's kernel stack.
    pub fn set_kernel_sp(&mut self, sp: u64)
        ensures
            *final(self) == (CoreLocal { kernel_sp: sp, ..*old(self) }),
    {
        self.kernel_sp = sp;
    }

    /// Counts an interrupt.
    pub fn increment_irq_counter(&mut self, irq_no: u8)
        requires
            old(self).wf(),
        ensures
            final(self).wf(),
            final(self).irq_statistics@ == old(self).irq_statistics@.update(
                irq_no as int,
                crate::arch::aarch64::kernel::interrupts::statistics::wrapping_inc(
                    old(self).irq_statistics@[irq_no as int],
                ),
            ),
            *final(self) == (CoreLocal {
                irq_statistics: final(self).irq_statistics,
                ..*old(self)
            }),
    {
        self.irq_statistics.inc(irq_no);
    }
}

/// The exception stacks of different cores have no address in common: between
/// any two lies a guard page.
pub proof fn lemma_exception_stacks_apart(base: int, a: int, b: int)
    requires
        0 <= a < b,
    ensures
        exception_stack_top(base, a) + 0x1000 <= exception_stack_top(base, b) - 0x20000,
{
}

} // verus!
