//! What each core has of its own.

use vstd::prelude::*;

use crate::arch::aarch64::kernel::interrupts::statistics::IrqStatistics;

verus! {

/// What a core has of its own.
pub struct CoreLocal {
    /// The core.
    pub core_id: u32,
    /// Where the task state segment lies, 0 before there is one.
    pub tss: u64,
    /// Where the kernel stack begins, 0 before there is one.
    pub kernel_stack: u64,
    /// How often each interrupt came.
    pub irq_statistics: IrqStatistics,
}

impl CoreLocal {
    /// Every interrupt has a counter.
    pub open spec fn wf(&self) -> bool {
        self.irq_statistics.wf()
    }

    /// Sets up what the core `core_id` has of its own. The base register that
    /// leads to it must not be in use.
    pub fn install(core_id: u32, gs_base: u64) -> (r: CoreLocal)
        requires
            gs_base == 0,
        ensures
            r.wf(),
            r.core_id == core_id,
            r.tss == 0,
            r.kernel_stack == 0,
            forall|i: int| 0 <= i < 256 ==> #[trigger] r.irq_statistics@[i] == 0,
    {
        CoreLocal { core_id, tss: 0, kernel_stack: 0, irq_statistics: IrqStatistics::new() }
    }

    /// Counts an interrupt.
    pub fn increment_irq_counter(&mut self, irq_no: u8)
        requires
            old(self).wf(),
        ensures
            final(self).wf(),
            final(self).irq_statistics@ == old(self).irq_statistics@.update(
                irq_no as int,
                crate::arch::aarch64::kernel::interrupts::statistics::wrapping_inc(
                    old(self).irq_statistics@[irq_no as int],
                ),
            ),
            *final(self) == (CoreLocal {
                irq_statistics: final(self).irq_statistics,
                ..*old(self)
            }),
    {
        self.irq_statistics.inc(irq_no);
    }
}

} // verus!
