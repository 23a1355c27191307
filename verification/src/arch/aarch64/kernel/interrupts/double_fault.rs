//! Exceptions taken while the exception stack cannot hold another frame.

use vstd::prelude::*;

verus! {

/// Where a double fault came from.
#[derive(Debug, Clone, Copy, PartialEq, Eq, Structural)]
pub enum DfFlavor {
    /// Synchronous, from the kernel.
    El1hSync,
    /// Asynchronous, from the kernel.
    El1hError,
    /// Synchronous, from a task.
    El1tSync,
    /// Asynchronous, from a task.
    El1tError,
}

/// What to do about a double fault.
#[derive(Debug, Clone, Copy, PartialEq, Eq, Structural)]
pub enum DfAction {
    /// End the task. Its supervisor may start it again.
    KillTask,
    /// Stop: the kernel cannot go on.
    FailStop,
}

/// Where the double fault with the code `v` came from.
pub open spec fn spec_flavor(v: u64) -> DfFlavor {
    if v == 1 {
        DfFlavor::El1hError
    } else if v == 2 {
        DfFlavor::El1tSync
    } else if v == 3 {
        DfFlavor::El1tError
    } else {
        DfFlavor::El1hSync
    }
}

impl DfFlavor {
    /// Whether the fault came from a task.
    pub open spec fn from_task(self) -> bool {
        self == DfFlavor::El1tSync || self == DfFlavor::El1tError
    }

    /// Where the double fault with the code `v` came from. A code that is not
    /// known counts as the kernel's, which is the cautious choice.
    pub fn from_u64(v: u64) -> (r: DfFlavor)
        ensures
            r == spec_flavor(v),
    {
        match v {
            0 => DfFlavor::El1hSync,
            1 => DfFlavor::El1hError,
            2 => DfFlavor::El1tSync,
            3 => DfFlavor::El1tError,
            _ => DfFlavor::El1hSync,
        }
    }

    /// Whether the fault came from a task.
    pub fn is_el1t(self) -> (r: bool)
        ensures
            r == self.from_task(),
    {
        matches!(self, DfFlavor::El1tSync | DfFlavor::El1tError)
    }
}

/// What to do about the double fault with the code `flavor`.
pub fn do_double_fault(flavor: u64) -> (r: DfAction)
    ensures
        r == (if spec_flavor(flavor).from_task() {
            DfAction::KillTask
        } else {
            DfAction::FailStop
        }),
{
    if DfFlavor::from_u64(flavor).is_el1t() {
        DfAction::KillTask
    } else {
        DfAction::FailStop
    }
}

/// A code that is not known never ends a task.
pub proof fn lemma_unknown_flavor_stops(v: u64)
    requires
        v > 3,
    ensures
        !spec_flavor(v).from_task(),
{
}

/// The sizes that the vector code has built in are those of the configuration.
pub proof fn lemma_vector_sizes()
    ensures
        crate::config::EXCEPTION_SLOT_SIZE + crate::config::EXCEPTION_SLOT_GUARD == 0x11000,
        crate::config::EXCEPTION_SLOT_GUARD + 0x3000 == 0x4000,
        crate::config::KERNEL_STACK_SIZE + 0x1000 == 0x9000,
        crate::config::KERNEL_STACK_SIZE == 0x8000,
{
}

} // verus!
