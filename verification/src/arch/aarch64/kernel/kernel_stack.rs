//! Running a function on the kernel stack of a task.

use vstd::prelude::*;

use crate::arch::aarch64::kernel::core_local::CoreLocal;

verus! {

/// What is kept while a function runs on the kernel stack.
#[derive(Copy, Clone, Debug, Eq, PartialEq, Structural)]
pub struct KernelCall {
    /// The kernel's stack pointer before.
    pub saved_sp: u64,
    /// The stack pointer that the function runs with.
    pub sp: u64,
}

/// Takes the running task's kernel stack, in place of the stack at `sp_el1`.
pub fn enter_kernel_stack(core: &CoreLocal, sp_el1: u64) -> (r: KernelCall)
    requires
        core.kernel_sp != 0,
    ensures
        r == (KernelCall { saved_sp: sp_el1, sp: core.kernel_sp }),
{
    KernelCall { saved_sp: sp_el1, sp: core.kernel_sp }
}

/// Goes back to the stack before. It is the exception slot again, whatever was
/// set while the function ran.
pub fn leave_kernel_stack(core: &mut CoreLocal, call: KernelCall) -> (r: u64)
    ensures
        r == call.saved_sp,
        *final(core) == (CoreLocal { scratch_slot: call.saved_sp, ..*old(core) }),
{
    core.scratch_slot = call.saved_sp;
    call.saved_sp
}

} // verus!
