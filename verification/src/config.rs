//! Sizes and counts that the kernel is built with.

use vstd::prelude::*;

verus! {

/// Size of a task's kernel stack in bytes.
pub const KERNEL_STACK_SIZE: usize = 0x8000;

/// Default size of a task's user stack in bytes.
pub const DEFAULT_STACK_SIZE: usize = 0x0002_0000;

/// Size of the architecture's register frame in bytes: 36 words.
pub const ARCH_STATE_SIZE: usize = 288;

/// Size of the body of one exception slot. A slot is a full exception stack:
/// the register frame lies at its top and the handler runs below it.
pub const EXCEPTION_SLOT_SIZE: usize = 0x10000;

/// Number of exception slots per core: running, blocked and dispatch slack.
pub const SLOTS_PER_CORE: usize = 3;

/// Unmapped guard behind each slot body.
pub const EXCEPTION_SLOT_GUARD: usize = 4096;

/// Size of a user-space stack in bytes.
pub const USER_STACK_SIZE: usize = 0x0010_0000;

/// The slot sizes keep frames and guards on separate pages, leave room for a
/// handler's call chain, and leave a slot to evict beside the running one.
pub proof fn lemma_slot_sizes()
    ensures
        EXCEPTION_SLOT_SIZE % 0x1000 == 0,
        EXCEPTION_SLOT_SIZE >= 0x8000,
        SLOTS_PER_CORE >= 2,
        EXCEPTION_SLOT_GUARD >= 0x1000,
        ARCH_STATE_SIZE == 36 * 8,
{
}

/// Stacks are of these sizes: 32 KiB for the kernel, 128 KiB by default, 1 MiB for a program.
/// A slot is 64 KiB with a guard page, and a core has three.
pub proof fn lemma_stack_sizes()
    ensures
        KERNEL_STACK_SIZE == 32 * 1024,
        DEFAULT_STACK_SIZE == 128 * 1024,
        USER_STACK_SIZE == 1024 * 1024,
        EXCEPTION_SLOT_SIZE == 64 * 1024,
        EXCEPTION_SLOT_GUARD == 4 * 1024,
        SLOTS_PER_CORE == 3,
{
}

} // verus!
