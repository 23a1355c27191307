//! Handling synchronous exceptions and errors.

use vstd::prelude::*;

use crate::arch::aarch64::kernel::core_local::CoreLocal;
use crate::arch::aarch64::kernel::interrupts::fault_report::{
    DataFault, DataFaultReport, ReturnTrace, StackReport,
};
use crate::arch::aarch64::kernel::interrupts::frame_dump::{FrameDump, FrameDumps};
use crate::arch::aarch64::kernel::interrupts::syndrome::SyncKind;
use crate::scheduler::per_core::{Machine, PerCoreScheduler};
use crate::scheduler::state::CoreState;
use crate::scheduler::task::{FpuState, FrameLocation, Task, TaskId};

verus! {

/// What is wrong with the place where an exception put its frame.
#[derive(Copy, Clone, Debug, Eq, PartialEq, Structural)]
pub enum SlotFault {
    /// The frame is not in the running task's exception slot.
    WrongStack,
    /// The running task is not said to have its frame in a slot.
    NotInSlot,
}

/// Whether an exception came from code that ran on the kernel's own stack: bit
/// 0 of the program status.
pub open spec fn from_kernel_stack(spsr: u64) -> bool {
    spsr & 1 == 1
}

/// What is wrong with the place where an exception put its frame. Coming from
/// the kernel's own stack it may lie anywhere; otherwise it lies in the running
/// task's slot.
pub open spec fn slot_fault(
    spsr: u64,
    sp_el1: u64,
    scratch: u64,
    location: FrameLocation,
) -> Option<SlotFault> {
    if from_kernel_stack(spsr) {
        None
    } else if sp_el1 != scratch {
        Some(SlotFault::WrongStack)
    } else if location != FrameLocation::InSlot {
        Some(SlotFault::NotInSlot)
    } else {
        None
    }
}

/// Checks the place where an exception put its frame.
pub fn check_slot(spsr: u64, sp_el1: u64, scratch: u64, location: FrameLocation) -> (r: Result<
    (),
    SlotFault,
>)
    ensures
        r == (match slot_fault(spsr, sp_el1, scratch, location) {
            None => Ok::<(), SlotFault>(()),
            Some(fault) => Err(fault),
        }),
{
    let from_el1h: bool = (spsr & 1) == 1;
    if !from_el1h {
        if sp_el1 != scratch {
            return Err(SlotFault::WrongStack);
        }
        if location != FrameLocation::InSlot {
            return Err(SlotFault::NotInSlot);
        }
    }
    Ok(())
}

/// The registers when a synchronous exception was taken.
#[derive(Copy, Clone, Debug, Eq, PartialEq, Structural)]
pub struct SyncRegs {
    /// The exception syndrome.
    pub esr: u64,
    /// The fault address.
    pub far: u64,
    /// Where the exception happened.
    pub elr: u64,
    /// The program status then.
    pub spsr: u64,
    /// The kernel's stack pointer on entry.
    pub sp_el1: u64,
    /// Where the frame was put.
    pub frame: u64,
    /// Where the kernel's image begins.
    pub image_start: u64,
    /// What the code that returned from the last exception noted.
    pub trace: ReturnTrace,
    /// The user stack pointer that the last task started with, 0 if none did.
    pub initial_sp: u64,
    /// What the floating-point registers hold.
    pub fpu: FpuState,
}

/// What to do about a synchronous exception.
pub enum SyncAction {
    /// Report the fault, end the pending interrupt, and halt.
    HaltPageFault { report: DataFaultReport },
    /// Report that nothing is known of the fault, and go on.
    Resume,
    /// Report the place, and halt.
    HaltDebugTrap { pc: u64 },
    /// Report the stack and the frame chain, and end the running task.
    EndTask { stack: Option<StackReport>, chain: Option<Vec<u64>> },
    /// Load the floating-point registers, if they changed hands, and go on.
    LoadFpu { load: Option<FpuState> },
    /// Report the exception, and halt.
    HaltUnsupported { pc: u64, far: u64 },
}

/// What came of handling a synchronous exception.
pub struct SyncOutcome {
    /// What the dump of the frame found, if it was dumped.
    pub dump: Option<FrameDump>,
    /// What to do.
    pub action: SyncAction,
    /// The general registers with which the watched task goes on, if one of
    /// them is corrupted.
    pub resume: Option<Vec<u64>>,
}

/// Word `i` of the frame.
pub open spec fn state_word(machine: &Machine, regs: SyncRegs, i: int) -> u64 {
    machine.memory@[crate::memory::word_at(regs.frame as int, i)]
}

/// What is known of a failed access to data.
pub open spec fn data_fault(
    scheduler: &PerCoreScheduler,
    machine: &Machine,
    regs: SyncRegs,
) -> DataFault {
    DataFault {
        far: regs.far,
        pc: regs.elr,
        sp_el0: state_word(machine, regs, 3),
        kernel_stack_top: scheduler.tasks@[scheduler.current_task.0].stacks.kernel_stack_top() as u64,
        image_start: regs.image_start,
        trace: regs.trace,
    }
}

/// Whether what the handling of the exception reads is mapped.
pub open spec fn readable(
    scheduler: &PerCoreScheduler,
    machine: &Machine,
    regs: SyncRegs,
) -> bool {
    let sp = state_word(machine, regs, 3);
    let fp = state_word(machine, regs, 34);
    let words = machine.memory@;
    &&& crate::memory::frame_mapped(words, regs.frame as int)
    &&& match crate::arch::aarch64::kernel::interrupts::syndrome::sync_kind(regs.esr) {
        SyncKind::PageFault => crate::arch::aarch64::kernel::interrupts::fault_report::shows_user_stack(
            data_fault(scheduler, machine, regs),
        ) ==> crate::memory::words_mapped(words, sp as int, 16),
        SyncKind::InstructionAbort => {
            &&& sp + 0x200 <= u64::MAX
            &&& regs.initial_sp + 16 <= u64::MAX
            &&& crate::arch::aarch64::kernel::interrupts::fault_report::shows_stack(
                sp,
                regs.initial_sp,
            ) ==> crate::memory::words_mapped(
                words,
                crate::arch::aarch64::kernel::interrupts::fault_report::stack_lo(sp),
                crate::arch::aarch64::kernel::interrupts::fault_report::stack_words(
                    sp,
                    regs.initial_sp,
                ),
            )
            &&& crate::arch::aarch64::kernel::interrupts::fault_report::follows(fp, sp)
                ==> crate::memory::words_mapped(words, fp as int, 4)
        },
        _ => true,
    }
}

/// Whether `action` is what is to be done about the exception.
pub open spec fn is_action(
    scheduler: &PerCoreScheduler,
    machine: &Machine,
    regs: SyncRegs,
    action: SyncAction,
) -> bool {
    let sp = state_word(machine, regs, 3);
    let fp = state_word(machine, regs, 34);
    let words = machine.memory@;
    match crate::arch::aarch64::kernel::interrupts::syndrome::sync_kind(regs.esr) {
        SyncKind::PageFault => action matches SyncAction::HaltPageFault { report }
            && crate::arch::aarch64::kernel::interrupts::fault_report::is_data_report(
            data_fault(scheduler, machine, regs),
            words,
            report,
        ),
        SyncKind::UnknownAbort => action is Resume,
        SyncKind::DebugTrap => action == (SyncAction::HaltDebugTrap { pc: regs.elr }),
        SyncKind::InstructionAbort => {
            &&& action matches SyncAction::EndTask { stack, chain } && (match stack {
                Some(report) => crate::arch::aarch64::kernel::interrupts::fault_report::shows_stack(
                    sp,
                    regs.initial_sp,
                ) && crate::arch::aarch64::kernel::interrupts::fault_report::is_stack_report(
                    sp,
                    regs.initial_sp,
                    words,
                    report,
                ),
                None => !crate::arch::aarch64::kernel::interrupts::fault_report::shows_stack(
                    sp,
                    regs.initial_sp,
                ),
            }) && (match chain {
                Some(list) => crate::arch::aarch64::kernel::interrupts::fault_report::follows(
                    fp,
                    sp,
                ) && list@ == crate::arch::aarch64::kernel::interrupts::fault_report::window(
                    words,
                    fp as int,
                    4,
                ),
                None => !crate::arch::aarch64::kernel::interrupts::fault_report::follows(fp, sp),
            })
        },
        SyncKind::FloatingPoint => action == (SyncAction::LoadFpu {
            load: if scheduler.current_task == scheduler.fpu_owner {
                None
            } else {
                Some(scheduler.tasks@[scheduler.current_task.0].last_fpu_state)
            },
        }),
        SyncKind::Unsupported => action == (SyncAction::HaltUnsupported {
            pc: regs.elr,
            far: regs.far,
        }),
    }
}

/// The scheduler's state once the floating-point registers changed hands.
pub open spec fn fpu_handed(c: CoreState, live: FpuState) -> CoreState {
    if c.current == c.fpu_owner {
        c
    } else {
        CoreState {
            fpu_owner: c.current,
            tasks: c.tasks.insert(
                c.fpu_owner.0,
                Task { last_fpu_state: live, ..c.tasks[c.fpu_owner.0] },
            ),
            ..c
        }
    }
}

/// Handles a synchronous exception. Coming from a task, its frame lies in the
/// task's slot, which is taken back first, so that a fault on the way is not
/// mistaken for an overflow of the slot.
pub fn do_sync(
    core: &mut CoreLocal,
    scheduler: &mut PerCoreScheduler,
    machine: &Machine,
    dumps: &mut FrameDumps,
    regs: &SyncRegs,
) -> (r: SyncOutcome)
    requires
        old(scheduler).wf(machine),
        slot_fault(
            regs.spsr,
            regs.sp_el1,
            old(core).scratch_slot,
            old(scheduler).tasks@[old(scheduler).current_task.0].frame_location,
        ) is None,
        crate::arch::aarch64::kernel::interrupts::syndrome::class_exists(
            crate::arch::aarch64::kernel::interrupts::syndrome::class_bits(regs.esr),
        ),
        readable(old(scheduler), machine, *regs),
        crate::arch::aarch64::kernel::interrupts::frame_dump::dumped(
            old(dumps).count,
            Some(old(scheduler).current_task),
            machine.memory@,
            regs.frame,
        ) ==> crate::arch::aarch64::kernel::interrupts::frame_dump::regions_mapped(
            machine.memory@,
            regs.frame,
        ),
    ensures
        final(scheduler).wf(machine),
        crate::arch::aarch64::kernel::interrupts::frame_dump::is_dump(
            old(dumps).count,
            Some(old(scheduler).current_task),
            machine.memory@,
            regs.frame,
            r.dump,
            final(dumps).count,
        ),
        is_action(old(scheduler), machine, *regs, r.action),
        if r.action is LoadFpu {
            crate::arch::aarch64::kernel::interrupts::frame_dump::is_resume_check(
                Some(old(scheduler).current_task),
                machine.memory@,
                regs.frame,
                r.resume,
            )
        } else {
            r.resume is None
        },
        *final(core) == (if from_kernel_stack(regs.spsr) {
            *old(core)
        } else {
            CoreLocal { scratch_slot: 0, ..*old(core) }
        }),
        final(scheduler).state(machine) == (if r.action is LoadFpu {
            fpu_handed(old(scheduler).state(machine), regs.fpu)
        } else {
            old(scheduler).state(machine)
        }),
{
    let from_el1h: bool = (regs.spsr & 1) == 1;
    if !from_el1h {
        core.clear_scratch_slot();
    }
    let current: TaskId = scheduler.get_current_task_id();
    let dump: Option<FrameDump> = dumps.dump_frame_once(
        Some(current),
        &machine.memory,
        regs.frame,
    );
    let kind: SyncKind = crate::arch::aarch64::kernel::interrupts::syndrome::classify(
        regs.esr,
    ).unwrap();
    assert(machine.memory@.contains_key(crate::memory::word_at(regs.frame as int, 3)));
    assert(machine.memory@.contains_key(crate::memory::word_at(regs.frame as int, 34)));
    let sp: u64 = machine.memory.read(regs.frame + 24);
    let fp: u64 = machine.memory.read(regs.frame + 272);
    match kind {
        SyncKind::PageFault => {
            let fault = DataFault {
                far: regs.far,
                pc: regs.elr,
                sp_el0: sp,
                kernel_stack_top: scheduler.get_current_task_kernel_stack_top(machine),
                image_start: regs.image_start,
                trace: regs.trace,
            };
            assert(fault == data_fault(scheduler, machine, *regs));
            let report = crate::arch::aarch64::kernel::interrupts::fault_report::data_fault_report(
                &fault,
                &machine.memory,
            );
            SyncOutcome { dump, action: SyncAction::HaltPageFault { report }, resume: None }
        },
        SyncKind::UnknownAbort => SyncOutcome { dump, action: SyncAction::Resume, resume: None },
        SyncKind::DebugTrap => SyncOutcome {
            dump,
            action: SyncAction::HaltDebugTrap { pc: regs.elr },
            resume: None,
        },
        SyncKind::InstructionAbort => {
            let stack = crate::arch::aarch64::kernel::interrupts::fault_report::stack_report(
                sp,
                regs.initial_sp,
                &machine.memory,
            );
            let chain = crate::arch::aarch64::kernel::interrupts::fault_report::frame_chain(
                fp,
                sp,
                &machine.memory,
            );
            SyncOutcome { dump, action: SyncAction::EndTask { stack, chain }, resume: None }
        },
        SyncKind::FloatingPoint => {
            let load: Option<FpuState> = scheduler.fpu_switch(machine, regs.fpu);
            let resume: Option<Vec<u64>> =
                crate::arch::aarch64::kernel::interrupts::frame_dump::check_resume_x0(
                Some(current),
                &machine.memory,
                regs.frame,
            );
            SyncOutcome { dump, action: SyncAction::LoadFpu { load }, resume }
        },
        SyncKind::Unsupported => SyncOutcome {
            dump,
            action: SyncAction::HaltUnsupported { pc: regs.elr, far: regs.far },
            resume: None,
        },
    }
}

/// What to do about an exception that cannot be handled.
#[derive(Copy, Clone, Debug, Eq, PartialEq, Structural)]
pub enum FatalAction {
    /// The frame was put in the wrong place: stop.
    Stop { fault: SlotFault },
    /// End the running task.
    EndTask,
}

/// What to do about an asynchronous error.
pub fn do_error(spsr: u64, sp_el1: u64, scratch: u64, location: FrameLocation) -> (r: FatalAction)
    ensures
        r == (match slot_fault(spsr, sp_el1, scratch, location) {
            None => FatalAction::EndTask,
            Some(fault) => FatalAction::Stop { fault },
        }),
{
    match check_slot(spsr, sp_el1, scratch, location) {
        Ok(()) => FatalAction::EndTask,
        Err(fault) => FatalAction::Stop { fault },
    }
}

/// Taking back the slot leaves a core on which no further exception from a task
/// passes as one that lies in its slot, unless the stack pointer is 0.
pub proof fn lemma_slot_taken_back(sp_el1: u64, spsr: u64, location: FrameLocation)
    requires
        !from_kernel_stack(spsr),
        sp_el1 != 0,
    ensures
        slot_fault(spsr, sp_el1, 0, location) == Some(SlotFault::WrongStack),
{
}

} // verus!
