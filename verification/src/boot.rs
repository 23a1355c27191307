//! From the first instruction of a core to its scheduler loop, and the end when
//! something goes wrong.

use vstd::prelude::*;

use crate::config::USER_STACK_SIZE;
use crate::diagnostics::FrameScan;
use crate::fd::FdTable;
use crate::scheduler::per_core::{Machine, PerCoreScheduler};
use crate::scheduler::registry::{Provided, TaskRegistry};
use crate::scheduler::spawn::{Child, Spawned};
use crate::scheduler::task::{Priority, NORMAL_PRIO};

verus! {

/// A step of bringing up a core.
#[derive(Copy, Clone, Debug, Eq, PartialEq, Structural)]
pub enum BootStep {
    /// Take the memory for the first allocations.
    ClaimInitialHeap,
    /// Set up the console.
    InitConsole,
    /// Read the environment.
    InitEnvironment,
    /// Print the boot arguments.
    PrintBootargs,
    /// Set up logging.
    InitLogging,
    /// Print what the kernel is.
    PrintInformation,
    /// Set up the processor of the core that boots.
    InitBootProcessor,
    /// Set up the processor of another core.
    InitApplicationProcessor,
    /// Add the core's scheduler.
    AddCurrentCore,
    /// Let interrupts come.
    EnableInterrupts,
    /// Bring up the next core.
    BootNextProcessor,
    /// Wait for all cores.
    SynchAllCores,
    /// Print the devices.
    PrintDevices,
    /// Start the parts that run on the executor.
    InitExecutor,
    /// Start the task that sets up the rest.
    SpawnInitd,
    /// Run the scheduler loop.
    RunScheduler,
}

/// The steps on the core that boots.
pub open spec fn boot_steps(smp: bool, pci: bool) -> Seq<BootStep> {
    seq![
        BootStep::ClaimInitialHeap,
        BootStep::InitConsole,
        BootStep::InitEnvironment,
        BootStep::PrintBootargs,
        BootStep::InitLogging,
        BootStep::PrintInformation,
        BootStep::InitBootProcessor,
        BootStep::AddCurrentCore,
        BootStep::EnableInterrupts,
        BootStep::BootNextProcessor,
    ] + (if smp {
        seq![BootStep::SynchAllCores]
    } else {
        Seq::empty()
    }) + (if pci {
        seq![BootStep::PrintDevices]
    } else {
        Seq::empty()
    }) + seq![BootStep::SpawnInitd, BootStep::RunScheduler]
}

/// The steps on another core.
pub open spec fn application_steps() -> Seq<BootStep> {
    seq![
        BootStep::InitApplicationProcessor,
        BootStep::AddCurrentCore,
        BootStep::EnableInterrupts,
        BootStep::BootNextProcessor,
        BootStep::SynchAllCores,
        BootStep::InitExecutor,
        BootStep::RunScheduler,
    ]
}

/// The steps on the core that boots, in order.
pub fn boot_processor_main(smp: bool, pci: bool) -> (r: Vec<BootStep>)
    ensures
        r@ == boot_steps(smp, pci),
{
    let mut steps: Vec<BootStep> = Vec::new();
    steps.push(BootStep::ClaimInitialHeap);
    steps.push(BootStep::InitConsole);
    steps.push(BootStep::InitEnvironment);
    steps.push(BootStep::PrintBootargs);
    steps.push(BootStep::InitLogging);
    steps.push(BootStep::PrintInformation);
    steps.push(BootStep::InitBootProcessor);
    steps.push(BootStep::AddCurrentCore);
    steps.push(BootStep::EnableInterrupts);
    steps.push(BootStep::BootNextProcessor);
    if smp {
        steps.push(BootStep::SynchAllCores);
    }
    if pci {
        steps.push(BootStep::PrintDevices);
    }
    steps.push(BootStep::SpawnInitd);
    steps.push(BootStep::RunScheduler);
    assert(steps@ =~= boot_steps(smp, pci));
    steps
}

/// The steps on another core, in order.
pub fn application_processor_main() -> (r: Vec<BootStep>)
    ensures
        r@ == application_steps(),
{
    let mut steps: Vec<BootStep> = Vec::new();
    steps.push(BootStep::InitApplicationProcessor);
    steps.push(BootStep::AddCurrentCore);
    steps.push(BootStep::EnableInterrupts);
    steps.push(BootStep::BootNextProcessor);
    steps.push(BootStep::SynchAllCores);
    steps.push(BootStep::InitExecutor);
    steps.push(BootStep::RunScheduler);
    assert(steps@ =~= application_steps());
    steps
}

/// On no core do interrupts come before there is a scheduler, and no core is
/// brought up before that.
pub proof fn lemma_scheduler_before_interrupts(smp: bool, pci: bool)
    ensures
        boot_steps(smp, pci).index_of(BootStep::AddCurrentCore) < boot_steps(smp, pci).index_of(
            BootStep::EnableInterrupts,
        ) < boot_steps(smp, pci).index_of(BootStep::BootNextProcessor),
        application_steps().index_of(BootStep::AddCurrentCore) < application_steps().index_of(
            BootStep::EnableInterrupts,
        ) < application_steps().index_of(BootStep::BootNextProcessor),
{
    let b = boot_steps(smp, pci);
    assert(b[7] == BootStep::AddCurrentCore);
    assert(b[8] == BootStep::EnableInterrupts);
    assert(b[9] == BootStep::BootNextProcessor);
    let i = b.index_of(BootStep::AddCurrentCore);
    let j = b.index_of(BootStep::EnableInterrupts);
    let k = b.index_of(BootStep::BootNextProcessor);
    assert(0 <= i < b.len() && b[i] == BootStep::AddCurrentCore);
    assert(0 <= j < b.len() && b[j] == BootStep::EnableInterrupts);
    assert(0 <= k < b.len() && b[k] == BootStep::BootNextProcessor);
    let a = application_steps();
    assert(a[1] == BootStep::AddCurrentCore);
    assert(a[2] == BootStep::EnableInterrupts);
    assert(a[3] == BootStep::BootNextProcessor);
    let l = a.index_of(BootStep::AddCurrentCore);
    let m = a.index_of(BootStep::EnableInterrupts);
    let n = a.index_of(BootStep::BootNextProcessor);
    assert(0 <= l < a.len() && a[l] == BootStep::AddCurrentCore);
    assert(0 <= m < a.len() && a[m] == BootStep::EnableInterrupts);
    assert(0 <= n < a.len() && a[n] == BootStep::BootNextProcessor);
}

/// Starts the task that sets up the rest, on core 0, with the usual priority
/// and a user stack of the usual size.
pub fn spawn_initd(
    scheduler: &mut PerCoreScheduler,
    machine: &mut Machine,
    registry: &mut TaskRegistry,
    initd: u64,
    p: Provided,
    idle_table: &FdTable,
) -> (r: Spawned)
    requires
        old(scheduler).wf(old(machine)),
        crate::scheduler::spawn::tids_known(
            old(registry)@,
            old(scheduler).state(old(machine)),
        ),
        old(registry).tid_counter < i32::MAX,
        old(registry)@.inputs.len() > 0,
        crate::scheduler::spawn::regions_fit(p, USER_STACK_SIZE as int),
    ensures
        final(scheduler).wf(final(machine)),
        final(machine).slots == old(machine).slots,
        crate::scheduler::spawn::tids_known(
            final(registry)@,
            final(scheduler).state(final(machine)),
        ),
        r.tid.0 == old(registry).tid_counter,
        crate::scheduler::spawn::maps_stacks(
            p,
            USER_STACK_SIZE as int,
            r.kernel_mapping,
            r.user_mapping,
        ),
        crate::scheduler::spawn::child_spawned(
            old(scheduler).state(old(machine)),
            old(registry)@,
            (Child {
                tid: r.tid,
                func: initd,
                arg: 0,
                prio: Priority(NORMAL_PRIO),
                core_id: 0,
                stack_size: USER_STACK_SIZE,
            }),
            p,
            idle_table@,
            final(scheduler).state(final(machine)),
            final(registry)@,
        ),
{
    scheduler.spawn(
        machine,
        registry,
        initd,
        0,
        Priority::from(NORMAL_PRIO),
        0,
        USER_STACK_SIZE,
        p,
        idle_table,
    )
}

/// Lets the cores wait for each other.
pub struct CoreBarrier {
    /// Number of cores that arrived.
    pub counter: u32,
}

impl CoreBarrier {
    /// Counts the calling core as arrived.
    pub fn synch_all_cores(&mut self) -> (r: u32)
        requires
            old(self).counter < u32::MAX,
        ensures
            r == old(self).counter + 1,
            final(self).counter == r,
    {
        self.counter = self.counter + 1;
        self.counter
    }

    /// Whether the cores that arrived may go on: all that are brought up are
    /// here.
    pub fn released(&self, boot_cores: u32) -> (r: bool)
        ensures
            r == (self.counter == boot_cores),
    {
        self.counter == boot_cores
    }
}

/// A step of setting up the rest.
#[derive(Copy, Clone, Debug, Eq, PartialEq, Structural)]
pub enum InitStep {
    /// Set up the drivers.
    Drivers,
    /// Set up the file system.
    FileSystem,
    /// Start the parts that run on the executor.
    Executor,
    /// Set up the system calls.
    SystemCalls,
    /// Start the shell.
    Shell,
    /// Get the arguments and the environment of the application.
    Parameters,
    /// Let the network set itself up.
    Reschedule,
    /// Warn that the kernel was not built for this application.
    WarnPrebuilt,
    /// Set up the C runtime.
    CRuntime,
    /// Run the constructors of the application.
    Constructors,
    /// Start the application.
    Application,
}

/// The steps of setting up the rest.
pub open spec fn init_steps(shell: bool, prebuilt: bool, runtime: bool) -> Seq<InitStep> {
    seq![InitStep::Drivers, InitStep::FileSystem, InitStep::Executor, InitStep::SystemCalls] + (
    if shell {
        seq![InitStep::Shell]
    } else {
        Seq::empty()
    }) + seq![InitStep::Parameters, InitStep::Reschedule] + (if prebuilt {
        seq![InitStep::WarnPrebuilt]
    } else {
        Seq::empty()
    }) + seq![InitStep::CRuntime] + (if runtime {
        seq![InitStep::Constructors]
    } else {
        Seq::empty()
    }) + seq![InitStep::Application]
}

/// The steps of setting up the rest, in order. The file system comes before
/// the network, which may write to files. `runtime` says whether the application
/// has constructors.
pub fn initd(shell: bool, prebuilt: bool, runtime: bool) -> (r: Vec<InitStep>)
    ensures
        r@ == init_steps(shell, prebuilt, runtime),
{
    let mut steps: Vec<InitStep> = Vec::new();
    steps.push(InitStep::Drivers);
    steps.push(InitStep::FileSystem);
    steps.push(InitStep::Executor);
    steps.push(InitStep::SystemCalls);
    if shell {
        steps.push(InitStep::Shell);
    }
    steps.push(InitStep::Parameters);
    steps.push(InitStep::Reschedule);
    if prebuilt {
        steps.push(InitStep::WarnPrebuilt);
    }
    steps.push(InitStep::CRuntime);
    if runtime {
        steps.push(InitStep::Constructors);
    }
    steps.push(InitStep::Application);
    assert(steps@ =~= init_steps(shell, prebuilt, runtime));
    steps
}

/// What to do about an entry of the table of constructors.
#[derive(Copy, Clone, Debug, Eq, PartialEq, Structural)]
pub enum Constructor {
    /// It names none: skip it.
    Skip,
    /// Call it.
    Call { func: u64 },
    /// Call it, and look for `value` on the kernel stack before and after.
    CallScanned { func: u64, value: u64 },
}

/// Number of entries of the table of constructors.
pub fn constructor_count(start: u64, end: u64) -> (r: u64)
    requires
        start <= end,
    ensures
        r == (end - start) / 8,
{
    (end - start) / 8
}

/// What to do about an entry of the table of constructors. `value` is what is
/// looked for on the kernel stack, 0 if nothing is.
pub fn constructor(func: u64, value: u64) -> (r: Constructor)
    ensures
        r == (if func == 0 {
            Constructor::Skip
        } else if value != 0 {
            Constructor::CallScanned { func, value }
        } else {
            Constructor::Call { func }
        }),
{
    if func == 0 {
        Constructor::Skip
    } else if value != 0 {
        Constructor::CallScanned { func, value }
    } else {
        Constructor::Call { func }
    }
}

/// What to do about a panic.
pub enum PanicAction {
    /// Halt at once: a core that recovers from a fault must not go on.
    Halt,
    /// Stop the system with code 1. The register frame of the running task was
    /// scanned, if it has one.
    Shutdown { scan: Option<FrameScan> },
}

/// What to do about a panic. `abort_zone` says whether the core was recovering
/// from a fault.
pub fn panic(abort_zone: bool, scheduler: &PerCoreScheduler, machine: &Machine) -> (r: PanicAction)
    requires
        scheduler.wf(machine),
        scheduler.tasks@[scheduler.current_task.0].last_stack_pointer != 0
            ==> crate::memory::frame_mapped(
            machine.memory@,
            scheduler.tasks@[scheduler.current_task.0].last_stack_pointer as int,
        ),
    ensures
        r is Halt == abort_zone,
        r matches PanicAction::Shutdown { scan } ==> {
            let frame = scheduler.tasks@[scheduler.current_task.0].last_stack_pointer as int;
            match scan {
                None => frame == 0,
                Some(s) => {
                    &&& frame != 0
                    &&& s.notes@ == crate::diagnostics::notes(machine.memory@, frame, 36)
                    &&& s.hit_any == crate::diagnostics::magic_within(
                        machine.memory@,
                        frame,
                        0,
                        36,
                    )
                    &&& s.hit_x == crate::diagnostics::magic_within(machine.memory@, frame, 5, 36)
                },
            }
        },
{
    if abort_zone {
        return PanicAction::Halt;
    }
    let lsp: u64 = scheduler.get_last_stack_pointer(machine);
    let scan: Option<FrameScan> = if lsp != 0 {
        Some(crate::diagnostics::dump_frame_magic(&machine.memory, lsp))
    } else {
        None
    };
    PanicAction::Shutdown { scan }
}

/// Where a step of a core's way to its scheduler loop stands among all of them.
pub open spec fn boot_rank(step: BootStep) -> int {
    match step {
        BootStep::ClaimInitialHeap => 0,
        BootStep::InitConsole => 1,
        BootStep::InitEnvironment => 2,
        BootStep::PrintBootargs => 3,
        BootStep::InitLogging => 4,
        BootStep::PrintInformation => 5,
        BootStep::InitBootProcessor => 6,
        BootStep::InitApplicationProcessor => 6,
        BootStep::AddCurrentCore => 7,
        BootStep::EnableInterrupts => 8,
        BootStep::BootNextProcessor => 9,
        BootStep::SynchAllCores => 10,
        BootStep::PrintDevices => 11,
        BootStep::InitExecutor => 11,
        BootStep::SpawnInitd => 12,
        BootStep::RunScheduler => 13,
    }
}

/// The core that boots takes every step that is its own, once and in order: it waits for other
/// cores only if there can be any, and prints devices only where there is support for them. It
/// neither sets itself up as another core nor starts the executor.
pub proof fn lemma_boot_steps_in_order(smp: bool, pci: bool, step: BootStep)
    ensures
        boot_steps(smp, pci).contains(step) <==> !(step is InitApplicationProcessor) && !(
        step is InitExecutor) && (step is SynchAllCores ==> smp) && (step is PrintDevices ==> pci),
        forall|i: int, j: int|
            0 <= i < j < boot_steps(smp, pci).len() ==> boot_rank(
                #[trigger] boot_steps(smp, pci)[i],
            ) < boot_rank(#[trigger] boot_steps(smp, pci)[j]),
{
    let steps = boot_steps(smp, pci);
    let rank = boot_rank(step);
    let skipped = (if rank > 10 && !smp {
        1int
    } else {
        0
    }) + (if rank > 11 && !pci {
        1int
    } else {
        0
    });
    if !(step is InitApplicationProcessor) && !(step is InitExecutor) && (step is SynchAllCores
        ==> smp) && (step is PrintDevices ==> pci) {
        assert(steps[rank - skipped] == step);
    }
}

/// Another core takes the steps from setting up its processor on, once and in order, and the
/// executor is started on it once all cores are there.
pub proof fn lemma_application_steps_in_order(step: BootStep)
    ensures
        application_steps().contains(step) <==> step is InitApplicationProcessor
            || step is AddCurrentCore || step is EnableInterrupts || step is BootNextProcessor
            || step is SynchAllCores || step is InitExecutor || step is RunScheduler,
        forall|i: int, j: int|
            0 <= i < j < application_steps().len() ==> boot_rank(
                #[trigger] application_steps()[i],
            ) < boot_rank(#[trigger] application_steps()[j]),
{
    let steps = application_steps();
    assert(steps[0] is InitApplicationProcessor && steps[1] is AddCurrentCore
        && steps[2] is EnableInterrupts && steps[3] is BootNextProcessor && steps[4] is SynchAllCores
        && steps[5] is InitExecutor && steps[6] is RunScheduler);
}

/// Where a step of setting up the rest stands among all of them.
pub open spec fn init_rank(step: InitStep) -> int {
    match step {
        InitStep::Drivers => 0,
        InitStep::FileSystem => 1,
        InitStep::Executor => 2,
        InitStep::SystemCalls => 3,
        InitStep::Shell => 4,
        InitStep::Parameters => 5,
        InitStep::Reschedule => 6,
        InitStep::WarnPrebuilt => 7,
        InitStep::CRuntime => 8,
        InitStep::Constructors => 9,
        InitStep::Application => 10,
    }
}

/// Every step of setting up the rest comes once and in order; the shell, the warning and the
/// constructors only where they are asked for. The application comes last.
pub proof fn lemma_init_steps_in_order(shell: bool, prebuilt: bool, runtime: bool, step: InitStep)
    ensures
        init_steps(shell, prebuilt, runtime).contains(step) <==> (step is Shell ==> shell) && (
        step is WarnPrebuilt ==> prebuilt) && (step is Constructors ==> runtime),
        forall|i: int, j: int|
            0 <= i < j < init_steps(shell, prebuilt, runtime).len() ==> init_rank(
                #[trigger] init_steps(shell, prebuilt, runtime)[i],
            ) < init_rank(#[trigger] init_steps(shell, prebuilt, runtime)[j]),
{
    let steps = init_steps(shell, prebuilt, runtime);
    let rank = init_rank(step);
    let skipped = (if rank > 4 && !shell {
        1int
    } else {
        0
    }) + (if rank > 7 && !prebuilt {
        1int
    } else {
        0
    }) + (if rank > 9 && !runtime {
        1int
    } else {
        0
    });
    if (step is Shell ==> shell) && (step is WarnPrebuilt ==> prebuilt) && (step is Constructors
        ==> runtime) {
        assert(steps[rank - skipped] == step);
    }
}

/// An entry of the table of constructors is called exactly if it names one, and the stack is
/// looked at only if there is something to look for.
pub proof fn lemma_constructor_effect(func: u64, value: u64, r: Constructor, start: u64, end: u64, n: u64)
    requires
        start <= end,
        call_ensures(constructor, (func, value), r),
        call_ensures(constructor_count, (start, end), n),
    ensures
        r is Skip <==> func == 0,
        r is CallScanned <==> func != 0 && value != 0,
        r matches Constructor::Call { func: f } ==> f == func,
        r matches Constructor::CallScanned { func: f, value: v } ==> f == func && v == value,
        start + 8 * n <= end < start + 8 * n + 8,
{
}

/// A core that arrives is counted once, and the cores go on exactly when as many arrived as are
/// brought up.
pub proof fn lemma_barrier_effect(b: &mut CoreBarrier, r: u32, cores: u32, on: bool)
    requires
        old(b).counter < u32::MAX,
        call_ensures(CoreBarrier::synch_all_cores, (b,), r),
        call_ensures(CoreBarrier::released, (final(b), cores), on),
    ensures
        final(b).counter == old(b).counter + 1,
        r == final(b).counter,
        on <==> old(b).counter + 1 == cores,
{
}

} // verus!
