use std::sync::atomic::{AtomicU32, Ordering};
use std::sync::Arc;
use std::task::{Wake, Waker};

use hermit::arch::aarch64::kernel::context::{cont_switch, Context};
use hermit::arch::aarch64::kernel::continuations::{
    cont_slot_top, cont_stack_top, ContLayout, ContState, ContSwitch, Continuations, Parked,
    CONT_TLS_MAGIC,
};
use hermit::arch::aarch64::kernel::core_local::CoreLocal;
use hermit::arch::aarch64::kernel::interrupts::handlers::Features;
use hermit::arch::aarch64::kernel::interrupts::ids::IrqKind;
use hermit::arch::aarch64::kernel::interrupts::gic::{GicOp, InterruptSpec, Trigger};
use hermit::arch::aarch64::kernel::interrupts::statistics::IrqNames;
use hermit::arch::aarch64::kernel::kernel_stack::{enter_kernel_stack, leave_kernel_stack};
use hermit::arch::aarch64::kernel::slot_pool::SlotPool;
use hermit::arch::aarch64::kernel::start::{
    mair, mair_el1, pre_init, smp_start, tcr_bits, tcr_size, BootRole, EntryStep, _start,
    SCTLR_EL1, SCTLR_EL1_BIG_ENDIAN,
};
use hermit::arch::aarch64::kernel::{
    application_processor_init, boot_core_count, boot_processor_init, conduit, detected_cores, finish_processor_init,
    get_processor_count, linker_supported_cores, max_bootable_cores, protect_stack_guards,
    wake_cores, Conduit, NextProcessor, ProcessorStep, Processors, StackSections,
};
use hermit::boot::{
    application_processor_main, boot_processor_main, constructor, constructor_count, initd,
    spawn_initd, BootStep, Constructor, CoreBarrier, InitStep, PanicAction,
};
use hermit::duration::Duration;
use hermit::executor::{
    init, BlockOn, BlockStep, Drain, Service, Sleep, TaskNotify, WakerRegistration,
};
use hermit::fd::FdTable;
use hermit::memory::Memory;
use hermit::scheduler::boot::add_current_core;
use hermit::scheduler::control::PriorityChange;
use hermit::scheduler::exit::{abort, AbortAction};
use hermit::scheduler::per_core::{Machine, PerCoreScheduler};
use hermit::scheduler::registry::{Provided, TaskRegistry};
use hermit::scheduler::supervisor::RestartTable;
use hermit::scheduler::task::{Priority, TaskId, TaskStatus, HIGH_PRIO, NORMAL_PRIO};
use hermit::syscalls::tasks::{
    sys_abort, sys_clone, sys_get_priority, sys_getpid, sys_getprio, sys_join, sys_kill,
    sys_exit, sys_msleep, sys_nanosleep, sys_set_current_task_priority, sys_set_priority, sys_setprio,
    sys_signal, sys_spawn, sys_spawn2, sys_test_fault, sys_thread_exit, sys_usleep, sys_yield,
    BlockedTasks, Nap, Timespec,
};

fn features() -> Features {
    Features {
        pmr_preempt_spike: false,
        pmr_band: false,
        pmr_coop_net: false,
        continuations: false,
    }
}

fn processors(smp: bool, possible: u32, cores: usize) -> Processors {
    Processors {
        smp,
        possible,
        exception_stacks: cores * 0x2_1000,
        online: 0,
        boot_stack: 0x100,
        current_stack: 0x100,
    }
}

fn sections() -> StackSections {
    StackSections {
        exception_stacks: 0x10_0000,
        irq_stacks: 0x20_0000,
        overflow_stacks: 0x30_0000,
        task_stacks: 0x40_0000,
        reactor_stacks: 0x50_0000,
        idle_stacks: 0x60_0000,
        exception_slots: 0x70_0000,
        exception_slots_end: 0x76_6000,
    }
}

fn layout() -> ContLayout {
    ContLayout {
        stacks: 0x1_0000,
        slots: 0x9_0000,
        stack_size: 0x2000,
        stack_guard: 0x1000,
        slot_size: 0x4000,
        slot_guard: 0x1000,
        max: 4,
    }
}

fn provided(region: u64) -> Provided {
    Provided {
        virt_addr: 0x1000_0000 + region * 0x20_0000,
        phys_addr: 0x8000_0000 + region * 0x20_0000,
        task_start: 0x7000,
        placeholder_entry: 0x7100,
        thread_ptr: None,
    }
}

struct System {
    machine: Machine,
    registry: TaskRegistry,
    scheduler: PerCoreScheduler,
    idle_table: FdTable,
}

fn system() -> System {
    let slots = SlotPool::new(0x4000_0000);
    let mut memory = Memory::new();
    for i in 0..3 {
        memory.map_zeroed(slots.slot_top(0, i) - 288, 36);
    }
    let mut machine = Machine { memory, slots };
    let mut registry = TaskRegistry::new();
    let scheduler =
        add_current_core(0, &mut machine, &mut registry, 0x9000, provided(0)).scheduler;
    System { machine, registry, scheduler, idle_table: FdTable::with_stdio(0, 1, 2) }
}

fn running() -> System {
    let mut sys = system();
    let (tid, _) = sys_spawn2(
        &mut sys.scheduler,
        &mut sys.machine,
        &mut sys.registry,
        0xa000,
        5,
        NORMAL_PRIO,
        0x8000,
        0,
        1,
        provided(1),
        &sys.idle_table,
    );
    assert_eq!(tid, 1);
    sys.scheduler.scheduler(&mut sys.machine, 1);
    assert_eq!(sys.scheduler.get_current_task_id(), TaskId(1));
    sys
}

#[test]
fn cores_are_bounded_by_the_image() {
    let p = processors(true, 8, 4);
    assert_eq!(linker_supported_cores(&p), 4);
    assert_eq!(linker_supported_cores(&processors(true, 8, 0)), 1);
    assert_eq!(max_bootable_cores(&processors(true, 8, 0)), 1);
    assert_eq!(detected_cores(&p), 8);
    assert_eq!(max_bootable_cores(&p), 4);
    assert_eq!(boot_core_count(&p), 4);
    assert_eq!(max_bootable_cores(&processors(true, 2, 4)), 2);
    assert_eq!(max_bootable_cores(&processors(false, 8, 4)), 1);
    assert_eq!(detected_cores(&processors(true, 0, 4)), 1);
    assert_eq!(get_processor_count(&p), 0);
    assert_eq!(get_processor_count(&processors(false, 8, 4)), 1);
}

#[test]
fn guards_of_all_stacks_are_unmapped() {
    let plan = protect_stack_guards(&processors(true, 2, 4), &sections());
    assert_eq!(plan.map, Some((0x70_0000, 0x66)));
    assert_eq!(plan.unmap.len(), 2 * 6 + 6);
    assert_eq!(plan.unmap[0], 0x12_0000);
    assert_eq!(plan.unmap[1], 0x14_1000);
    assert_eq!(plan.unmap[2], 0x20_8000);
    assert_eq!(plan.unmap[12], 0x71_0000);
    assert_eq!(plan.unmap[13], 0x72_1000);
    assert_eq!(plan.unmap[17], 0x76_5000);
    let mut none = sections();
    none.exception_slots_end = none.exception_slots;
    assert_eq!(protect_stack_guards(&processors(true, 2, 4), &none).map, None);
}

#[test]
fn a_core_gets_its_boot_stack() {
    let mut p = processors(true, 4, 4);
    p.boot_stack = 0x10_0000;
    p.current_stack = 0x10_0000;
    let stacks: Vec<u64> = (0..3)
        .map(|core_id| {
            finish_processor_init(&mut p, core_id);
            p.current_stack
        })
        .collect();
    assert_eq!(stacks, vec![0x10_0000, 0x10_9000, 0x11_2000]);
    assert_eq!(p.boot_stack, 0x10_0000);
}

#[test]
fn another_core_is_set_up() {
    let mut p = processors(true, 4, 4);
    p.online = 1;
    let mut names = IrqNames::new();
    let timer = InterruptSpec { kind: IrqKind::Ppi, irq: 14, trigger: Trigger::Level };
    let (core_local, ops) = application_processor_init(
        &mut p,
        &sections(),
        0,
        0x100_0000,
        true,
        Some(timer),
        features(),
        &mut names,
    );
    assert_eq!(core_local.core_id, 1);
    assert_eq!(core_local.exception_sp, 0x10_0000 + 0x2_1000 + 0x2_0000);
    assert_eq!((core_local.rt_nest_depth, core_local.eoi_inflight), (0, 0));
    assert!(!core_local.in_irq);
    assert_eq!(p.current_stack, 0x100 + 0x9000);
    assert!(ops.unwrap().contains(&GicOp::Enable { intid: 30, cpu: 1 }));
    let (_, ops) = application_processor_init(
        &mut p,
        &sections(),
        0,
        0x100_0000,
        false,
        None,
        features(),
        &mut names,
    );
    assert!(ops.is_none());
}

#[test]
fn the_power_interface_has_two_ways() {
    assert_eq!(conduit(b"hvc"), Some(Conduit::Hvc));
    assert_eq!(conduit(b"smc"), Some(Conduit::Smc));
    assert_eq!(conduit(b"hvcx"), None);
    match wake_cores(b"smc", 7, 0x1000, 3) {
        NextProcessor::Wake(calls) => {
            let ids: Vec<(u32, u32)> = calls.iter().map(|c| (c.cpu_id, c.wait_for)).collect();
            assert_eq!(ids, vec![(1, 2), (2, 3)]);
        }
        _ => panic!("no cores were woken"),
    }
    assert!(matches!(wake_cores(b"", 7, 0, 3), NextProcessor::Unsupported));
}

#[test]
fn start_values() {
    assert_eq!(tcr_size(48), 16 * 0x1_0001);
    assert_eq!(mair(0xff, 4), 0xff_0000_0000);
    assert_eq!(mair_el1(), 0xff_440c_0400);
    assert_eq!(tcr_bits(), 0x3510_3510);
    assert_eq!(pre_init(0, false), BootRole::Boot);
    assert_eq!(pre_init(1, true), BootRole::Application);
    assert_eq!(pre_init(1, false), BootRole::Halt);
}

#[test]
fn core_local_data() {
    let mut c = CoreLocal::install(1, 0x10_0000, 0, 0x100_0000);
    assert_eq!(c.scratch_slot(), 0x14_1000);
    c.clear_scratch_slot();
    assert_eq!(c.scratch_slot(), 0);
    c.set_kernel_sp(0x77);
    assert_eq!(c.kernel_sp, 0x77);
    c.increment_irq_counter(3);
    let mut other = hermit::arch::x86_64::kernel::core_local::CoreLocal::install(2, 0);
    other.increment_irq_counter(4);
    assert_eq!((other.core_id, other.tss, other.kernel_stack), (2, 0, 0));
}

#[test]
fn continuation_stacks_do_not_overlap() {
    assert_eq!(cont_stack_top(&layout(), 0, 0), 0x1_2000);
    assert_eq!(cont_stack_top(&layout(), 0, 1), 0x1_5000);
    assert_eq!(cont_stack_top(&layout(), 1, 0), 0x1_e000);
    assert_eq!(cont_slot_top(&layout(), 0, 3), 0x9_0000 + 3 * 0x5000 + 0x4000);
}

#[test]
fn a_continuation_parks_and_is_resumed() {
    let mut memory = Memory::new();
    memory.map_zeroed(0x1_2000 - 288, 36);
    let mut conts = Continuations::new();
    assert!(!conts.continuation_maybe_trigger(0, false));
    assert!(!conts.continuation_maybe_trigger(1, true));
    assert!(conts.continuation_maybe_trigger(0, true));
    assert!(!conts.continuation_maybe_trigger(0, true));
    let started =
        conts.spawn_continuation(&layout(), 0, &mut memory, 0xc0de, 0x5000, 0x6000);
    assert_eq!(started.save, 0x5000);
    assert_eq!(started.target, 0x1_2000 - 288);
    assert_eq!(started.target_slot, 0x9_4000);
    assert_eq!(memory.read(0x1_2000 - 288 + 8), 0xc0de);
    assert_eq!(memory.read(0x1_2000 - 288 + 32), CONT_TLS_MAGIC);
    assert!(conts.harness_passed(CONT_TLS_MAGIC, 1, 1));
    assert!(!conts.harness_passed(CONT_TLS_MAGIC, 1, 1));
    match conts.park_on() {
        Parked::Switch { switch, sgi } => {
            assert_eq!(switch.save, 0x1_2000 - 288);
            assert_eq!(switch.target, 0x5000);
            assert_eq!(switch.target_slot, 0x6000);
            assert!(sgi.is_some());
        }
        Parked::Woken => panic!("nobody woke it"),
    }
    assert_eq!(conts.conts[0].state, ContState::Parked);
    assert!(conts.drain_ready(0x5100, 0x6100).is_none());
    conts.coop_wake();
    let resumed = conts.drain_ready(0x5100, 0x6100).unwrap();
    assert_eq!(resumed.save, 0x5100);
    assert_eq!(resumed.target, 0x1_2000 - 288);
    assert!(conts.drain_ready(0x5100, 0x6100).is_none());
    match conts.park_final() {
        Parked::Switch { switch, sgi } => {
            assert_eq!(switch.target, 0x5100);
            assert_eq!(sgi, None);
        }
        Parked::Woken => panic!("nobody woke it"),
    }
}

#[test]
fn a_wake_before_parking_is_used_up() {
    let mut memory = Memory::new();
    memory.map_zeroed(0x1_2000 - 288, 36);
    let mut conts = Continuations::new();
    conts.spawn_continuation(&layout(), 0, &mut memory, 0xc0de, 0x5000, 0x6000);
    conts.conts[0].pending_wake = true;
    assert_eq!(conts.park_on(), Parked::Woken);
    assert!(matches!(conts.park_on(), Parked::Switch { .. }));
    let mut none = Continuations::new();
    none.coop_wake();
    assert!(none.drain_ready(0, 0).is_none());
}

struct Count(AtomicU32);

impl Wake for Count {
    fn wake(self: Arc<Self>) {
        self.0.fetch_add(1, Ordering::SeqCst);
    }
}

#[test]
fn the_registered_task_is_woken_once() {
    let a = Arc::new(Count(AtomicU32::new(0)));
    let b = Arc::new(Count(AtomicU32::new(0)));
    let mut registration = WakerRegistration::new();
    registration.wake();
    registration.register(&Waker::from(a.clone()));
    registration.register(&Waker::from(b.clone()));
    registration.wake();
    registration.wake();
    assert_eq!(a.0.load(Ordering::SeqCst), 0);
    assert_eq!(b.0.load(Ordering::SeqCst), 1);
    let w = Waker::from(a.clone());
    registration.register(&w);
    registration.register(&w);
    assert!(registration.waker.as_ref().unwrap().will_wake(&w));
    registration.wake();
    assert_eq!(a.0.load(Ordering::SeqCst), 1);
}

#[test]
fn a_waker_of_the_same_task_is_kept() {
    let a = Waker::from(Arc::new(Count(AtomicU32::new(0))));
    let b = Waker::from(Arc::new(Count(AtomicU32::new(0))));
    let mut registration = WakerRegistration::new();
    registration.register_unless(&a, true);
    assert!(registration.waker.as_ref().unwrap().will_wake(&a));
    registration.register_unless(&b, true);
    registration.register_unless(&b, true);
    assert!(registration.waker.as_ref().unwrap().will_wake(&a));
    registration.register_unless(&b, false);
    assert!(registration.waker.as_ref().unwrap().will_wake(&b));
}

#[test]
fn no_wake_is_lost() {
    let mut notify = TaskNotify::new();
    assert!(!notify.wake_by_ref());
    assert_eq!(notify.wait(Some(7)), None);
    assert_eq!(notify.wait(Some(7)), Some(Sleep { timeout: Some(7) }));
    assert!(notify.wake_by_ref());
    notify.time_up();
    assert!(!notify.wake_by_ref());
}

#[test]
fn the_executor_runs_a_bounded_while() {
    let mut c = CoreLocal::install(0, 0x10_0000, 0, 0x100_0000);
    let mut drain = Drain::run(&c, features()).unwrap();
    let turns = (0..10).filter(|_| drain.goes_on(true)).count();
    assert_eq!(turns, 3);
    let mut drain = Drain::run(&c, features()).unwrap();
    assert!(!drain.goes_on(false));
    c.in_irq = true;
    let band = Features { pmr_band: true, ..features() };
    assert!(Drain::run(&c, band).is_none());
    assert!(Drain::run(&c, features()).is_some());
}

#[test]
fn services_are_started() {
    assert_eq!(init(true, true, true), vec![Service::Network, Service::Vsock, Service::AllocStats]);
    assert_eq!(init(false, true, false), vec![Service::Vsock]);
    assert_eq!(init(false, false, false), vec![]);
}

#[test]
fn a_task_waits_for_a_future() {
    let forever = BlockOn { start: 100, timeout: None };
    assert_eq!(forever.step(true, 200, false), BlockStep::Return);
    assert_eq!(forever.step(false, 200, false), BlockStep::Snooze);
    assert_eq!(forever.step(false, 200, true), BlockStep::Park { wakeup_time: None });
    let limited = BlockOn { start: 100, timeout: Some(Duration::from_micros(50)) };
    assert_eq!(limited.step(false, 149, false), BlockStep::Snooze);
    assert_eq!(limited.step(false, 149, true), BlockStep::Park { wakeup_time: Some(50) });
    assert_eq!(limited.step(false, 150, true), BlockStep::TimedOut);
    assert_eq!(limited.step(true, 150, true), BlockStep::Return);
}

#[test]
fn calls_that_are_not_there() {
    assert_eq!(sys_getpid(), 0);
    assert_eq!(sys_setprio(), -38);
    assert_eq!(sys_kill(), -38);
    assert_eq!(sys_signal(), 0);
    assert_eq!(sys_exit(3).code, 3);
    assert_eq!(sys_test_fault(), AbortAction::EndTask { exit_code: -1 });
}

#[test]
fn times_to_sleep() {
    let mut sys = running();
    let (s, m) = (&mut sys.scheduler, &sys.machine);
    assert_eq!(sys_usleep(s, m, 0, 5, 6, 7), Nap::Nothing);
    assert_eq!(sys_usleep(s, m, 9_999, 5, 6, 7), Nap::Busy { end: 69_999 });
    assert_eq!(sys_msleep(s, m, 7, 5, 6, 7), Nap::Busy { end: 49_006 });
    let short = Timespec { tv_sec: 0, tv_nsec: 5_999 };
    assert_eq!(sys_nanosleep(s, m, short, 5, 6, 7), (0, Nap::Busy { end: 41 }));
    let before = Timespec { tv_sec: -1, tv_nsec: 0 };
    assert_eq!(sys_nanosleep(s, m, before, 5, 6, 7), (-22, Nap::Nothing));
    let too_many = Timespec { tv_sec: 0, tv_nsec: 1_000_000_000 };
    assert_eq!(sys_nanosleep(s, m, too_many, 5, 6, 7), (-22, Nap::Nothing));
    assert_eq!(sys.scheduler.tasks.get(TaskId(1)).status, TaskStatus::Running);
    assert_eq!(sys_usleep(&mut sys.scheduler, &sys.machine, 10_000, 5, 6, 7), Nap::Blocked);
    assert_eq!(sys.scheduler.timer_requests, vec![10_005]);
    assert_eq!(sys.scheduler.tasks.get(TaskId(1)).status, TaskStatus::Blocked);
}

#[test]
fn long_times_block() {
    let mut sys = running();
    let time = Timespec { tv_sec: 2, tv_nsec: 5_000 };
    let r = sys_nanosleep(&mut sys.scheduler, &sys.machine, time, 10, 0, 1);
    assert_eq!(r, (0, Nap::Blocked));
    assert_eq!(sys.scheduler.timer_requests, vec![2_000_015]);
    let mut sys = running();
    assert_eq!(sys_msleep(&mut sys.scheduler, &sys.machine, 10, 1, 0, 1), Nap::Blocked);
    assert_eq!(sys.scheduler.timer_requests, vec![10_001]);
}

#[test]
fn threads_end_and_yield_by_system_call() {
    let mut sys = running();
    let value = sys_yield(&sys.scheduler, true);
    assert_eq!(value, sys.scheduler.reschedule(true));
    let mut restarts = RestartTable::default_table();
    let (s, m, r) = (&mut sys.scheduler, &mut sys.machine, &mut sys.registry);
    let ended = sys_thread_exit(s, m, r, &mut restarts, 3, 0, 1, 4);
    assert!(ended.restart.is_none());
    assert_eq!(sys.scheduler.tasks.get(TaskId(1)).status, TaskStatus::Finished);
}

#[test]
fn priorities_by_system_call() {
    let mut sys = running();
    assert_eq!(sys_getprio(&sys.scheduler, &sys.machine, None), 2);
    assert_eq!(sys_getprio(&sys.scheduler, &sys.machine, Some(1)), 2);
    assert_eq!(sys_getprio(&sys.scheduler, &sys.machine, Some(0)), -22);
    assert_eq!(sys_get_priority(&sys.scheduler, &sys.machine), 2);
    sys_set_current_task_priority(&mut sys.scheduler, &sys.machine, HIGH_PRIO);
    assert_eq!(sys_get_priority(&sys.scheduler, &sys.machine), 3);
    let r = sys_set_priority(&mut sys.scheduler, &sys.machine, &sys.registry, 1, 1);
    assert_eq!(r, PriorityChange::Changed);
    assert_eq!(sys_get_priority(&sys.scheduler, &sys.machine), 1);
}

#[test]
fn tasks_by_system_call() {
    let mut sys = running();
    let (r, spawned) = sys_spawn(
        &mut sys.scheduler,
        &mut sys.machine,
        &mut sys.registry,
        0xb000,
        6,
        HIGH_PRIO,
        0,
        1,
        provided(2),
        &sys.idle_table,
    );
    assert_eq!(r, 0);
    assert_eq!(spawned.tid, TaskId(2));
    assert_eq!(spawned.user_mapping.pages, 0x100);
    let (r, cloned) = sys_clone(
        &mut sys.scheduler,
        &mut sys.machine,
        &mut sys.registry,
        0xc000,
        7,
        1,
        provided(3),
        &sys.idle_table,
    );
    assert_eq!(r, 0);
    assert_eq!(sys.scheduler.tasks.get(cloned.tid).prio, Priority(NORMAL_PRIO));
    assert_eq!(sys_join(&mut sys.scheduler, &sys.machine, &mut sys.registry, 2), None);
    sys.scheduler.scheduler(&mut sys.machine, 2);
    assert_eq!(sys.scheduler.get_current_task_id(), TaskId(2));
    assert_eq!(sys_join(&mut sys.scheduler, &sys.machine, &mut sys.registry, 99), Some(0));
    let mut restarts = RestartTable::default_table();
    sys.scheduler.exit(&mut sys.machine, &mut sys.registry, &mut restarts, 3, 0, 1);
    assert_eq!(sys.scheduler.tasks.get(TaskId(1)).status, TaskStatus::Ready);
}

#[test]
fn tasks_block_and_wake_by_system_call() {
    let mut sys = running();
    let mut blocked = BlockedTasks::new();
    assert!(blocked.handle_of(1).is_none());
    blocked.sys_block_current_task(&mut sys.scheduler, &sys.machine);
    assert_eq!(blocked.handle_of(1).unwrap().get_id(), TaskId(1));
    sys.scheduler.scheduler(&mut sys.machine, 2);
    assert_eq!(sys.scheduler.get_current_task_id(), TaskId(0));
    blocked.sys_wakeup_task(&mut sys.scheduler, &sys.machine, &mut sys.registry, 55);
    assert_eq!(sys.scheduler.tasks.get(TaskId(1)).status, TaskStatus::Blocked);
    blocked.sys_wakeup_task(&mut sys.scheduler, &sys.machine, &mut sys.registry, 1);
    assert_eq!(sys.scheduler.tasks.get(TaskId(1)).status, TaskStatus::Ready);
    sys.scheduler.scheduler(&mut sys.machine, 3);
    blocked.sys_block_current_task_with_timeout(&mut sys.scheduler, &sys.machine, 4, 10);
    assert_eq!(sys.scheduler.timer_requests, vec![4_010]);
}

#[test]
fn an_abort_scans_the_frame() {
    let mut sys = running();
    let frame = sys.scheduler.get_last_stack_pointer(&sys.machine);
    sys.machine.memory.write(frame, 0x6000_0207);
    let (scan, shutdown) = sys_abort(&sys.scheduler, &sys.machine);
    assert!(scan.unwrap().hit_any);
    assert_eq!(shutdown.code, -1);
}

#[test]
fn boot_goes_step_by_step() {
    let steps = boot_processor_main(true, false);
    assert_eq!(steps.len(), 13);
    assert_eq!(steps[10], BootStep::SynchAllCores);
    assert_eq!(steps[12], BootStep::RunScheduler);
    assert!(!boot_processor_main(false, true).contains(&BootStep::SynchAllCores));
    assert!(boot_processor_main(false, true).contains(&BootStep::PrintDevices));
    let steps = application_processor_main();
    let add = steps.iter().position(|s| *s == BootStep::AddCurrentCore).unwrap();
    let enable = steps.iter().position(|s| *s == BootStep::EnableInterrupts).unwrap();
    assert!(add < enable);
}

#[test]
fn the_rest_is_set_up_in_order() {
    assert_eq!(
        initd(false, true, true),
        vec![
            InitStep::Drivers,
            InitStep::FileSystem,
            InitStep::Executor,
            InitStep::SystemCalls,
            InitStep::Parameters,
            InitStep::Reschedule,
            InitStep::WarnPrebuilt,
            InitStep::CRuntime,
            InitStep::Constructors,
            InitStep::Application,
        ]
    );
    assert!(initd(true, false, false).contains(&InitStep::Shell));
    assert_eq!(constructor_count(0x1000, 0x1018), 3);
    assert_eq!(constructor(0, 5), Constructor::Skip);
    assert_eq!(constructor(9, 0), Constructor::Call { func: 9 });
    assert_eq!(constructor(9, 5), Constructor::CallScanned { func: 9, value: 5 });
}

#[test]
fn the_first_task_is_spawned() {
    let mut sys = system();
    let spawned = spawn_initd(
        &mut sys.scheduler,
        &mut sys.machine,
        &mut sys.registry,
        0xd000,
        provided(1),
        &sys.idle_table,
    );
    assert_eq!(spawned.tid, TaskId(1));
    let task = sys.scheduler.tasks.get(TaskId(1));
    assert_eq!(task.prio, Priority(NORMAL_PRIO));
    assert_eq!(task.entry, 0xd000);
    assert_eq!(task.stacks.get_user_stack_size(), 0x10_0000);
}

#[test]
fn all_cores_meet() {
    let mut barrier = CoreBarrier { counter: 0 };
    assert_eq!(barrier.synch_all_cores(), 1);
    assert!(!barrier.released(2));
    assert_eq!(barrier.synch_all_cores(), 2);
    assert!(barrier.released(2));
}

#[test]
fn a_panic_shuts_down() {
    let sys = running();
    assert!(matches!(hermit::boot::panic(true, &sys.scheduler, &sys.machine), PanicAction::Halt));
    match hermit::boot::panic(false, &sys.scheduler, &sys.machine) {
        PanicAction::Shutdown { scan } => assert!(!scan.unwrap().hit_any),
        PanicAction::Halt => panic!("it should shut down"),
    }
}

#[test]
fn the_boot_core_is_set_up_in_order() {
    let steps = boot_processor_init(false);
    assert_eq!(steps.len(), 12);
    assert_eq!(steps[3], ProcessorStep::ProtectStackGuards);
    assert_eq!(steps[11], ProcessorStep::ReleaseCores);
    assert_eq!(boot_processor_init(true)[10], ProcessorStep::InitPci);
}

#[test]
fn an_abort_ends_the_task_or_halts() {
    assert_eq!(abort(true), AbortAction::EndTask { exit_code: -1 });
    assert_eq!(abort(false), AbortAction::Halt);
    let mut sys = running();
    assert!(!sys.scheduler.keeps_fpu(&sys.machine));
    sys.scheduler.fpu_owner = TaskId(1);
    assert!(sys.scheduler.keeps_fpu(&sys.machine));
    assert!(system().scheduler.keeps_fpu(&system().machine));
}

#[test]
fn cores_wait_at_the_entry_point() {
    assert_eq!(_start(0x8000_0001, false, 0, 7, 0x10_0000), EntryStep::Park);
    assert_eq!(_start(0x8000_0001, true, 0, 7, 0x10_0000), EntryStep::Join);
    assert_eq!(
        _start(0x8000_0000, false, 0, 7, 0x10_0000),
        EntryStep::Boot { current_stack: 7, sp_el1: 0x12_0000 }
    );
    assert_eq!(
        _start(0x8000_0000, true, 9, 7, 0x10_0000),
        EntryStep::Boot { current_stack: 9, sp_el1: 0x12_0000 }
    );
}

#[test]
fn another_core_gets_its_registers() {
    let setup = smp_start(0x8000_0002, 0x1125, false, 0, 7, 0x10_0000);
    assert_eq!(setup.mair, 0xff_440c_0400);
    assert_eq!(setup.tcr, 0x5_3510_3510);
    assert_eq!(setup.cpacr, 3 << 20);
    assert_eq!(setup.sctlr, 0b100_0000_0101_1101_0000_0001_1101);
    assert_eq!(setup.sctlr, SCTLR_EL1);
    let big = smp_start(0x8000_0002, 0x1125, true, 0, 7, 0x10_0000);
    assert_eq!(big.sctlr, 0b111_0000_0101_1101_0000_0001_1101);
    assert_eq!(big.sctlr, SCTLR_EL1_BIG_ENDIAN);
    assert_eq!(big.tcr, setup.tcr);
    assert_eq!(setup.current_stack, 7);
    assert_eq!(setup.cpu_id, 2);
    let core_local = CoreLocal::install(2, 0x10_0000, 0, 0x100_0000);
    assert_eq!(setup.sp_el1, core_local.exception_sp);
}

#[test]
fn a_switch_and_back_keeps_the_registers() {
    let mut memory = Memory::new();
    memory.map_zeroed(0x1000, 36);
    memory.map_zeroed(0x2000, 36);
    memory.write(0x2008, 0xe000);
    memory.write(0x2018, 0x9000);
    let mut core_local = CoreLocal::install(0, 0x10_0000, 0, 0x100_0000);
    let task = Context { spsel: 1, sp: 0x5000, tpidr_el0: 0x77, x: (100..131).collect() };
    let there =
        ContSwitch { save: 0x1000, target: 0x2000, target_slot: 0x6000, cur: 0x2000 };
    let first = cont_switch(&mut core_local, &mut memory, &there, &task);
    assert_eq!(core_local.scratch_slot, 0x6000);
    assert_eq!((first.pc, first.sp_el1, first.sp_el0), (0xe000, 0x6000, Some(0x9000)));
    let cont = Context { spsel: 0, sp: 0x8f00, tpidr_el0: 0x88, x: (200..231).collect() };
    let back = ContSwitch { save: 0x2000, target: 0x1000, target_slot: 0x7000, cur: 0x1000 };
    let second = cont_switch(&mut core_local, &mut memory, &back, &cont);
    assert_eq!(core_local.scratch_slot, 0x7000);
    assert_eq!(second.x, task.x);
    assert_eq!((second.pc, second.spsr), (130, 0x3c5));
    assert_eq!((second.sp_el1, second.sp_el0, second.tpidr_el0), (0x5000, None, 0x77));
    let third = cont_switch(&mut core_local, &mut memory, &there, &task);
    assert_eq!(third.x, cont.x);
    assert_eq!((third.sp_el1, third.sp_el0), (0x6000, Some(0x8f00)));
}

#[test]
fn the_kernel_stack_is_left_as_it_was() {
    let mut core_local = CoreLocal::install(0, 0x10_0000, 0, 0x100_0000);
    core_local.set_kernel_sp(0x4_4000);
    let call = enter_kernel_stack(&core_local, 0x7_7000);
    assert_eq!((call.saved_sp, call.sp), (0x7_7000, 0x4_4000));
    core_local.clear_scratch_slot();
    assert_eq!(leave_kernel_stack(&mut core_local, call), 0x7_7000);
    assert_eq!(core_local.scratch_slot(), 0x7_7000);
}
