use hermit::arch::aarch64::kernel::core_local::CoreLocal;
use hermit::arch::aarch64::kernel::interrupts::fault_report::ReturnTrace;
use hermit::arch::aarch64::kernel::interrupts::frame_dump::FrameDumps;
use hermit::arch::aarch64::kernel::interrupts::handlers::Features;
use hermit::arch::aarch64::kernel::interrupts::irq::{finish_irq, EndOfInterrupt};
use hermit::arch::aarch64::kernel::interrupts::sync::{do_sync, SyncAction, SyncOutcome, SyncRegs};
use hermit::arch::aarch64::kernel::slot_pool::SlotPool;
use hermit::config::DEFAULT_STACK_SIZE;
use hermit::fd::FdTable;
use hermit::memory::Memory;
use hermit::scheduler::boot::{add_current_core, AddedCore, IdleAction};
use hermit::scheduler::control::PriorityChange;
use hermit::scheduler::exit::RestartRequest;
use hermit::scheduler::input::{join, JoinStep};
use hermit::scheduler::per_core::{Machine, PerCoreScheduler};
use hermit::scheduler::registry::{Provided, TaskRegistry};
use hermit::scheduler::spawn::spawn;
use hermit::scheduler::supervisor::{RestartPolicy, RestartTable};
use hermit::scheduler::task::{
    FpuState, FrameLocation, Priority, TaskId, TaskStatus, HIGH_PRIO, IDLE_PRIO, LOW_PRIO,
    NORMAL_PRIO,
};

const SLOTS: u64 = 0x4000_0000;
const STACKS: u64 = 0x1000_0000;
const FRAMES: u64 = 0x8000_0000;

struct System {
    machine: Machine,
    registry: TaskRegistry,
    scheduler: PerCoreScheduler,
    idle_table: FdTable,
    regions: u64,
}

fn provided(region: u64) -> Provided {
    Provided {
        virt_addr: STACKS + region * 0x10_0000,
        phys_addr: FRAMES + region * 0x10_0000,
        task_start: 0x7000,
        placeholder_entry: 0x7100,
        thread_ptr: None,
    }
}

fn machine(cores: u32) -> Machine {
    let slots = SlotPool::new(SLOTS);
    let mut memory = Memory::new();
    for core_id in 0..cores {
        for i in 0..3 {
            memory.map_zeroed(slots.slot_top(core_id, i) - 288, 36);
        }
    }
    Machine { memory, slots }
}

fn system() -> System {
    let mut machine = machine(2);
    let mut registry = TaskRegistry::new();
    let added: AddedCore =
        add_current_core(0, &mut machine, &mut registry, 0x9000, provided(0));
    System {
        machine,
        registry,
        scheduler: added.scheduler,
        idle_table: FdTable::with_stdio(10, 11, 12),
        regions: 1,
    }
}

impl System {
    fn spawn(&mut self, func: u64, prio: u8) -> TaskId {
        let p = provided(self.regions);
        self.regions += 1;
        self.scheduler
            .spawn(
                &mut self.machine,
                &mut self.registry,
                func,
                7,
                Priority::from(prio),
                0,
                0x8000,
                p,
                &self.idle_table,
            )
            .tid
    }

    fn schedule(&mut self, now: u64) -> TaskId {
        self.scheduler.scheduler(&mut self.machine, now);
        self.scheduler.get_current_task_id()
    }

    fn status(&self, id: TaskId) -> TaskStatus {
        self.scheduler.tasks.get(id).status
    }
}

#[test]
fn a_new_core_runs_its_idle_task() {
    let mut machine = machine(1);
    let mut registry = TaskRegistry::new();
    let added = add_current_core(0, &mut machine, &mut registry, 0x9000, provided(0));
    let s = added.scheduler;
    assert_eq!(s.get_current_task_id(), TaskId(0));
    assert_eq!(s.idle_task, TaskId(0));
    assert_eq!(s.fpu_owner, TaskId(0));
    assert_eq!(s.tasks.get(TaskId(0)).status, TaskStatus::Idle);
    assert_eq!(s.get_current_task_prio(&machine), Priority(IDLE_PRIO));
    assert_eq!(registry.tid_counter, 1);
    assert_eq!(registry.no_tasks, 0);
    assert_eq!(registry.inputs.len(), 1);
    assert_eq!(added.kernel_mapping.virt_addr, STACKS + 0x1000);
    assert_eq!(added.kernel_mapping.pages, 0x20);
    assert_eq!(added.user_mapping.virt_addr, STACKS + 0x2_2000);
    assert_eq!(added.user_mapping.phys_addr, FRAMES + DEFAULT_STACK_SIZE as u64);
    assert_eq!(added.user_mapping.pages, 0x20);
    let frame = s.tasks.get(TaskId(0)).last_stack_pointer;
    assert_eq!(machine.memory.read(frame + 8), 0x7000);
    assert_eq!(machine.memory.read(frame + 8 * 5), 0x9000);
    assert_eq!(machine.memory.read(frame + 8 * 6), 0);
}

#[test]
fn the_highest_priority_runs_first() {
    let mut sys = system();
    let low = sys.spawn(0xa000, LOW_PRIO);
    let high = sys.spawn(0xb000, HIGH_PRIO);
    let normal = sys.spawn(0xc000, NORMAL_PRIO);
    assert_eq!(sys.registry.no_tasks, 3);
    assert_eq!(*sys.scheduler.get_priority_bitmap(), 0b1110);
    assert!(sys.scheduler.is_scheduling(&sys.machine));
    assert_eq!(sys.schedule(1), high);
    assert_eq!(sys.status(high), TaskStatus::Running);
    assert_eq!(sys.status(normal), TaskStatus::Ready);
    assert!(!sys.scheduler.is_scheduling(&sys.machine));
    assert_eq!(sys.schedule(2), high);
    sys.scheduler.block_current_task(&sys.machine, None);
    assert_eq!(sys.schedule(3), normal);
    sys.scheduler.block_current_task(&sys.machine, None);
    assert_eq!(sys.schedule(4), low);
    sys.scheduler.block_current_task(&sys.machine, None);
    assert_eq!(sys.schedule(5), TaskId(0));
    assert_eq!(sys.status(TaskId(0)), TaskStatus::Idle);
}

#[test]
fn equals_take_turns() {
    let mut sys = system();
    let a = sys.spawn(0xa000, NORMAL_PRIO);
    let b = sys.spawn(0xb000, NORMAL_PRIO);
    let c = sys.spawn(0xc000, NORMAL_PRIO);
    assert_eq!(sys.schedule(1), a);
    assert_eq!(sys.schedule(2), b);
    assert_eq!(sys.status(a), TaskStatus::Ready);
    assert_eq!(sys.schedule(3), c);
    assert_eq!(sys.schedule(4), a);
}

#[test]
fn the_switch_names_the_previous_task() {
    let mut sys = system();
    let a = sys.spawn(0xa000, NORMAL_PRIO);
    let r = sys.scheduler.scheduler(&mut sys.machine, 1);
    assert_eq!(r.previous, Some(TaskId(0)));
    assert_eq!(sys.scheduler.get_current_task_id(), a);
    let r = sys.scheduler.scheduler(&mut sys.machine, 2);
    assert_eq!(r.previous, None);
    assert_eq!(r.reaped.len(), 0);
    assert!(!r.poke_reactor);
}

#[test]
fn a_dispatched_task_gets_a_slot_with_its_frame() {
    let mut sys = system();
    let a = sys.spawn(0xa000, NORMAL_PRIO);
    let frame = sys.scheduler.tasks.get(a).last_stack_pointer;
    let before: Vec<u64> = (0..36).map(|w| sys.machine.memory.read(frame + 8 * w)).collect();
    assert_eq!(sys.schedule(5), a);
    let task = sys.scheduler.tasks.get(a);
    assert_eq!(task.slot, Some(0));
    assert_eq!(task.frame_location, FrameLocation::InSlot);
    assert_eq!(task.last_stack_pointer, SLOTS + 0x1_0000 - 288);
    assert_eq!(task.last_touch.as_micros(), 5);
    let after: Vec<u64> =
        (0..36).map(|w| sys.machine.memory.read(task.last_stack_pointer + 8 * w)).collect();
    assert_eq!(before, after);
}

#[test]
fn a_blocked_task_gives_up_its_slot_and_resumes_with_the_same_frame() {
    let mut sys = system();
    let ids: Vec<TaskId> = (0..4).map(|k| sys.spawn(0xa000 + k, NORMAL_PRIO)).collect();
    for (k, id) in ids.iter().take(3).enumerate() {
        assert_eq!(sys.schedule(10 + k as u64), *id);
        assert_eq!(sys.scheduler.tasks.get(*id).slot, Some(k));
        let frame = sys.scheduler.tasks.get(*id).last_stack_pointer;
        sys.machine.memory.write(frame + 8 * 35, 0x1000 + k as u64);
        sys.scheduler.block_current_task(&sys.machine, None);
    }
    assert_eq!(sys.schedule(1_000_000), ids[3]);
    assert_eq!(sys.scheduler.tasks.get(ids[3]).slot, Some(0));
    let victim = sys.scheduler.tasks.get(ids[0]);
    assert_eq!(victim.slot, None);
    assert_eq!(victim.frame_location, FrameLocation::Evicted);
    assert_eq!(sys.machine.memory.read(victim.last_stack_pointer + 8 * 35), 0x1000);
    let handle = sys.registry.get_task_handle(ids[0]).unwrap();
    sys.scheduler.custom_wakeup(&sys.machine, &mut sys.registry, handle);
    assert_eq!(sys.schedule(2_000_000), ids[0]);
    let resumed = sys.scheduler.tasks.get(ids[0]);
    assert_eq!(resumed.slot, Some(1));
    assert_eq!(resumed.frame_location, FrameLocation::InSlot);
    assert_eq!(sys.machine.memory.read(resumed.last_stack_pointer + 8 * 35), 0x1000);
    assert_eq!(
        sys.machine
            .memory
            .read(sys.scheduler.tasks.get(ids[1]).last_stack_pointer + 8 * 35),
        0x1001
    );
}

#[test]
fn a_sleeping_task_wakes_when_its_time_is_over() {
    let mut sys = system();
    let a = sys.spawn(0xa000, NORMAL_PRIO);
    assert_eq!(sys.schedule(1), a);
    sys.scheduler.block_current_task(&sys.machine, Some(500));
    assert_eq!(sys.scheduler.timer_requests, vec![500]);
    assert_eq!(sys.schedule(2), TaskId(0));
    assert!(sys.scheduler.handle_waiting_tasks(&sys.machine, 500));
    assert_eq!(sys.status(a), TaskStatus::Blocked);
    sys.scheduler.wake_pending_tasks(&sys.machine, 501);
    assert_eq!(sys.status(a), TaskStatus::Ready);
    assert_eq!(sys.schedule(600), a);
    assert!(sys.scheduler.drains_executor(true));
    assert!(!sys.scheduler.drains_executor(false));
}

#[test]
fn tasks_wake_in_the_order_of_their_times() {
    let mut sys = system();
    let ids: Vec<TaskId> = (0..3).map(|k| sys.spawn(0xa000 + k, NORMAL_PRIO)).collect();
    for (id, time) in ids.iter().zip([300u64, 100, 200]) {
        assert_eq!(sys.schedule(1), *id);
        sys.scheduler.block_current_task(&sys.machine, Some(time));
    }
    assert_eq!(sys.schedule(2), TaskId(0));
    assert_eq!(sys.scheduler.blocked_tasks.iter(), vec![ids[1], ids[2], ids[0]]);
    sys.scheduler.handle_waiting_tasks(&sys.machine, 250);
    assert_eq!(sys.status(ids[0]), TaskStatus::Blocked);
    assert_eq!(sys.schedule(260), ids[1]);
    assert_eq!(sys.schedule(261), ids[2]);
}

#[test]
fn an_ended_task_is_released_and_wakes_who_waits() {
    let mut sys = system();
    let child = sys.spawn(0xa000, NORMAL_PRIO);
    let parent = sys.spawn(0xb000, HIGH_PRIO);
    let mut restarts = RestartTable::default_table();
    assert_eq!(sys.schedule(1), parent);
    assert_eq!(join(&mut sys.scheduler, &sys.machine, &mut sys.registry, child), JoinStep::Wait);
    assert_eq!(sys.status(parent), TaskStatus::Blocked);
    assert_eq!(sys.schedule(2), child);
    let r = sys.scheduler.exit(
        &mut sys.machine,
        &mut sys.registry,
        &mut restarts,
        3,
        0x1000,
        0x10_0000,
    );
    assert_eq!(r.restart, None);
    assert!(r.scan.is_some());
    assert_eq!(sys.registry.no_tasks, 1);
    assert_eq!(sys.status(parent), TaskStatus::Ready);
    let r = sys.scheduler.scheduler(&mut sys.machine, 4);
    assert_eq!(sys.scheduler.get_current_task_id(), parent);
    assert_eq!(r.previous, Some(child));
    assert_eq!(sys.status(child), TaskStatus::Invalid);
    let r = sys.scheduler.scheduler(&mut sys.machine, 5);
    assert_eq!(r.reaped.len(), 1);
    assert_eq!(r.reaped[0].id, child);
    assert!(r.poke_reactor);
    assert!(!sys.scheduler.tasks.contains(child));
    assert_eq!(join(&mut sys.scheduler, &sys.machine, &mut sys.registry, child), JoinStep::Done);
}

#[test]
fn the_slot_of_an_ended_task_is_free_again() {
    let mut sys = system();
    let a = sys.spawn(0xa000, NORMAL_PRIO);
    let b = sys.spawn(0xb000, NORMAL_PRIO);
    let mut restarts = RestartTable::default_table();
    assert_eq!(sys.schedule(1), a);
    assert_eq!(sys.scheduler.tasks.get(a).slot, Some(0));
    sys.scheduler.exit(&mut sys.machine, &mut sys.registry, &mut restarts, 2, 0, 1);
    assert_eq!(sys.schedule(3), b);
    assert_eq!(sys.scheduler.tasks.get(b).slot, Some(0));
}

#[test]
fn a_task_is_restarted_when_the_policy_says_so() {
    let mut sys = system();
    let a = sys.spawn(0xa000, NORMAL_PRIO);
    let mut restarts = RestartTable::new(RestartPolicy::Always, RestartPolicy::Always);
    assert_eq!(sys.schedule(1), a);
    let r = sys.scheduler.exit(
        &mut sys.machine,
        &mut sys.registry,
        &mut restarts,
        2,
        0x1000,
        0x10_0000,
    );
    let request = r.restart.unwrap();
    assert_eq!(
        request,
        RestartRequest { entry: 0xa000, entry_arg: 7, prio: Priority(NORMAL_PRIO) }
    );
    let p = provided(sys.regions);
    let spawned = sys.scheduler.respawn(
        &mut sys.machine,
        &mut sys.registry,
        request,
        p,
        &sys.idle_table,
    );
    assert_eq!(spawned.tid, TaskId(2));
    assert_eq!(sys.schedule(3), TaskId(2));
    assert_eq!(sys.scheduler.tasks.get(TaskId(2)).entry, 0xa000);
    assert_eq!(sys.scheduler.tasks.get(TaskId(2)).entry_arg, 7);
}

#[test]
fn an_entry_point_outside_the_image_is_not_restarted() {
    let mut sys = system();
    let a = sys.spawn(0xa000, NORMAL_PRIO);
    let mut restarts = RestartTable::new(RestartPolicy::Always, RestartPolicy::Always);
    assert_eq!(sys.schedule(1), a);
    let r =
        sys.scheduler.exit(&mut sys.machine, &mut sys.registry, &mut restarts, 2, 0x1000, 0xa000);
    assert_eq!(r.restart, None);
}

#[test]
fn the_end_of_a_task_scans_its_frame() {
    let mut sys = system();
    let a = sys.spawn(0xa000, NORMAL_PRIO);
    let mut restarts = RestartTable::default_table();
    assert_eq!(sys.schedule(1), a);
    let frame = sys.scheduler.get_last_stack_pointer(&sys.machine);
    sys.machine.memory.write(frame + 8 * 6, 0x6000_0207);
    let r = sys.scheduler.exit(&mut sys.machine, &mut sys.registry, &mut restarts, 2, 0, 1);
    let scan = r.scan.unwrap();
    assert!(scan.hit_any);
    assert!(scan.hit_x);
    assert_eq!(scan.notes.len(), 3);
}

#[test]
fn priorities_can_be_changed() {
    let mut sys = system();
    let a = sys.spawn(0xa000, NORMAL_PRIO);
    let b = sys.spawn(0xb000, NORMAL_PRIO);
    assert_eq!(sys.schedule(1), a);
    let r = sys.scheduler.set_priority(&sys.machine, &sys.registry, b, Priority(HIGH_PRIO));
    assert_eq!(r, Ok(PriorityChange::Changed));
    assert_eq!(*sys.scheduler.get_priority_bitmap(), 0b1000);
    assert_eq!(sys.scheduler.tasks.get(b).prio, Priority(HIGH_PRIO));
    assert_eq!(sys.schedule(2), b);
    sys.scheduler.set_current_task_priority(&sys.machine, Priority(LOW_PRIO));
    assert_eq!(sys.scheduler.get_current_task_prio(&sys.machine), Priority(LOW_PRIO));
    assert_eq!(sys.schedule(3), a);
    assert_eq!(
        sys.scheduler.set_priority(&sys.machine, &sys.registry, TaskId(77), Priority(1)),
        Err(())
    );
}

#[test]
fn a_task_of_another_core_keeps_its_priority() {
    let mut sys = system();
    add_current_core(1, &mut sys.machine, &mut sys.registry, 0x9000, provided(20));
    let r = sys.scheduler.set_priority(&sys.machine, &sys.registry, TaskId(1), Priority(3));
    assert_eq!(r, Ok(PriorityChange::OtherCore));
}

#[test]
fn floating_point_registers_change_hands_lazily() {
    let mut sys = system();
    let a = sys.spawn(0xa000, NORMAL_PRIO);
    let b = sys.spawn(0xb000, NORMAL_PRIO);
    assert_eq!(sys.schedule(1), a);
    assert_eq!(sys.scheduler.fpu_owner, TaskId(0));
    assert_eq!(sys.scheduler.fpu_switch(&sys.machine, FpuState(5)), Some(FpuState(0)));
    assert_eq!(sys.scheduler.fpu_owner, a);
    assert_eq!(sys.scheduler.tasks.get(TaskId(0)).last_fpu_state, FpuState(5));
    assert_eq!(sys.scheduler.fpu_switch(&sys.machine, FpuState(6)), None);
    assert_eq!(sys.schedule(2), b);
    assert_eq!(sys.scheduler.fpu_owner, a);
    assert_eq!(sys.scheduler.fpu_switch(&sys.machine, FpuState(8)), Some(FpuState(0)));
    assert_eq!(sys.scheduler.tasks.get(a).last_fpu_state, FpuState(8));
    assert_eq!(sys.schedule(3), a);
    assert_eq!(sys.scheduler.fpu_switch(&sys.machine, FpuState(9)), Some(FpuState(8)));
}

#[test]
fn what_is_known_of_the_running_task() {
    let mut sys = system();
    let a = sys.spawn(0xa000, NORMAL_PRIO);
    assert_eq!(sys.schedule(1), a);
    let top = STACKS + 0x10_0000 + 0x1000 + 0x2_0000;
    assert_eq!(sys.scheduler.get_current_task_kernel_stack_top(&sys.machine), top);
    assert_eq!(
        sys.scheduler.get_current_task_kstack_bounds(&sys.machine),
        (STACKS + 0x10_0000 + 0x1000, top, 1)
    );
    assert_eq!(sys.scheduler.set_current_kernel_stack(&sys.machine), top - 0x10);
    assert_eq!(
        sys.scheduler.get_current_task_frame_location(&sys.machine),
        FrameLocation::InSlot
    );
    let handle = sys.scheduler.get_current_task_handle(&sys.machine);
    assert_eq!(handle.get_id(), a);
    assert_eq!(handle.get_priority(), Priority(NORMAL_PRIO));
    assert_eq!(handle.get_core_id(), 0);
    let other = top - 0x1000;
    sys.scheduler.save_stack_pointer(&sys.machine, a, other);
    assert_eq!(sys.scheduler.get_last_stack_pointer(&sys.machine), other);
}

#[test]
fn a_core_hands_tasks_and_wakes_to_another() {
    let mut sys = system();
    let mut other =
        add_current_core(1, &mut sys.machine, &mut sys.registry, 0x9000, provided(20)).scheduler;
    let p = provided(21);
    let child = spawn(
        &mut sys.scheduler,
        &mut sys.machine,
        &mut sys.registry,
        0xd000,
        1,
        Priority(NORMAL_PRIO),
        0x8000,
        1,
        2,
        p,
        &sys.idle_table,
    )
    .tid;
    assert_eq!(sys.registry.core_wakeups, vec![1]);
    assert!(!sys.scheduler.tasks.contains(child));
    let turn = other.run(&mut sys.machine, &mut sys.registry.inputs[1], true);
    assert_eq!(turn.action, IdleAction::Reschedule);
    other.scheduler(&mut sys.machine, 1);
    assert_eq!(other.get_current_task_id(), child);
    assert_eq!(other.tasks.get(child).slot, Some(0));
    assert_eq!(other.tasks.get(child).last_stack_pointer, SLOTS + 0x3_3000 + 0x1_0000 - 288);
    other.block_current_task(&sys.machine, None);
    other.scheduler(&mut sys.machine, 2);
    let handle = sys.registry.get_task_handle(child).unwrap();
    sys.scheduler.custom_wakeup(&sys.machine, &mut sys.registry, handle);
    assert_eq!(other.tasks.get(child).status, TaskStatus::Blocked);
    other.check_input(&mut sys.machine, &mut sys.registry.inputs[1]);
    assert_eq!(other.tasks.get(child).status, TaskStatus::Ready);
}

#[test]
fn cores_take_turns_for_new_tasks() {
    let mut sys = system();
    add_current_core(1, &mut sys.machine, &mut sys.registry, 0x9000, provided(20));
    let mut cores: Vec<u32> = Vec::new();
    for k in 0..4 {
        let p = provided(21 + k);
        let tid = spawn(
            &mut sys.scheduler,
            &mut sys.machine,
            &mut sys.registry,
            0xd000,
            1,
            Priority(NORMAL_PRIO),
            0x8000,
            -1,
            2,
            p,
            &sys.idle_table,
        )
        .tid;
        cores.push(sys.registry.get_task_handle(tid).unwrap().get_core_id());
    }
    assert_eq!(cores, vec![1, 0, 1, 0]);
}

#[test]
fn a_clone_inherits_priority_and_files() {
    let mut sys = system();
    let a = sys.spawn(0xa000, HIGH_PRIO);
    assert_eq!(sys.schedule(1), a);
    sys.scheduler.insert_object(&sys.machine, &mut sys.idle_table, 99).unwrap();
    let p = provided(sys.regions);
    let child = sys
        .scheduler
        .clone(&mut sys.machine, &mut sys.registry, 0xe000, 3, 1, p, &sys.idle_table)
        .tid;
    let task = sys.scheduler.tasks.get(child);
    assert_eq!(task.prio, Priority(HIGH_PRIO));
    assert_eq!(task.object_map.as_ref().unwrap().get_object(3), Ok(99));
    assert_eq!(sys.registry.next_core_id, 0);
}

#[test]
fn the_idle_loop_backs_off_and_waits() {
    let mut sys = system();
    let turn = sys.scheduler.run(&mut sys.machine, &mut sys.registry.inputs[0], false);
    assert_eq!(turn.action, IdleAction::EnableAndSnooze);
    let turn = sys.scheduler.run(&mut sys.machine, &mut sys.registry.inputs[0], true);
    assert_eq!(turn.action, IdleAction::EnableAndWait);
    assert!(!turn.poke_reactor);
    let a = sys.spawn(0xa000, NORMAL_PRIO);
    let mut restarts = RestartTable::default_table();
    assert_eq!(sys.schedule(1), a);
    sys.scheduler.exit(&mut sys.machine, &mut sys.registry, &mut restarts, 2, 0, 1);
    assert_eq!(sys.schedule(3), TaskId(0));
    let turn = sys.scheduler.run(&mut sys.machine, &mut sys.registry.inputs[0], true);
    assert_eq!(turn.reaped.len(), 1);
    assert!(turn.poke_reactor);
    assert_eq!(turn.action, IdleAction::EnableAndWait);
}

#[test]
fn open_files_belong_to_the_running_task() {
    let mut sys = system();
    let a = sys.spawn(0xa000, NORMAL_PRIO);
    assert_eq!(sys.schedule(1), a);
    assert_eq!(sys.scheduler.get_object(&sys.machine, &sys.idle_table, 1), Ok(11));
    assert_eq!(sys.scheduler.insert_object(&sys.machine, &mut sys.idle_table, 50), Ok(3));
    assert_eq!(sys.scheduler.dup_object(&sys.machine, &mut sys.idle_table, 3), Ok(4));
    assert_eq!(sys.scheduler.dup_object2(&sys.machine, &mut sys.idle_table, 0, 9), Ok(9));
    assert_eq!(sys.scheduler.get_object(&sys.machine, &sys.idle_table, 9), Ok(10));
    assert_eq!(sys.scheduler.remove_object(&sys.machine, &mut sys.idle_table, 3), Ok(50));
    assert!(sys.scheduler.get_object(&sys.machine, &sys.idle_table, 3).is_err());
    assert_eq!(
        sys.scheduler.clone_current_task_object_map(&sys.machine, &sys.idle_table).len(),
        5
    );
    assert_eq!(sys.idle_table.len(), 3);
    sys.scheduler.recreate_objmap(&sys.machine, &sys.idle_table);
    assert!(sys.scheduler.get_object(&sys.machine, &sys.idle_table, 4).is_err());
    assert_eq!(sys.scheduler.get_object(&sys.machine, &sys.idle_table, 2), Ok(12));
}

#[test]
fn a_reschedule_is_an_interrupt_to_the_own_core() {
    let sys = system();
    assert_eq!(sys.scheduler.reschedule(false), 0x100_0001);
    assert_eq!(sys.scheduler.reschedule(true), 0x100_0001);
}

fn regs(class: u64, iss: u64, frame: u64) -> SyncRegs {
    SyncRegs {
        esr: (class << 26) | iss,
        far: 0x123,
        elr: 0x4008_1000,
        spsr: 0x3c4,
        sp_el1: frame + 288,
        frame,
        image_start: 0x4008_0000,
        trace: ReturnTrace { spsr: 0x3c5, resume_sp: 1, scratch_slot: 2 },
        initial_sp: 0,
        fpu: FpuState(77),
    }
}

fn taken(sys: &mut System, class: u64, iss: u64) -> (SyncOutcome, CoreLocal) {
    let frame = sys.scheduler.get_last_stack_pointer(&sys.machine);
    let mut core_local = CoreLocal::install(0, 0x10_0000, 0, 0x100_0000);
    core_local.scratch_slot = frame + 288;
    let mut dumps = FrameDumps { count: 6 };
    let r = do_sync(
        &mut core_local,
        &mut sys.scheduler,
        &sys.machine,
        &mut dumps,
        &regs(class, iss, frame),
    );
    (r, core_local)
}

fn with_running_task() -> System {
    let mut sys = system();
    let a = sys.spawn(0xa000, NORMAL_PRIO);
    assert_eq!(sys.schedule(1), a);
    sys
}

#[test]
fn a_page_fault_is_reported() {
    let mut sys = with_running_task();
    let (r, core_local) = taken(&mut sys, 0x25, 0);
    assert_eq!(core_local.scratch_slot, 0);
    match r.action {
        SyncAction::HaltPageFault { report } => {
            assert_eq!(report.link_pc, 0x1000);
            assert!(report.to_kernel);
            assert!(report.clobbered);
            assert!(report.place.is_none());
            assert!(!report.far_at_top);
        }
        _ => panic!("no page fault"),
    }
}

#[test]
fn a_fault_without_address_is_passed_over() {
    let mut sys = with_running_task();
    assert!(matches!(taken(&mut sys, 0x24, 0x400).0.action, SyncAction::Resume));
    assert!(matches!(
        taken(&mut sys, 0x3c, 0).0.action,
        SyncAction::HaltDebugTrap { pc: 0x4008_1000 }
    ));
    assert!(matches!(
        taken(&mut sys, 0x15, 0).0.action,
        SyncAction::HaltUnsupported { pc: 0x4008_1000, far: 0x123 }
    ));
}

#[test]
fn a_failed_fetch_ends_the_task() {
    let mut sys = with_running_task();
    let frame = sys.scheduler.get_last_stack_pointer(&sys.machine);
    sys.machine.memory.map_zeroed(0x9_0000 - 16, 66);
    sys.machine.memory.write(frame + 24, 0x9_0000);
    match taken(&mut sys, 0x21, 0).0.action {
        SyncAction::EndTask { stack, chain } => {
            let stack = stack.unwrap();
            assert_eq!(stack.lo, 0x9_0000 - 16);
            assert_eq!(stack.words.len(), 66);
            assert_eq!(stack.broken, 66);
            assert_eq!(stack.span, Some((0x9_0000 - 16, 0x9_01f8, 0x210)));
            assert!(chain.is_none());
        }
        _ => panic!("the task goes on"),
    }
}

#[test]
fn a_floating_point_trap_hands_the_registers_over() {
    let mut sys = with_running_task();
    let frame = sys.scheduler.get_last_stack_pointer(&sys.machine);
    sys.machine.memory.write(frame + 8 * 20, 0x6000_0207);
    let (r, _) = taken(&mut sys, 0x07, 0);
    assert!(matches!(r.action, SyncAction::LoadFpu { load: Some(FpuState(0)) }));
    assert_eq!(r.resume.unwrap()[15], 0x6000_0207);
    assert!(r.dump.is_none());
    assert_eq!(sys.scheduler.fpu_owner, TaskId(1));
    assert_eq!(sys.scheduler.tasks.get(TaskId(0)).last_fpu_state, FpuState(77));
    let (r, _) = taken(&mut sys, 0x07, 0);
    assert!(matches!(r.action, SyncAction::LoadFpu { load: None }));
}

#[test]
fn only_the_outermost_interrupt_switches_tasks() {
    let f = Features {
        pmr_preempt_spike: false,
        pmr_band: true,
        pmr_coop_net: true,
        continuations: false,
    };
    let mut sys = with_running_task();
    sys.scheduler.block_current_task(&sys.machine, Some(100));
    let mut core_local = CoreLocal::install(0, 0x10_0000, 0, 0x100_0000);
    core_local.rt_nest_depth = 2;
    core_local.eoi_inflight = 2;
    let r = finish_irq(&mut core_local, &mut sys.scheduler, &mut sys.machine, f, 30, 50, 50);
    assert_eq!(r.end, EndOfInterrupt::Split { intid: 30 });
    assert!(r.rescheduled.is_none());
    assert_eq!(sys.scheduler.get_current_task_id(), TaskId(1));
    let r = finish_irq(&mut core_local, &mut sys.scheduler, &mut sys.machine, f, 30, 60, 60);
    assert_eq!(r.rescheduled.unwrap().previous, Some(TaskId(1)));
    assert_eq!(sys.scheduler.get_current_task_id(), TaskId(0));
    assert_eq!((core_local.rt_nest_depth, core_local.eoi_inflight), (0, 0));
    core_local.rt_nest_depth = 1;
    core_local.eoi_inflight = 1;
    finish_irq(&mut core_local, &mut sys.scheduler, &mut sys.machine, f, 30, 101, 101);
    assert_eq!(sys.scheduler.get_current_task_id(), TaskId(1));
}
