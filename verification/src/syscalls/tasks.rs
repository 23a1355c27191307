//! System calls on tasks.

use vstd::prelude::*;

use std::collections::BTreeMap;

use crate::config::USER_STACK_SIZE;
use crate::diagnostics::FrameScan;
use crate::errno::Errno;
use crate::fd::FdTable;
use crate::scheduler::control::PriorityChange;
use crate::scheduler::exit::{AbortAction, Exited, Shutdown};
use crate::scheduler::input::JoinStep;
use crate::scheduler::per_core::{Machine, PerCoreScheduler};
use crate::scheduler::registry::{Provided, RegistryState, TaskRegistry};
use crate::scheduler::spawn::{Child, Spawned};
use crate::scheduler::state::CoreState;
use crate::scheduler::supervisor::RestartTable;
use crate::scheduler::task::handle::TaskHandle;
use crate::scheduler::task::{Priority, TaskId, TaskStatus, NO_PRIORITIES};

verus! {

/// The identifier of the process: there is only one.
pub fn sys_getpid() -> (r: i32)
    ensures
        r == 0,
{
    0
}

/// The priority of the running task, whose identifier `id` must be if there is
/// one.
pub fn sys_getprio(scheduler: &PerCoreScheduler, machine: &Machine, id: Option<i32>) -> (r: i32)
    requires
        scheduler.wf(machine),
    ensures
        r == (if id is None || id == Some(scheduler.current_task.0) {
            scheduler.tasks@[scheduler.current_task.0].prio.0 as int
        } else {
            -22int
        }),
{
    proof {
        assert(crate::scheduler::state::task_ok(
            scheduler.state(machine),
            scheduler.current_task.0,
        ));
    }
    let task: TaskHandle = scheduler.get_current_task_handle(machine);
    let own: bool = match id {
        None => true,
        Some(tid) => {
            let current: i32 = task.get_id().into();
            tid == current
        },
    };
    if own {
        let prio: u8 = task.get_priority().into();
        prio as i32
    } else {
        -Errno::Inval.number()
    }
}

/// Setting a priority this way is not supported.
pub fn sys_setprio() -> (r: i32)
    ensures
        r == -38,
{
    -Errno::Nosys.number()
}

/// Sending a signal is not supported.
pub fn sys_kill() -> (r: i32)
    ensures
        r == -38,
{
    -Errno::Nosys.number()
}

/// Installing a signal handler has no effect.
pub fn sys_signal() -> (r: i32)
    ensures
        r == 0,
{
    0
}

fn exit(arg: i32) -> (r: Shutdown)
    ensures
        r.code == arg,
{
    crate::scheduler::exit::shutdown(arg)
}

/// Ends the program.
pub fn sys_exit(status: i32) -> (r: Shutdown)
    ensures
        r.code == status,
{
    exit(status)
}

/// Ends the running task, whatever exit status it gives: the tasks that wait for
/// it are woken, and its entry point is to be started again if its policy permits
/// that at `now`.
pub fn sys_thread_exit(
    scheduler: &mut PerCoreScheduler,
    machine: &mut Machine,
    registry: &mut TaskRegistry,
    restarts: &mut RestartTable,
    now: u64,
    image_start: u64,
    image_end: u64,
    _status: i32,
) -> (r: Exited)
    requires
        old(scheduler).wf(old(machine)),
        old(restarts).wf(),
        old(scheduler).tasks@[old(scheduler).current_task.0].status == TaskStatus::Running,
        crate::scheduler::exit::can_wake_all(
            crate::scheduler::exit::ended(old(scheduler).state(old(machine))),
            old(registry)@,
            crate::scheduler::exit::waiters(old(registry)@, old(scheduler).current_task),
        ),
    ensures
        final(scheduler).wf(final(machine)),
        final(restarts).wf(),
        old(machine).slots.changed(
            old(scheduler).core_id,
            crate::scheduler::exit::exited(
                old(scheduler).state(old(machine)),
                old(registry)@,
            ).0.owners,
            &final(machine).slots,
        ),
        (final(scheduler).state(final(machine)), final(registry)@)
            == crate::scheduler::exit::exited(
            old(scheduler).state(old(machine)),
            old(registry)@,
        ),
        crate::scheduler::exit::is_exit(
            old(scheduler).tasks@[old(scheduler).current_task.0],
            old(machine).memory@,
            old(restarts)@,
            final(restarts)@,
            now,
            image_start,
            image_end,
            r,
        ),
{
    scheduler.exit(machine, registry, restarts, now, image_start, image_end)
}

/// Ends the running task as one that failed, to try out how the others go on.
pub fn sys_test_fault() -> (r: AbortAction)
    ensures
        match r {
            AbortAction::EndTask { exit_code } => exit_code == -1,
            AbortAction::Halt => false,
        },
{
    crate::scheduler::exit::abort(true)
}

/// The value that lets another task run when it is written to the register for
/// software-generated interrupts.
pub fn sys_yield(scheduler: &PerCoreScheduler, smp: bool) -> (r: u64)
    requires
        smp ==> scheduler.core_id < 64,
    ensures
        r == crate::arch::aarch64::kernel::interrupts::ids::spec_sgi_value(
            crate::arch::aarch64::kernel::interrupts::ids::SGI_RESCHED,
            if smp {
                scheduler.core_id
            } else {
                0
            },
        ),
{
    scheduler.reschedule(smp)
}

/// Ends the program because it failed. The register frame of the running task
/// is scanned first, if it has one.
pub fn sys_abort(scheduler: &PerCoreScheduler, machine: &Machine) -> (r: (
    Option<FrameScan>,
    Shutdown,
))
    requires
        scheduler.wf(machine),
        scheduler.tasks@[scheduler.current_task.0].last_stack_pointer != 0
            ==> crate::memory::frame_mapped(
            machine.memory@,
            scheduler.tasks@[scheduler.current_task.0].last_stack_pointer as int,
        ),
    ensures
        r.1.code == -1,
        match r.0 {
            None => scheduler.tasks@[scheduler.current_task.0].last_stack_pointer == 0,
            Some(scan) => {
                let frame = scheduler.tasks@[scheduler.current_task.0].last_stack_pointer as int;
                &&& frame != 0
                &&& scan.notes@ == crate::diagnostics::notes(machine.memory@, frame, 36)
                &&& scan.hit_any == crate::diagnostics::magic_within(machine.memory@, frame, 0, 36)
                &&& scan.hit_x == crate::diagnostics::magic_within(machine.memory@, frame, 5, 36)
            },
        },
{
    let lsp: u64 = scheduler.get_last_stack_pointer(machine);
    let scan: Option<FrameScan> = if lsp != 0 {
        Some(crate::diagnostics::dump_frame_magic(&machine.memory, lsp))
    } else {
        None
    };
    (scan, exit(-1))
}

/// How a task sleeps.
#[derive(Copy, Clone, Debug, Eq, PartialEq, Structural)]
pub enum Nap {
    /// Not at all.
    Nothing,
    /// Other tasks run until the counter of the machine reaches `end`.
    Busy { end: u64 },
    /// It is blocked; another task is to run.
    Blocked,
}

/// The shortest time, in microseconds, for which a task is blocked.
pub const BLOCKING_LIMIT: u64 = 10_000;

/// Whether the running task can sleep for `usecs` microseconds: times do not
/// overflow, and a task that is to be blocked runs.
pub open spec fn can_nap(
    scheduler: &PerCoreScheduler,
    usecs: int,
    ticks: u64,
    timestamp: u64,
    frequency: u64,
) -> bool {
    &&& usecs <= u64::MAX
    &&& if usecs >= BLOCKING_LIMIT {
        &&& ticks + usecs <= u64::MAX
        &&& scheduler.tasks@[scheduler.current_task.0].status == TaskStatus::Running
    } else {
        timestamp + frequency * usecs <= u64::MAX
    }
}

/// How a task sleeps for `usecs` microseconds.
pub open spec fn nap_of(usecs: int, timestamp: u64, frequency: u64) -> Nap {
    if usecs >= BLOCKING_LIMIT {
        Nap::Blocked
    } else if usecs > 0 {
        Nap::Busy { end: (timestamp + frequency * usecs) as u64 }
    } else {
        Nap::Nothing
    }
}

/// `c` once the running task sleeps for `usecs` microseconds: it is blocked if
/// that is long enough.
pub open spec fn napped(c: CoreState, usecs: int, ticks: u64) -> CoreState {
    if usecs >= BLOCKING_LIMIT {
        crate::scheduler::wake::current_blocked(c, Some((ticks + usecs) as u64))
    } else {
        c
    }
}

/// Lets the running task sleep for `usecs` microseconds: if that is long enough
/// it is blocked until then, otherwise it waits. `ticks` is the time in
/// microseconds, `timestamp` the counter of the machine, and `frequency` how far
/// that counts in a microsecond.
fn usleep(
    scheduler: &mut PerCoreScheduler,
    machine: &Machine,
    usecs: u64,
    ticks: u64,
    timestamp: u64,
    frequency: u64,
) -> (r: Nap)
    requires
        old(scheduler).wf(machine),
        can_nap(old(scheduler), usecs as int, ticks, timestamp, frequency),
    ensures
        final(scheduler).wf(machine),
        final(scheduler).state(machine) == napped(
            old(scheduler).state(machine),
            usecs as int,
            ticks,
        ),
        r == nap_of(usecs as int, timestamp, frequency),
{
    if usecs >= BLOCKING_LIMIT {
        let wakeup_time: u64 = ticks + usecs;
        scheduler.block_current_task(machine, Some(wakeup_time));
        Nap::Blocked
    } else if usecs > 0 {
        assert(frequency * usecs >= 0) by (nonlinear_arith)
            requires
                frequency >= 0,
                usecs >= 0,
        ;
        let end: u64 = timestamp + frequency * usecs;
        Nap::Busy { end }
    } else {
        Nap::Nothing
    }
}

/// Lets the running task sleep for `ms` milliseconds.
pub fn sys_msleep(
    scheduler: &mut PerCoreScheduler,
    machine: &Machine,
    ms: u32,
    ticks: u64,
    timestamp: u64,
    frequency: u64,
) -> (r: Nap)
    requires
        old(scheduler).wf(machine),
        can_nap(old(scheduler), ms * 1000, ticks, timestamp, frequency),
    ensures
        final(scheduler).wf(machine),
        final(scheduler).state(machine) == napped(
            old(scheduler).state(machine),
            ms * 1000,
            ticks,
        ),
        r == nap_of(ms * 1000, timestamp, frequency),
{
    usleep(scheduler, machine, (ms as u64) * 1000, ticks, timestamp, frequency)
}

/// Lets the running task sleep for `usecs` microseconds.
pub fn sys_usleep(
    scheduler: &mut PerCoreScheduler,
    machine: &Machine,
    usecs: u64,
    ticks: u64,
    timestamp: u64,
    frequency: u64,
) -> (r: Nap)
    requires
        old(scheduler).wf(machine),
        can_nap(old(scheduler), usecs as int, ticks, timestamp, frequency),
    ensures
        final(scheduler).wf(machine),
        final(scheduler).state(machine) == napped(
            old(scheduler).state(machine),
            usecs as int,
            ticks,
        ),
        r == nap_of(usecs as int, timestamp, frequency),
{
    usleep(scheduler, machine, usecs, ticks, timestamp, frequency)
}

/// A time of the C interface.
#[derive(Copy, Clone, Debug, Eq, PartialEq, Structural)]
pub struct Timespec {
    pub tv_sec: i64,
    pub tv_nsec: i64,
}

/// Whether a task can sleep for such a time.
pub open spec fn valid_time(time: Timespec) -> bool {
    time.tv_sec >= 0 && time.tv_nsec <= 999_999_999
}

/// The time in microseconds. A negative number of nanoseconds counts as the
/// unsigned number with the same bits.
pub open spec fn micros_of(time: Timespec) -> int {
    time.tv_sec * 1_000_000 + (if time.tv_nsec < 0 {
        time.tv_nsec + 0x1_0000_0000_0000_0000
    } else {
        time.tv_nsec as int
    }) / 1_000
}

/// Lets the running task sleep for a time. Returns 0 and how it sleeps, or an
/// error and nothing if the time is not valid.
pub fn sys_nanosleep(
    scheduler: &mut PerCoreScheduler,
    machine: &Machine,
    requested_time: Timespec,
    ticks: u64,
    timestamp: u64,
    frequency: u64,
) -> (r: (i32, Nap))
    requires
        old(scheduler).wf(machine),
        valid_time(requested_time) ==> can_nap(
            old(scheduler),
            micros_of(requested_time),
            ticks,
            timestamp,
            frequency,
        ),
    ensures
        final(scheduler).wf(machine),
        r.0 == (if valid_time(requested_time) {
            0int
        } else {
            -22int
        }),
        r.1 == (if valid_time(requested_time) {
            nap_of(micros_of(requested_time), timestamp, frequency)
        } else {
            Nap::Nothing
        }),
        final(scheduler).state(machine) == (if valid_time(requested_time) {
            napped(old(scheduler).state(machine), micros_of(requested_time), ticks)
        } else {
            old(scheduler).state(machine)
        }),
{
    if requested_time.tv_sec < 0 || requested_time.tv_nsec > 999_999_999 {
        return (-Errno::Inval.number(), Nap::Nothing);
    }
    let nsec: u64 = if requested_time.tv_nsec < 0 {
        u64::MAX - (-(requested_time.tv_nsec + 1)) as u64
    } else {
        requested_time.tv_nsec as u64
    };
    let microseconds: u64 = (requested_time.tv_sec as u64) * 1_000_000 + nsec / 1_000;
    let nap: Nap = usleep(scheduler, machine, microseconds, ticks, timestamp, frequency);
    (0, nap)
}

/// Creates a task like the running one.
pub fn sys_clone(
    scheduler: &mut PerCoreScheduler,
    machine: &mut Machine,
    registry: &mut TaskRegistry,
    func: u64,
    arg: u64,
    processor_count: u32,
    p: Provided,
    idle_table: &FdTable,
) -> (r: (i32, Spawned))
    requires
        old(scheduler).wf(old(machine)),
        crate::scheduler::spawn::tids_known(
            old(registry)@,
            old(scheduler).state(old(machine)),
        ),
        old(registry).tid_counter < i32::MAX,
        crate::scheduler::spawn::clone_core(old(registry).next_core_id, processor_count) < old(
            registry,
        )@.inputs.len(),
        crate::scheduler::spawn::regions_fit(
            p,
            old(scheduler).tasks@[old(scheduler).current_task.0].stacks.user_stack_size(),
        ),
    ensures
        final(scheduler).wf(final(machine)),
        final(machine).slots == old(machine).slots,
        crate::scheduler::spawn::tids_known(
            final(registry)@,
            final(scheduler).state(final(machine)),
        ),
        r.1.tid.0 == old(registry).tid_counter,
        crate::scheduler::spawn::maps_stacks(
            p,
            old(scheduler).tasks@[old(scheduler).current_task.0].stacks.user_stack_size(),
            r.1.kernel_mapping,
            r.1.user_mapping,
        ),
        r.0 == 0,
        ({
            let task = old(scheduler).tasks@[old(scheduler).current_task.0];
            let next = old(registry).next_core_id;
            crate::scheduler::spawn::child_spawned(
                old(scheduler).state(old(machine)),
                (RegistryState {
                    next_core_id: crate::scheduler::spawn::clone_next(next, processor_count),
                    ..old(registry)@
                }),
                (Child {
                    tid: r.1.tid,
                    func,
                    arg,
                    prio: task.prio,
                    core_id: crate::scheduler::spawn::clone_core(next, processor_count),
                    stack_size: task.stacks.user_stack_size() as usize,
                }),
                p,
                idle_table@,
                final(scheduler).state(final(machine)),
                final(registry)@,
            )
        }),
{
    let spawned: Spawned = scheduler.clone(
        machine,
        registry,
        func,
        arg,
        processor_count,
        p,
        idle_table,
    );
    (0, spawned)
}

/// Creates a task with a user stack of `stack_size` bytes on the core that
/// `selector` names. Returns the number of its identifier.
pub fn sys_spawn2(
    scheduler: &mut PerCoreScheduler,
    machine: &mut Machine,
    registry: &mut TaskRegistry,
    func: u64,
    arg: u64,
    prio: u8,
    stack_size: usize,
    selector: isize,
    processor_count: u32,
    p: Provided,
    idle_table: &FdTable,
) -> (r: (i32, Spawned))
    requires
        old(scheduler).wf(old(machine)),
        processor_count > 0,
        crate::scheduler::spawn::tids_known(
            old(registry)@,
            old(scheduler).state(old(machine)),
        ),
        old(registry).tid_counter < i32::MAX,
        crate::scheduler::spawn::core_for(
            selector,
            old(registry).core_counter,
            processor_count,
        ) < old(registry)@.inputs.len(),
        crate::scheduler::spawn::core_for(selector, old(registry).core_counter, processor_count)
            == old(scheduler).core_id ==> prio < NO_PRIORITIES,
        crate::scheduler::spawn::regions_fit(p, stack_size as int),
    ensures
        final(scheduler).wf(final(machine)),
        final(machine).slots == old(machine).slots,
        crate::scheduler::spawn::tids_known(
            final(registry)@,
            final(scheduler).state(final(machine)),
        ),
        r.1.tid.0 == old(registry).tid_counter,
        crate::scheduler::spawn::maps_stacks(
            p,
            stack_size as int,
            r.1.kernel_mapping,
            r.1.user_mapping,
        ),
        r.0 == r.1.tid.0,
        crate::scheduler::spawn::child_spawned(
            old(scheduler).state(old(machine)),
            (RegistryState {
                core_counter: if selector < 0 {
                    crate::scheduler::registry::wrapping_next(old(registry).core_counter)
                } else {
                    old(registry).core_counter
                },
                ..old(registry)@
            }),
            (Child {
                tid: r.1.tid,
                func,
                arg,
                prio: Priority(prio),
                core_id: crate::scheduler::spawn::core_for(
                    selector,
                    old(registry).core_counter,
                    processor_count,
                ),
                stack_size,
            }),
            p,
            idle_table@,
            final(scheduler).state(final(machine)),
            final(registry)@,
        ),
{
    let spawned: Spawned = crate::scheduler::spawn::spawn(
        scheduler,
        machine,
        registry,
        func,
        arg,
        Priority::from(prio),
        stack_size,
        selector,
        processor_count,
        p,
        idle_table,
    );
    (spawned.tid.into(), spawned)
}

/// Creates a task with a user stack of the usual size on the core that
/// `selector` names. Returns 0, and the new task with its identifier.
pub fn sys_spawn(
    scheduler: &mut PerCoreScheduler,
    machine: &mut Machine,
    registry: &mut TaskRegistry,
    func: u64,
    arg: u64,
    prio: u8,
    selector: isize,
    processor_count: u32,
    p: Provided,
    idle_table: &FdTable,
) -> (r: (i32, Spawned))
    requires
        old(scheduler).wf(old(machine)),
        processor_count > 0,
        crate::scheduler::spawn::tids_known(
            old(registry)@,
            old(scheduler).state(old(machine)),
        ),
        old(registry).tid_counter < i32::MAX,
        crate::scheduler::spawn::core_for(
            selector,
            old(registry).core_counter,
            processor_count,
        ) < old(registry)@.inputs.len(),
        crate::scheduler::spawn::core_for(selector, old(registry).core_counter, processor_count)
            == old(scheduler).core_id ==> prio < NO_PRIORITIES,
        crate::scheduler::spawn::regions_fit(p, USER_STACK_SIZE as int),
    ensures
        final(scheduler).wf(final(machine)),
        final(machine).slots == old(machine).slots,
        crate::scheduler::spawn::tids_known(
            final(registry)@,
            final(scheduler).state(final(machine)),
        ),
        r.1.tid.0 == old(registry).tid_counter,
        crate::scheduler::spawn::maps_stacks(
            p,
            USER_STACK_SIZE as int,
            r.1.kernel_mapping,
            r.1.user_mapping,
        ),
        r.0 == 0,
        crate::scheduler::spawn::child_spawned(
            old(scheduler).state(old(machine)),
            (RegistryState {
                core_counter: if selector < 0 {
                    crate::scheduler::registry::wrapping_next(old(registry).core_counter)
                } else {
                    old(registry).core_counter
                },
                ..old(registry)@
            }),
            (Child {
                tid: r.1.tid,
                func,
                arg,
                prio: Priority(prio),
                core_id: crate::scheduler::spawn::core_for(
                    selector,
                    old(registry).core_counter,
                    processor_count,
                ),
                stack_size: USER_STACK_SIZE,
            }),
            p,
            idle_table@,
            final(scheduler).state(final(machine)),
            final(registry)@,
        ),
{
    let (_, spawned) = sys_spawn2(
        scheduler,
        machine,
        registry,
        func,
        arg,
        prio,
        USER_STACK_SIZE,
        selector,
        processor_count,
        p,
        idle_table,
    );
    (0, spawned)
}

/// Waits for the end of a task. Returns 0 once the task is not known, and
/// nothing if the running task was blocked and is to ask again when it is woken.
pub fn sys_join(
    scheduler: &mut PerCoreScheduler,
    machine: &Machine,
    registry: &mut TaskRegistry,
    id: i32,
) -> (r: Option<i32>)
    requires
        old(scheduler).wf(machine),
        old(registry)@.waiting.contains_key(id) ==> old(scheduler).tasks@[old(
            scheduler,
        ).current_task.0].status == TaskStatus::Running,
    ensures
        final(scheduler).wf(machine),
        r == (if old(registry)@.waiting.contains_key(id) {
            None
        } else {
            Some(0i32)
        }),
        r is Some ==> final(scheduler).state(machine) == old(scheduler).state(machine),
        r is Some ==> final(registry)@ == old(registry)@,
        r is None ==> {
            &&& final(scheduler).state(machine) == crate::scheduler::wake::current_blocked(
                old(scheduler).state(machine),
                None,
            )
            &&& final(registry)@ == (RegistryState {
                waiting: old(registry)@.waiting.insert(
                    id,
                    old(registry)@.waiting[id].push(old(scheduler).current_handle()),
                ),
                ..old(registry)@
            })
        },
{
    match crate::scheduler::input::join(scheduler, machine, registry, TaskId::from(id)) {
        JoinStep::Done => Some(0),
        JoinStep::Wait => None,
    }
}

/// The tasks that blocked themselves, by the numbers of their identifiers.
pub struct BlockedTasks {
    handles: BTreeMap<i32, TaskHandle>,
}

impl View for BlockedTasks {
    type V = Map<i32, TaskHandle>;

    closed spec fn view(&self) -> Map<i32, TaskHandle> {
        self.handles@
    }
}

impl BlockedTasks {
    /// No task blocked itself.
    pub fn new() -> (r: Self)
        ensures
            r@ == Map::<i32, TaskHandle>::empty(),
    {
        BlockedTasks { handles: BTreeMap::new() }
    }

    /// The handle of the task `id`, if it blocked itself.
    pub fn handle_of(&self, id: i32) -> (r: Option<TaskHandle>)
        ensures
            r == (if self@.contains_key(id) {
                Some(self@[id])
            } else {
                None
            }),
    {
        broadcast use vstd::std_specs::btree::group_btree_axioms;

        match self.handles.get(&id) {
            Some(handle) => Some(*handle),
            None => None,
        }
    }

    /// Blocks the running task until it is woken, for `timeout` milliseconds at
    /// most. `ticks` is the time in microseconds.
    fn block_current_task(
        &mut self,
        scheduler: &mut PerCoreScheduler,
        machine: &Machine,
        timeout: Option<u64>,
        ticks: u64,
    )
        requires
            old(scheduler).wf(machine),
            old(scheduler).tasks@[old(scheduler).current_task.0].status == TaskStatus::Running,
            timeout matches Some(t) ==> ticks + t * 1000 <= u64::MAX,
        ensures
            final(scheduler).wf(machine),
            final(self)@ == old(self)@.insert(
                old(scheduler).current_task.0,
                old(scheduler).current_handle(),
            ),
            final(scheduler).state(machine) == crate::scheduler::wake::current_blocked(
                old(scheduler).state(machine),
                match timeout {
                    Some(t) => Some((ticks + t * 1000) as u64),
                    None => None,
                },
            ),
    {
        broadcast use vstd::std_specs::btree::group_btree_axioms;

        proof {
            assert(crate::scheduler::state::task_ok(
                scheduler.state(machine),
                scheduler.current_task.0,
            ));
        }
        let wakeup_time: Option<u64> = match timeout {
            Some(t) => Some(ticks + t * 1000),
            None => None,
        };
        let handle: TaskHandle = scheduler.get_current_task_handle(machine);
        let tid: TaskId = scheduler.get_current_task_id();
        let _ = self.handles.insert(tid.0, handle);
        scheduler.block_current_task(machine, wakeup_time);
    }

    /// Blocks the running task until it is woken.
    pub fn sys_block_current_task(
        &mut self,
        scheduler: &mut PerCoreScheduler,
        machine: &Machine,
    )
        requires
            old(scheduler).wf(machine),
            old(scheduler).tasks@[old(scheduler).current_task.0].status == TaskStatus::Running,
        ensures
            final(scheduler).wf(machine),
            final(self)@ == old(self)@.insert(
                old(scheduler).current_task.0,
                old(scheduler).current_handle(),
            ),
            final(scheduler).state(machine) == crate::scheduler::wake::current_blocked(
                old(scheduler).state(machine),
                None,
            ),
    {
        self.block_current_task(scheduler, machine, None, 0);
    }

    /// Blocks the running task until it is woken, for `timeout` milliseconds at
    /// most.
    pub fn sys_block_current_task_with_timeout(
        &mut self,
        scheduler: &mut PerCoreScheduler,
        machine: &Machine,
        timeout: u64,
        ticks: u64,
    )
        requires
            old(scheduler).wf(machine),
            old(scheduler).tasks@[old(scheduler).current_task.0].status == TaskStatus::Running,
            ticks + timeout * 1000 <= u64::MAX,
        ensures
            final(scheduler).wf(machine),
            final(self)@ == old(self)@.insert(
                old(scheduler).current_task.0,
                old(scheduler).current_handle(),
            ),
            final(scheduler).state(machine) == crate::scheduler::wake::current_blocked(
                old(scheduler).state(machine),
                Some((ticks + timeout * 1000) as u64),
            ),
    {
        self.block_current_task(scheduler, machine, Some(timeout), ticks);
    }

    /// Wakes the task `id`, if it blocked itself.
    pub fn sys_wakeup_task(
        &mut self,
        scheduler: &mut PerCoreScheduler,
        machine: &Machine,
        registry: &mut TaskRegistry,
        id: i32,
    )
        requires
            old(scheduler).wf(machine),
            old(self)@.contains_key(id) ==> crate::scheduler::exit::can_wake(
                old(scheduler).state(machine),
                old(registry)@,
                old(self)@[id],
            ),
        ensures
            final(scheduler).wf(machine),
            final(self)@ == old(self)@.remove(id),
            (final(scheduler).state(machine), final(registry)@) == (if old(self)@.contains_key(
                id,
            ) {
                crate::scheduler::exit::custom_woken(
                    old(scheduler).state(machine),
                    old(registry)@,
                    old(self)@[id],
                )
            } else {
                (old(scheduler).state(machine), old(registry)@)
            }),
    {
        broadcast use vstd::std_specs::btree::group_btree_axioms;

        let task_id: TaskId = TaskId::from(id);
        match self.handles.remove(&task_id.0) {
            Some(handle) => {
                scheduler.custom_wakeup(machine, registry, handle);
            },
            None => {
                assert(self@ =~= old(self)@.remove(id));
            },
        }
    }
}

/// The priority of the running task.
pub fn sys_get_priority(scheduler: &PerCoreScheduler, machine: &Machine) -> (r: u8)
    requires
        scheduler.wf(machine),
    ensures
        r == scheduler.tasks@[scheduler.current_task.0].prio.0,
{
    scheduler.get_current_task_prio(machine).into()
}

/// Sets the priority of the running task, which must not be 0.
pub fn sys_set_current_task_priority(
    scheduler: &mut PerCoreScheduler,
    machine: &Machine,
    prio: u8,
)
    requires
        old(scheduler).wf(machine),
        prio > 0,
    ensures
        final(scheduler).parts_wf(machine),
        prio < NO_PRIORITIES ==> final(scheduler).wf(machine),
        final(scheduler).state(machine) == crate::scheduler::control::with_prio(
            old(scheduler).state(machine),
            old(scheduler).current_task,
            Priority(prio),
        ),
{
    scheduler.set_current_task_priority(machine, Priority::from(prio));
}

/// Sets the priority of the task `id`, which must be known. The priority must
/// not be 0. A task of another core is left alone.
pub fn sys_set_priority(
    scheduler: &mut PerCoreScheduler,
    machine: &Machine,
    registry: &TaskRegistry,
    id: i32,
    prio: u8,
) -> (r: PriorityChange)
    requires
        old(scheduler).wf(machine),
        prio > 0,
        registry.tasks@.contains_key(id),
        registry.tasks@[id].id.0 == id,
        registry.tasks@[id].core_id == old(scheduler).core_id && id != old(
            scheduler,
        ).current_task.0 ==> {
            &&& prio < NO_PRIORITIES
            &&& registry.tasks@[id].priority.0 < NO_PRIORITIES
            &&& old(scheduler).ready_queue@[registry.tasks@[id].priority.0 as int].contains(
                TaskId(id),
            )
        },
    ensures
        final(scheduler).parts_wf(machine),
        prio < NO_PRIORITIES ==> final(scheduler).wf(machine),
        r == (if registry.tasks@[id].core_id == old(scheduler).core_id {
            PriorityChange::Changed
        } else {
            PriorityChange::OtherCore
        }),
        final(scheduler).state(machine) == (if r is Changed {
            let c = old(scheduler).state(machine);
            CoreState {
                ready: if TaskId(id) == c.current {
                    c.ready
                } else {
                    crate::scheduler::task::priority_queue::moved(
                        c.ready,
                        TaskId(id),
                        registry.tasks@[id].priority.0 as int,
                        prio as int,
                    )
                },
                ..crate::scheduler::control::with_prio(c, TaskId(id), Priority(prio))
            }
        } else {
            old(scheduler).state(machine)
        }),
{
    scheduler.set_priority(machine, registry, TaskId::from(id), Priority::from(prio)).unwrap()
}

/// A time is slept for the whole microseconds in it: it is at least that many
/// microseconds long, and shorter than one more. A negative number of nanoseconds is
/// taken for the unsigned number with the same bits.
pub proof fn lemma_whole_microseconds(time: Timespec)
    requires
        valid_time(time),
    ensures
        time.tv_nsec >= 0 ==> 1_000 * micros_of(time) <= time.tv_sec * 1_000_000_000 + time.tv_nsec
            < 1_000 * (micros_of(time) + 1),
        time.tv_nsec < 0 ==> 1_000 * micros_of(time) <= time.tv_sec * 1_000_000_000 + time.tv_nsec
            + 0x1_0000_0000_0000_0000 < 1_000 * (micros_of(time) + 1),
{
}

/// A time is refused if its seconds are negative, or if it has a second or more in
/// nanoseconds, and not otherwise.
pub proof fn lemma_refused_times(time: Timespec)
    ensures
        !valid_time(time) <==> time.tv_sec < 0 || time.tv_nsec >= 1_000_000_000,
{
}

/// How a task sleeps. From ten milliseconds on it is blocked, and it is to wake up when
/// that time has passed; for a shorter time it waits until the counter of the machine has
/// gone on by as much; for no time at all it does nothing. Nothing else changes.
pub proof fn lemma_nap_effect(
    c: CoreState,
    usecs: int,
    ticks: u64,
    timestamp: u64,
    frequency: u64,
)
    requires
        crate::scheduler::state::inv(c),
        c.tasks[c.current.0].status == TaskStatus::Running,
        0 <= usecs,
        ticks + usecs <= u64::MAX,
        timestamp + frequency * usecs <= u64::MAX,
    ensures
        ({
            let d = napped(c, usecs, ticks);
            let nap = nap_of(usecs, timestamp, frequency);
            &&& usecs >= 10_000 ==> {
                &&& nap is Blocked
                &&& crate::scheduler::effects::same_core(c, d)
                &&& d.ready == c.ready
                &&& d.timers == c.timers.push((ticks + usecs) as u64)
                &&& crate::scheduler::effects::status_changed(
                    c,
                    d,
                    c.current,
                    TaskStatus::Blocked,
                )
                &&& exists|i: int| #[trigger]
                    crate::scheduler::effects::is_inserted(
                        c.blocked,
                        d.blocked,
                        i,
                        c.current,
                        Some((ticks + usecs) as u64),
                    )
            }
            &&& usecs < 10_000 ==> d == c
            &&& 0 < usecs < 10_000 ==> (nap matches Nap::Busy { end } && end - timestamp
                == frequency * usecs)
            &&& usecs == 0 ==> nap is Nothing
        }),
{
    assert(frequency * usecs >= 0) by (nonlinear_arith)
        requires
            frequency >= 0,
            usecs >= 0,
    ;
    crate::scheduler::effects::lemma_block_effect(c, Some((ticks + usecs) as u64));
}

/// A task that sleeps for a time of ten milliseconds or more is blocked, and is to wake up as many
/// microseconds from now as there are whole ones in the time. A time that is not valid is refused
/// with -22, and nothing changes.
pub proof fn lemma_nanosleep_result(
    s: &mut PerCoreScheduler,
    m: Machine,
    time: Timespec,
    ticks: u64,
    timestamp: u64,
    frequency: u64,
    r: (i32, Nap),
    wakeup: u64,
)
    requires
        old(s).wf(&m),
        valid_time(time) ==> can_nap(old(s), micros_of(time), ticks, timestamp, frequency),
        call_ensures(sys_nanosleep, (s, &m, time, ticks, timestamp, frequency), r),
    ensures
        r.0 == 0 <==> time.tv_sec >= 0 && time.tv_nsec < 1_000_000_000,
        r.0 == 0 || r.0 == -22,
        r.0 != 0 ==> final(s).state(&m) == old(s).state(&m) && r.1 is Nothing,
        r.0 == 0 && time.tv_nsec >= 0 && time.tv_sec * 1_000_000_000 + time.tv_nsec >= 10_000_000
            && (wakeup - ticks) * 1_000 <= time.tv_sec * 1_000_000_000 + time.tv_nsec < (wakeup
            - ticks + 1) * 1_000 ==> {
            &&& r.1 is Blocked
            &&& final(s).tasks@[old(s).current_task.0].status == TaskStatus::Blocked
            &&& final(s).timer_requests@ == old(s).timer_requests@.push(wakeup)
            &&& exists|i: int| #[trigger]
                crate::scheduler::effects::is_inserted(
                    old(s).blocked_tasks@,
                    final(s).blocked_tasks@,
                    i,
                    old(s).current_task,
                    Some(wakeup),
                )
        },
        r.0 == 0 && time.tv_nsec >= 0 && time.tv_sec * 1_000_000_000 + time.tv_nsec < 10_000_000
            ==> final(s).state(&m) == old(s).state(&m),
{
    let c = old(s).state(&m);
    let d = final(s).state(&m);
    assert(d.tasks == final(s).tasks@ && d.timers == final(s).timer_requests@ && d.blocked
        == final(s).blocked_tasks@);
    if valid_time(time) && time.tv_nsec >= 0 {
        let usecs = micros_of(time);
        lemma_whole_microseconds(time);
        if usecs >= 10_000 {
            crate::scheduler::effects::lemma_block_effect(c, Some((ticks + usecs) as u64));
        }
    }
}

/// Sleeping for milliseconds is sleeping for a thousand times as many microseconds.
pub proof fn lemma_msleep_result(
    a: &mut PerCoreScheduler,
    b: &mut PerCoreScheduler,
    m: Machine,
    ms: u32,
    usecs: u64,
    ticks: u64,
    timestamp: u64,
    frequency: u64,
    r: Nap,
    s: Nap,
)
    requires
        *old(a) == *old(b),
        old(a).wf(&m),
        usecs == ms * 1_000,
        can_nap(old(a), usecs as int, ticks, timestamp, frequency),
        call_ensures(sys_msleep, (a, &m, ms, ticks, timestamp, frequency), r),
        call_ensures(sys_usleep, (b, &m, usecs, ticks, timestamp, frequency), s),
    ensures
        r == s,
        final(a).state(&m) == final(b).state(&m),
        usecs >= 10_000 ==> r is Blocked && final(a).timer_requests@ == old(
            a,
        ).timer_requests@.push((ticks + usecs) as u64),
        usecs < 10_000 ==> final(a).state(&m) == old(a).state(&m),
        0 < usecs < 10_000 ==> r is Busy,
        usecs == 0 ==> r is Nothing,
{
    let c = old(a).state(&m);
    assert(final(a).state(&m).timers == final(a).timer_requests@);
    if usecs >= 10_000 {
        crate::scheduler::effects::lemma_block_effect(c, Some((ticks + usecs) as u64));
    }
}

/// A task that blocks itself for at most so many milliseconds is to wake up a thousand times as
/// many microseconds from now, and can be woken by its identifier until then.
pub proof fn lemma_block_with_timeout_result(
    b: &mut BlockedTasks,
    s: &mut PerCoreScheduler,
    m: Machine,
    timeout: u64,
    ticks: u64,
)
    requires
        old(s).wf(&m),
        old(s).tasks@[old(s).current_task.0].status == TaskStatus::Running,
        ticks + timeout * 1000 <= u64::MAX,
        call_ensures(
            BlockedTasks::sys_block_current_task_with_timeout,
            (b, s, &m, timeout, ticks),
            (),
        ),
    ensures
        final(b)@.contains_key(old(s).current_task.0),
        final(b)@[old(s).current_task.0].core_id == old(s).tasks@[old(s).current_task.0].core_id,
        final(s).tasks@[old(s).current_task.0].status == TaskStatus::Blocked,
        final(s).timer_requests@ == old(s).timer_requests@.push((ticks + 1_000 * timeout) as u64),
{
    let c = old(s).state(&m);
    crate::scheduler::effects::lemma_block_effect(c, Some((ticks + 1_000 * timeout) as u64));
    assert(final(s).state(&m).timers == final(s).timer_requests@);
    assert(final(s).state(&m).tasks == final(s).tasks@);
}

/// The priority that a task is told is its own, and only its own: of another task it is told -22.
pub proof fn lemma_getprio_result(s: PerCoreScheduler, m: Machine, id: Option<i32>, r: i32)
    requires
        s.wf(&m),
        call_ensures(sys_getprio, (&s, &m, id), r),
    ensures
        id is None || id == Some(s.current_task.0) ==> r == s.tasks@[s.current_task.0].prio.0,
        id is Some && id != Some(s.current_task.0) ==> r == -22,
{
}

} // verus!
