//! Ending tasks, waking those that wait for them, and restarting them.

use vstd::prelude::*;

use crate::arch::aarch64::kernel::slot_pool::FREE;
use crate::config::DEFAULT_STACK_SIZE;
use crate::diagnostics::FrameScan;
use crate::fd::FdTable;
use crate::scheduler::per_core::{Machine, PerCoreScheduler};
use crate::scheduler::registry::{Provided, RegistryState, TaskRegistry};
use crate::scheduler::spawn::{Child, Spawned};
use crate::scheduler::state::CoreState;
use crate::scheduler::supervisor::{EntryPointId, RestartEntry, RestartTable};
use crate::scheduler::task::handle::TaskHandle;
use crate::scheduler::task::{FrameLocation, Priority, Task, TaskId, TaskStatus};

verus! {

/// `c` and `r` once `task` was woken: on this core by hand, on another one by
/// handing it over.
pub open spec fn custom_woken(c: CoreState, r: RegistryState, task: TaskHandle) -> (
    CoreState,
    RegistryState,
) {
    if task.core_id == c.core_id {
        (crate::scheduler::wake::hand_woken(c, task.id), r)
    } else {
        (c, crate::scheduler::registry::wake_handed(r, task))
    }
}

/// `c` and `r` once the tasks of `queue` were woken in turn.
pub open spec fn all_woken(c: CoreState, r: RegistryState, queue: Seq<TaskHandle>) -> (
    CoreState,
    RegistryState,
)
    decreases queue.len(),
{
    if queue.len() == 0 {
        (c, r)
    } else {
        let (d, s) = all_woken(c, r, queue.drop_last());
        custom_woken(d, s, queue.last())
    }
}

/// Whether `task` can be woken: on this core it is blocked, and another core
/// has an input to hand it to.
pub open spec fn can_wake(c: CoreState, r: RegistryState, task: TaskHandle) -> bool {
    if task.core_id == c.core_id {
        crate::scheduler::task::blocked::names(c.blocked, task.id)
    } else {
        task.core_id < r.inputs.len()
    }
}

/// Whether the tasks of `queue` can be woken one after the other: each can be
/// woken, and none of this core is there twice.
pub open spec fn can_wake_all(c: CoreState, r: RegistryState, queue: Seq<TaskHandle>) -> bool {
    &&& forall|i: int| 0 <= i < queue.len() ==> can_wake(c, r, #[trigger] queue[i])
    &&& forall|i: int, j: int|
        0 <= i < j < queue.len() && (#[trigger] queue[i]).core_id == c.core_id && (
        #[trigger] queue[j]).core_id == c.core_id ==> queue[i].id != queue[j].id
}

/// Waking tasks in turn keeps the invariant, and leaves blocked exactly those
/// that were not woken.
pub proof fn lemma_all_woken(c: CoreState, r: RegistryState, queue: Seq<TaskHandle>)
    requires
        crate::scheduler::state::inv(c),
        can_wake_all(c, r, queue),
    ensures
        ({
            let (d, s) = all_woken(c, r, queue);
            &&& crate::scheduler::state::inv(d)
            &&& d.core_id == c.core_id
            &&& d.slot_base == c.slot_base
            &&& d.current == c.current
            &&& d.owners == c.owners
            &&& d.words == c.words
            &&& d.tasks.dom() == c.tasks.dom()
            &&& d.tasks[c.current.0] == c.tasks[c.current.0] || c.tasks[c.current.0].status
                == TaskStatus::Blocked
            &&& s.inputs.len() == r.inputs.len()
            &&& s.tasks == r.tasks
            &&& s.tid_counter == r.tid_counter
            &&& forall|t: TaskId|
                #[trigger] crate::scheduler::task::blocked::names(d.blocked, t) <==> (
                crate::scheduler::task::blocked::names(c.blocked, t) && !woken_here(c, queue, t))
        }),
    decreases queue.len(),
{
    if queue.len() > 0 {
        let init = queue.drop_last();
        let last = queue.last();
        assert(can_wake_all(c, r, init)) by {
            assert forall|i: int| 0 <= i < init.len() implies can_wake(c, r, #[trigger] init[i]) by {
                assert(init[i] == queue[i]);
            }
            assert forall|i: int, j: int|
                0 <= i < j < init.len() && (#[trigger] init[i]).core_id == c.core_id && (
                #[trigger] init[j]).core_id == c.core_id implies init[i].id != init[j].id by {
                assert(init[i] == queue[i] && init[j] == queue[j]);
            }
        }
        lemma_all_woken(c, r, init);
        let (d, s) = all_woken(c, r, init);
        assert(queue[queue.len() - 1] == last);
        assert(can_wake(c, r, last));
        assert forall|t: TaskId| #[trigger] woken_here(c, queue, t) <==> (woken_here(c, init, t) || (
        last.core_id == c.core_id && last.id == t)) by {
            if woken_here(c, queue, t) {
                let i = choose|i: int|
                    0 <= i < queue.len() && (#[trigger] queue[i]).core_id == c.core_id
                        && queue[i].id == t;
                if i < init.len() {
                    assert(init[i] == queue[i]);
                }
            }
            if woken_here(c, init, t) {
                let i = choose|i: int|
                    0 <= i < init.len() && (#[trigger] init[i]).core_id == c.core_id && init[i].id
                        == t;
                assert(queue[i] == init[i]);
            }
            if last.core_id == c.core_id && last.id == t {
                assert(queue[queue.len() - 1].id == t);
            }
        }
        if last.core_id == c.core_id {
            assert(!woken_here(c, init, last.id)) by {
                if woken_here(c, init, last.id) {
                    let i = choose|i: int|
                        0 <= i < init.len() && (#[trigger] init[i]).core_id == c.core_id
                            && init[i].id == last.id;
                    assert(queue[i].id == queue[queue.len() - 1].id);
                }
            }
            assert(crate::scheduler::task::blocked::names(d.blocked, last.id));
            crate::scheduler::wake::lemma_hand_woken(d, last.id);
            let e = crate::scheduler::wake::hand_woken(d, last.id);
            assert(d.tasks.contains_key(last.id.0));
            assert(e.tasks.dom() =~= d.tasks.dom());
            assert(c.tasks.contains_key(last.id.0));
        }
    }
}

/// Whether `queue` names the task `t` of this core.
pub open spec fn woken_here(c: CoreState, queue: Seq<TaskHandle>, t: TaskId) -> bool {
    exists|i: int|
        0 <= i < queue.len() && (#[trigger] queue[i]).core_id == c.core_id && queue[i].id == t
}

/// `c` once the running task ended: its slot is free.
pub open spec fn ended(c: CoreState) -> CoreState {
    let task = c.tasks[c.current.0];
    CoreState {
        owners: if task.frame_location == FrameLocation::InSlot && task.slot is Some {
            c.owners.update(task.slot->0 as int, FREE)
        } else {
            c.owners
        },
        ..crate::scheduler::state::with_status(c, c.current, TaskStatus::Finished)
    }
}

/// Ending the running task keeps the invariant.
pub proof fn lemma_ended(c: CoreState)
    requires
        crate::scheduler::state::inv(c),
        c.tasks[c.current.0].status == TaskStatus::Running,
    ensures
        crate::scheduler::state::inv(ended(c)),
{
    let d = ended(c);
    assert(TaskId(c.current.0) == c.current);
    assert(crate::scheduler::state::task_ok(c, c.current.0) && crate::scheduler::state::slot_ok(
        c,
        c.current.0,
    ));
    assert forall|k: i32| #[trigger] d.tasks.contains_key(k) implies
        crate::scheduler::state::task_ok(d, k) && crate::scheduler::state::status_ok(d, k)
        && crate::scheduler::state::slot_ok(d, k) && crate::scheduler::state::frames_ok(d, k) by {
        assert(c.tasks.contains_key(k));
        assert(crate::scheduler::state::task_ok(c, k) && crate::scheduler::state::status_ok(c, k)
            && crate::scheduler::state::slot_ok(c, k) && crate::scheduler::state::frames_ok(c, k));
    }
    assert(crate::scheduler::state::queues_ok(d));
}

/// One less; the number of tasks wraps around.
pub open spec fn wrapping_prev(n: u32) -> u32 {
    if n == 0 {
        u32::MAX
    } else {
        (n - 1) as u32
    }
}

/// The tasks that wait for the end of the task `id`.
pub open spec fn waiters(r: RegistryState, id: TaskId) -> Seq<TaskHandle> {
    if r.waiting.contains_key(id.0) {
        r.waiting[id.0]
    } else {
        Seq::empty()
    }
}

/// `r` once one task less is counted and nobody waits for the task `id`.
pub open spec fn discounted(r: RegistryState, id: TaskId) -> RegistryState {
    RegistryState {
        no_tasks: wrapping_prev(r.no_tasks),
        waiting: r.waiting.remove(id.0),
        ..r
    }
}

/// `c` and `r` once the running task ended, its waiters were woken, and it was
/// forgotten.
pub open spec fn exited(c: CoreState, r: RegistryState) -> (CoreState, RegistryState) {
    let (d, s) = all_woken(ended(c), discounted(r, c.current), waiters(r, c.current));
    (d, RegistryState { tasks: s.tasks.remove(c.current.0), ..s })
}

/// What a restarted task is to be.
#[derive(Copy, Clone, Debug, Eq, PartialEq, Structural)]
pub struct RestartRequest {
    /// Address of the entry point.
    pub entry: u64,
    /// Its argument.
    pub entry_arg: u64,
    /// The priority of the task that ended.
    pub prio: Priority,
}

/// Whether `entry` can be an entry point: it lies in the kernel's image, which
/// runs from `image_start` up to `image_end`, and is none of the two values
/// that can only be garbage.
pub open spec fn plausible_entry(entry: u64, image_start: u64, image_end: u64) -> bool {
    entry != 0 && entry != u64::MAX && image_start <= entry < image_end
}

/// What came of a task's end.
pub struct Exited {
    /// What the saved frame of the task looked like, if it had one.
    pub scan: Option<FrameScan>,
    /// Whether the entry point is to be started again.
    pub restart: Option<RestartRequest>,
}

/// Whether `r` is what comes of the end of `task`, whose frame is among `words`,
/// and `after` is what the restart table becomes: its entry point is to be
/// started again if the policy permits that at `now` and its address is
/// plausible.
pub open spec fn is_exit(
    task: Task,
    words: Map<u64, u64>,
    before: Seq<RestartEntry>,
    after: Seq<RestartEntry>,
    now: u64,
    image_start: u64,
    image_end: u64,
    r: Exited,
) -> bool {
    let i = crate::scheduler::supervisor::entry_index(task.entry_point_id);
    let base = task.last_stack_pointer as int;
    &&& before[i].looked_at(now, after[i])
    &&& forall|j: int| 0 <= j < 2 && j != i ==> #[trigger] after[j] == before[j]
    &&& r.restart == (if before[i].permits(now) && plausible_entry(
        task.entry,
        image_start,
        image_end,
    ) {
        Some(
            (RestartRequest { entry: task.entry, entry_arg: task.entry_arg, prio: task.prio }),
        )
    } else {
        None
    })
    &&& match r.scan {
        None => base == 0,
        Some(scan) => {
            &&& base != 0
            &&& scan.notes@ == crate::diagnostics::notes(words, base, 36)
            &&& scan.hit_any == crate::diagnostics::magic_within(words, base, 0, 36)
            &&& scan.hit_x == crate::diagnostics::magic_within(words, base, 5, 36)
        },
    }
}

impl PerCoreScheduler {
    /// Wakes a blocked task by hand. A task of another core is handed to that
    /// core, which is woken up.
    pub fn custom_wakeup(
        &mut self,
        machine: &Machine,
        registry: &mut TaskRegistry,
        task: TaskHandle,
    )
        requires
            old(self).wf(machine),
            can_wake(old(self).state(machine), old(registry)@, task),
        ensures
            final(self).wf(machine),
            (final(self).state(machine), final(registry)@) == custom_woken(
                old(self).state(machine),
                old(registry)@,
                task,
            ),
    {
        if task.get_core_id() == self.core_id {
            self.wake_local(machine, task);
        } else {
            registry.hand_wake(task);
        }
    }

    /// Marks the running task as ended and frees its slot.
    fn end_current(&mut self, machine: &mut Machine)
        requires
            old(self).wf(old(machine)),
            old(self).tasks@[old(self).current_task.0].status == TaskStatus::Running,
        ensures
            final(self).wf(final(machine)),
            old(self).became(
                old(machine),
                ended(old(self).state(old(machine))),
                final(self),
                final(machine),
            ),
            final(machine).memory == old(machine).memory,
    {
        let ghost c = self.state(machine);
        let ghost pool = machine.slots;
        proof {
            lemma_ended(c);
            assert(crate::scheduler::state::task_ok(c, c.current.0));
            assert(crate::scheduler::state::slot_ok(c, c.current.0));
            assert(pool.all_owners() =~= pool.all_owners().update(
                crate::arch::aarch64::kernel::slot_pool::owner_index(self.core_id),
                c.owners,
            ));
        }
        let mut current: Task = self.tasks.take(self.current_task);
        if current.frame_location == FrameLocation::InSlot {
            machine.slots.release_slot(self.core_id, &current);
        }
        current.status = TaskStatus::Finished;
        self.tasks.put(current);
        let ghost d = ended(c);
        assert(self.tasks@ =~= d.tasks);
        assert(self.state(machine).owners =~= d.owners);
        assert(self.state(machine) =~= d);
    }

    /// Ends the running task: it is finished, its slot is free, and those that
    /// wait for it are woken. Its entry point is to be started again if its
    /// policy permits a restart at `now` and its address is plausible. The
    /// caller then restarts it and lets the scheduler run.
    pub fn exit(
        &mut self,
        machine: &mut Machine,
        registry: &mut TaskRegistry,
        restarts: &mut RestartTable,
        now: u64,
        image_start: u64,
        image_end: u64,
    ) -> (r: Exited)
        requires
            old(self).wf(old(machine)),
            old(restarts).wf(),
            old(self).tasks@[old(self).current_task.0].status == TaskStatus::Running,
            can_wake_all(
                ended(old(self).state(old(machine))),
                old(registry)@,
                waiters(old(registry)@, old(self).current_task),
            ),
        ensures
            final(self).wf(final(machine)),
            final(restarts).wf(),
            old(machine).slots.changed(
                old(self).core_id,
                exited(old(self).state(old(machine)), old(registry)@).0.owners,
                &final(machine).slots,
            ),
            (final(self).state(final(machine)), final(registry)@) == exited(
                old(self).state(old(machine)),
                old(registry)@,
            ),
            is_exit(
                old(self).tasks@[old(self).current_task.0],
                old(machine).memory@,
                old(restarts)@,
                final(restarts)@,
                now,
                image_start,
                image_end,
                r,
            ),
    {
        let ghost c = self.state(machine);
        let ghost r0 = registry@;
        let ghost pool = machine.slots;
        let id: TaskId = self.current_task;
        proof {
            assert(crate::scheduler::state::frames_ok(c, id.0));
            assert(crate::scheduler::state::task_ok(c, id.0));
            lemma_ended(c);
        }
        let lsp: u64 = self.tasks.get(id).last_stack_pointer;
        let scan: Option<FrameScan> = if lsp != 0 {
            Some(crate::diagnostics::dump_frame_magic(&machine.memory, lsp))
        } else {
            None
        };
        self.end_current(machine);
        registry.no_tasks = registry.no_tasks.wrapping_sub(1);
        let mut queue = registry.take_waiting(id);
        let ghost e = ended(c);
        let ghost r1 = discounted(r0, id);
        let ghost whole = queue@;
        let ghost mut done: int = 0;
        proof {
            assert(registry@ =~= r1);
            assert(can_wake_all(e, r1, whole));
            assert(whole.take(0) =~= Seq::<TaskHandle>::empty());
        }
        while queue.len() > 0
            invariant
                0 <= done <= whole.len(),
                queue@ == whole.skip(done),
                self.wf(machine),
                crate::scheduler::state::inv(e),
                can_wake_all(e, r1, whole),
                machine.slots.owners(self.core_id) == e.owners,
                self.core_id == e.core_id,
                (self.state(machine), registry@) == all_woken(e, r1, whole.take(done)),
            decreases whole.len() - done,
        {
            let task: TaskHandle = queue.pop_front().unwrap();
            proof {
                let first = whole.take(done);
                let next = whole.take(done + 1);
                assert(task == whole[done]);
                assert(next.drop_last() =~= first);
                assert(next.last() == task);
                lemma_wake_prefix(e, r1, whole, done);
            }
            self.custom_wakeup(machine, registry, task);
            proof {
                done = done + 1;
                assert(queue@ =~= whole.skip(done));
                lemma_wake_prefix_owners(e, r1, whole, done);
            }
        }
        proof {
            assert(whole.take(done) =~= whole);
            lemma_all_woken(e, r1, whole);
        }
        registry.forget(id);
        assert((self.state(machine), registry@) == exited(c, r0));
        let ghost d = self.state(machine);
        proof {
            assert(d.tasks.contains_key(id.0)) by {
                assert(e.tasks.dom().contains(id.0));
                assert(d.tasks.dom().contains(id.0));
            }
            assert(d.tasks[id.0] == e.tasks[id.0]);
        }
        let finished: &Task = self.tasks.get(id);
        let ep_id: EntryPointId = finished.entry_point_id;
        let entry: u64 = finished.entry;
        let entry_arg: u64 = finished.entry_arg;
        let prio: Priority = finished.prio;
        let permitted: bool = crate::scheduler::supervisor::should_restart(restarts, ep_id, now);
        let in_image: bool = entry >= image_start && entry < image_end;
        let restart: Option<RestartRequest> = if permitted && entry != 0 && entry != u64::MAX
            && in_image {
            Some(RestartRequest { entry, entry_arg, prio })
        } else {
            None
        };
        Exited { scan, restart }
    }

    /// Starts the entry point of a task that ended again, on this core and with
    /// the priority of the task that ended.
    pub fn respawn(
        &mut self,
        machine: &mut Machine,
        registry: &mut TaskRegistry,
        request: RestartRequest,
        p: Provided,
        idle_table: &FdTable,
    ) -> (r: Spawned)
        requires
            old(self).wf(old(machine)),
            crate::scheduler::spawn::tids_known(old(registry)@, old(self).state(old(machine))),
            old(registry).tid_counter < i32::MAX,
            old(self).core_id < old(registry)@.inputs.len(),
            request.prio.0 < crate::scheduler::task::NO_PRIORITIES,
            crate::scheduler::spawn::regions_fit(p, DEFAULT_STACK_SIZE as int),
        ensures
            final(self).wf(final(machine)),
            final(machine).slots == old(machine).slots,
            crate::scheduler::spawn::tids_known(final(registry)@, final(self).state(final(machine))),
            r.tid.0 == old(registry).tid_counter,
            crate::scheduler::spawn::maps_stacks(
                p,
                DEFAULT_STACK_SIZE as int,
                r.kernel_mapping,
                r.user_mapping,
            ),
            crate::scheduler::spawn::child_spawned(
                old(self).state(old(machine)),
                old(registry)@,
                (Child {
                    tid: r.tid,
                    func: request.entry,
                    arg: request.entry_arg,
                    prio: request.prio,
                    core_id: old(self).core_id,
                    stack_size: DEFAULT_STACK_SIZE,
                }),
                p,
                idle_table@,
                final(self).state(final(machine)),
                final(registry)@,
            ),
    {
        let core_id: u32 = self.core_id;
        self.spawn(
            machine,
            registry,
            request.entry,
            request.entry_arg,
            request.prio,
            core_id,
            DEFAULT_STACK_SIZE,
            p,
            idle_table,
        )
    }
}

/// After the first tasks of a queue were woken, the next one can be woken.
proof fn lemma_wake_prefix(c: CoreState, r: RegistryState, queue: Seq<TaskHandle>, n: int)
    requires
        crate::scheduler::state::inv(c),
        can_wake_all(c, r, queue),
        0 <= n < queue.len(),
    ensures
        can_wake(all_woken(c, r, queue.take(n)).0, all_woken(c, r, queue.take(n)).1, queue[n]),
{
    let first = queue.take(n);
    lemma_can_wake_take(c, r, queue, n);
    lemma_all_woken(c, r, first);
    assert(can_wake(c, r, queue[n]));
    if queue[n].core_id == c.core_id {
        if woken_here(c, first, queue[n].id) {
            let i = choose|i: int|
                0 <= i < first.len() && (#[trigger] first[i]).core_id == c.core_id && first[i].id
                    == queue[n].id;
            assert(queue[i].id == queue[n].id);
        }
        assert(crate::scheduler::task::blocked::names(
            all_woken(c, r, first).0.blocked,
            queue[n].id,
        ));
    }
}

/// Waking the first tasks of a queue changes no owners of slots.
proof fn lemma_wake_prefix_owners(c: CoreState, r: RegistryState, queue: Seq<TaskHandle>, n: int)
    requires
        crate::scheduler::state::inv(c),
        can_wake_all(c, r, queue),
        0 <= n <= queue.len(),
    ensures
        all_woken(c, r, queue.take(n)).0.owners == c.owners,
{
    lemma_can_wake_take(c, r, queue, n);
    lemma_all_woken(c, r, queue.take(n));
}

proof fn lemma_can_wake_take(c: CoreState, r: RegistryState, queue: Seq<TaskHandle>, n: int)
    requires
        can_wake_all(c, r, queue),
        0 <= n <= queue.len(),
    ensures
        can_wake_all(c, r, queue.take(n)),
{
    let first = queue.take(n);
    assert forall|i: int| 0 <= i < first.len() implies can_wake(c, r, #[trigger] first[i]) by {
        assert(first[i] == queue[i]);
    }
    assert forall|i: int, j: int|
        0 <= i < j < first.len() && (#[trigger] first[i]).core_id == c.core_id && (
        #[trigger] first[j]).core_id == c.core_id implies first[i].id != first[j].id by {
        assert(first[i] == queue[i] && first[j] == queue[j]);
    }
}

/// What a core does that cannot go on with what it runs.
#[derive(Copy, Clone, Debug, Eq, PartialEq, Structural)]
pub enum AbortAction {
    /// End the running task with this code.
    EndTask { exit_code: i32 },
    /// There is no task yet: halt for good.
    Halt,
}

/// What a core does that cannot go on with what it runs. Before it has a
/// scheduler there is no task to end.
pub fn abort(has_scheduler: bool) -> (r: AbortAction)
    ensures
        match r {
            AbortAction::EndTask { exit_code } => has_scheduler && exit_code == -1,
            AbortAction::Halt => !has_scheduler,
        },
{
    if has_scheduler {
        AbortAction::EndTask { exit_code: -1 }
    } else {
        AbortAction::Halt
    }
}

/// The system is to stop.
#[derive(Copy, Clone, Debug, Eq, PartialEq, Structural)]
pub struct Shutdown {
    /// The code that it stops with.
    pub code: i32,
}

/// Stops the system with the code `arg`.
pub fn shutdown(arg: i32) -> (r: Shutdown)
    ensures
        r.code == arg,
{
    Shutdown { code: arg }
}

} // verus!
