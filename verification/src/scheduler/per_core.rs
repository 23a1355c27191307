//! The scheduler of a core.

use vstd::prelude::*;

use std::collections::VecDeque;

use crate::arch::aarch64::kernel::slot_pool::SlotPool;
use crate::duration::Duration;
use crate::memory::Memory;
use crate::scheduler::state::CoreState;
use crate::scheduler::task::blocked::BlockedTaskQueue;
use crate::scheduler::task::priority_queue::PriorityTaskQueue;
use crate::scheduler::task::table::TaskTable;
use crate::scheduler::task::{FrameLocation, Task, TaskId, TaskStatus};

verus! {

/// The memory of the machine and the exception slots in it.
pub struct Machine {
    pub memory: Memory,
    pub slots: SlotPool,
}

/// The scheduler of a core: its tasks and the queues they are in.
pub struct PerCoreScheduler {
    /// The core.
    pub core_id: u32,
    /// The task that runs.
    pub current_task: TaskId,
    /// The idle task.
    pub idle_task: TaskId,
    /// The task whose floating-point registers are loaded.
    pub fpu_owner: TaskId,
    /// The tasks that are ready.
    pub ready_queue: PriorityTaskQueue,
    /// The tasks that ended and wait to be released.
    pub finished_tasks: VecDeque<TaskId>,
    /// The blocked tasks, sorted by the time at which they wake up.
    pub blocked_tasks: BlockedTaskQueue,
    /// The tasks.
    pub tasks: TaskTable,
    /// The kernel stack pointer for the running task.
    pub kernel_sp: u64,
    /// The times for which the timer is to be set.
    pub timer_requests: Vec<u64>,
}

/// What came of running the scheduler.
pub struct Rescheduled {
    /// The task that ran before, if another one runs now. Its stack pointer is
    /// to be saved.
    pub previous: Option<TaskId>,
    /// The tasks that were released.
    pub reaped: Vec<Task>,
    /// Whether the reactor is to be poked: a task was released on the core that
    /// does input and output, and may have left data to be sent.
    pub poke_reactor: bool,
}

impl PerCoreScheduler {
    /// What scheduling on this core depends on.
    pub open spec fn state(&self, machine: &Machine) -> CoreState {
        CoreState {
            core_id: self.core_id,
            current: self.current_task,
            idle: self.idle_task,
            fpu_owner: self.fpu_owner,
            tasks: self.tasks@,
            ready: self.ready_queue@,
            blocked: self.blocked_tasks@,
            finished: self.finished_tasks@,
            kernel_sp: self.kernel_sp,
            timers: self.timer_requests@,
            slot_base: machine.slots.base(),
            owners: machine.slots.owners(self.core_id),
            words: machine.memory@,
        }
    }

    /// The parts are well-formed.
    pub open spec fn parts_wf(&self, machine: &Machine) -> bool {
        &&& self.ready_queue.wf()
        &&& machine.memory.wf()
        &&& machine.slots.wf()
        &&& machine.slots.core_fits(self.core_id)
    }

    /// The invariant of the scheduler.
    pub open spec fn wf(&self, machine: &Machine) -> bool {
        &&& self.parts_wf(machine)
        &&& crate::scheduler::state::inv(self.state(machine))
    }

    /// Whether this scheduler, now `after`, is in the state `c`, with every
    /// other core's slots as they were.
    pub open spec fn became(
        &self,
        machine: &Machine,
        c: CoreState,
        after: &PerCoreScheduler,
        machine_after: &Machine,
    ) -> bool {
        &&& after.parts_wf(machine_after)
        &&& after.state(machine_after) == c
        &&& machine.slots.changed(self.core_id, c.owners, &machine_after.slots)
    }

    /// Makes sure that the task `id`, which is about to run at `now`
    /// microseconds, has an exception slot if it needs one and one can be had.
    /// If none is free, the stalest blocked task is evicted from its own. If
    /// there is none to evict, the task runs from its kernel stack.
    pub fn ensure_slot(&mut self, machine: &mut Machine, id: TaskId, now: u64)
        requires
            old(self).parts_wf(old(machine)),
            crate::scheduler::state::consistent(old(self).state(old(machine))),
            old(self).tasks@.contains_key(id.0),
            crate::scheduler::state::live(old(self).tasks@[id.0]),
            !crate::scheduler::task::blocked::names(old(self).blocked_tasks@, id),
        ensures
            old(self).became(
                old(machine),
                crate::scheduler::state::slot_ensured(old(self).state(old(machine)), id, now),
                final(self),
                final(machine),
            ),
            crate::scheduler::state::consistent(final(self).state(final(machine))),
    {
        let ghost c = self.state(machine);
        let ghost t = crate::scheduler::state::touched(c, id, now);
        let ghost pool = machine.slots;
        proof {
            crate::scheduler::state::lemma_slot_ensured(c, id, now);
            crate::scheduler::state::lemma_touched(c, id, now);
            assert(t.tasks.contains_key(id.0));
            assert(crate::scheduler::state::frames_ok(t, id.0));
            assert(crate::scheduler::state::task_ok(t, id.0));
            assert(pool.all_owners() =~= pool.all_owners().update(
                crate::arch::aarch64::kernel::slot_pool::owner_index(self.core_id),
                c.owners,
            ));
            assert(pool.frames_mapped(self.core_id, c.words));
        }
        let mut task: Task = self.tasks.take(id);
        task.last_touch = Duration::from_micros(now);
        assert(task == t.tasks[id.0]);
        if task.slot.is_some() && task.frame_location == FrameLocation::InSlot {
            self.tasks.put(task);
            assert(self.tasks@ =~= t.tasks);
            return;
        }
        let frame: u64 = task.last_stack_pointer;
        if frame != 0 {
            proof {
                assert(crate::memory::word_at(frame as int, 0) == frame);
                assert(machine.memory@.contains_key(frame));
            }
            let spsel: u64 = machine.memory.read(frame);
            if spsel & 1 == 1 {
                self.tasks.put(task);
                assert(self.tasks@ =~= t.tasks);
                return;
            }
        }
        assert(!crate::scheduler::state::stays(t, id));
        if task.frame_location == FrameLocation::Evicted {
            if machine.slots.resume_from_evicted(self.core_id, &mut task, &mut machine.memory) {
                self.tasks.put(task);
                proof {
                    let free = crate::arch::aarch64::kernel::slot_pool::first_free(c.owners);
                    assert(self.tasks@ =~= crate::scheduler::state::given_slot(t, id, free).tasks);
                    assert(self.state(machine) =~= crate::scheduler::state::given_slot(
                        t,
                        id,
                        free,
                    ));
                }
                return;
            }
        }
        if machine.slots.dispatch_acquire_slot(self.core_id, &mut task, &mut machine.memory) {
            self.tasks.put(task);
            proof {
                let free = crate::arch::aarch64::kernel::slot_pool::first_free(c.owners);
                assert(self.tasks@ =~= crate::scheduler::state::given_slot(t, id, free).tasks);
                assert(self.state(machine) =~= crate::scheduler::state::given_slot(t, id, free));
            }
            return;
        }
        self.tasks.put(task);
        assert(self.tasks@ =~= t.tasks);
        assert(self.state(machine) =~= t);
        let when = Duration::from_micros(now);
        proof {
            assert forall|i: int| 0 <= i < self.blocked_tasks@.len() implies self.tasks@.contains_key(
                (#[trigger] self.blocked_tasks@[i]).task.0,
            ) && self.tasks@[self.blocked_tasks@[i].task.0].last_touch.wf() by {
                let b = self.blocked_tasks@[i].task;
                assert(crate::scheduler::task::blocked::names(t.blocked, b));
                assert(crate::scheduler::state::task_ok(t, b.0));
            }
        }
        match self.blocked_tasks.select_eviction_victim(&self.tasks, id, when) {
            None => {},
            Some(v) => {
                proof {
                    assert(crate::scheduler::task::blocked::names(t.blocked, v));
                    assert(t.tasks.contains_key(v.0));
                    assert(crate::scheduler::state::slot_ok(t, v.0));
                    assert(crate::scheduler::state::frames_ok(t, v.0));
                    assert(crate::scheduler::state::task_ok(t, v.0));
                    crate::scheduler::state::lemma_slot_taken(t, v);
                }
                let ghost e = crate::scheduler::state::slot_taken(t, v);
                let mut victim: Task = self.tasks.take(v);
                let slot_idx: usize = victim.slot.unwrap();
                let woken: bool = machine.slots.evict_victim(
                    self.core_id,
                    &mut victim,
                    slot_idx,
                    &mut machine.memory,
                );
                // Wakes and evictions of a task happen on its own core, one
                // after the other, so that no wake can have been deferred.
                assert(!woken);
                self.tasks.put(victim);
                proof {
                    assert(self.tasks@ =~= e.tasks);
                    assert(self.state(machine) =~= e);
                    assert(crate::scheduler::state::frames_ok(e, id.0));
                    assert(e.tasks[id.0] == t.tasks[id.0]);
                    assert(machine.slots.frames_mapped(self.core_id, e.words));
                    crate::arch::aarch64::kernel::slot_pool::lemma_first_free(c.owners);
                    crate::arch::aarch64::kernel::slot_pool::lemma_is_first_free(
                        e.owners,
                        slot_idx as int,
                    );
                }
                let mut task: Task = self.tasks.take(id);
                let acquired: bool = machine.slots.dispatch_acquire_slot(
                    self.core_id,
                    &mut task,
                    &mut machine.memory,
                );
                assert(acquired);
                self.tasks.put(task);
                proof {
                    let g = crate::scheduler::state::given_slot(e, id, slot_idx as int);
                    assert(self.tasks@ =~= g.tasks);
                    assert(self.state(machine) =~= g);
                    assert(machine.slots.all_owners() =~= pool.all_owners().update(
                        crate::arch::aarch64::kernel::slot_pool::owner_index(self.core_id),
                        g.owners,
                    ));
                }
            },
        }
    }

    /// Releases the tasks that ended. They are handed to the caller, who gives
    /// back their stacks and closes their files.
    pub fn cleanup_tasks(&mut self, machine: &Machine) -> (r: Vec<Task>)
        requires
            old(self).wf(machine),
        ensures
            final(self).wf(machine),
            final(self).state(machine) == crate::scheduler::state::reaped(old(self).state(machine)),
            r@ == old(self).finished_tasks@.map_values(|t: TaskId| old(self).tasks@[t.0]),
    {
        let ghost c = self.state(machine);
        proof {
            crate::scheduler::state::lemma_reaped(c);
        }
        let mut released: Vec<Task> = Vec::new();
        let ghost mut done: int = 0;
        while self.finished_tasks.len() > 0
            invariant
                0 <= done <= c.finished.len(),
                crate::scheduler::state::inv(c),
                self.parts_wf(machine),
                self.finished_tasks@ == c.finished.skip(done),
                released@.len() == done,
                forall|i: int|
                    0 <= i < done ==> #[trigger] released@[i] == c.tasks[c.finished[i].0],
                forall|k: i32| #[trigger]
                    self.tasks@.contains_key(k) <==> c.tasks.contains_key(k) && !c.finished.take(
                        done,
                    ).contains(TaskId(k)),
                forall|k: i32| #[trigger] self.tasks@.contains_key(k) ==> self.tasks@[k] == c.tasks[k],
                self.state(machine) == (CoreState {
                    tasks: self.tasks@,
                    finished: self.finished_tasks@,
                    ..c
                }),
            decreases c.finished.len() - done,
        {
            let finished_task: TaskId = self.finished_tasks.pop_front().unwrap();
            proof {
                assert(finished_task == c.finished[done]);
                assert(c.finished.contains(finished_task));
                assert(c.tasks.contains_key(finished_task.0));
                assert(!c.finished.take(done).contains(finished_task)) by {
                    if c.finished.take(done).contains(finished_task) {
                        let i = choose|i: int| 0 <= i < done && c.finished.take(done)[i] == finished_task;
                        assert(c.finished[i] == c.finished[done]);
                    }
                }
                assert(self.tasks@.contains_key(finished_task.0));
            }
            let ghost before = self.tasks@;
            let task: Task = self.tasks.take(finished_task);
            released.push(task);
            proof {
                assert forall|k: i32| #[trigger]
                    self.tasks@.contains_key(k) <==> c.tasks.contains_key(k) && !c.finished.take(
                        done + 1,
                    ).contains(TaskId(k)) by {
                    let a = c.finished.take(done);
                    let b = c.finished.take(done + 1);
                    assert(b =~= a.push(finished_task));
                    if b.contains(TaskId(k)) {
                        let i = choose|i: int| 0 <= i < b.len() && b[i] == TaskId(k);
                        if i < done {
                            assert(a[i] == TaskId(k));
                        }
                    }
                    if a.contains(TaskId(k)) {
                        let i = choose|i: int| 0 <= i < a.len() && a[i] == TaskId(k);
                        assert(b[i] == TaskId(k));
                    }
                    if k == finished_task.0 {
                        assert(b[done] == TaskId(k));
                    }
                    assert(before.contains_key(k) || !before.contains_key(k));
                }
                assert(self.finished_tasks@ =~= c.finished.skip(done + 1));
                done = done + 1;
            }
        }
        proof {
            assert(c.finished.take(done) =~= c.finished);
            assert(self.tasks@ =~= crate::scheduler::state::reaped(c).tasks);
            assert(self.finished_tasks@ =~= Seq::<TaskId>::empty());
            assert(released@ =~= c.finished.map_values(|t: TaskId| c.tasks[t.0]));
        }
        released
    }

    /// If the running task ended, it waits to be released from now on.
    fn retire_current(&mut self, machine: &Machine)
        requires
            old(self).wf(machine),
            old(self).finished_tasks@.len() == 0,
        ensures
            final(self).parts_wf(machine),
            final(self).state(machine) == crate::scheduler::state::retired(
                old(self).state(machine),
            ),
            crate::scheduler::state::consistent(final(self).state(machine)),
    {
        let ghost r = self.state(machine);
        proof {
            crate::scheduler::state::lemma_retired(r);
            assert(crate::scheduler::state::task_ok(r, r.current.0));
        }
        let id: TaskId = self.current_task;
        if self.tasks.get(id).status == TaskStatus::Finished {
            if self.fpu_owner == self.current_task {
                self.fpu_owner = self.idle_task;
            }
            let mut current: Task = self.tasks.take(id);
            current.status = TaskStatus::Invalid;
            self.tasks.put(current);
            self.finished_tasks.push_back(id);
            let ghost d = crate::scheduler::state::retired(r);
            assert(self.tasks@ =~= d.tasks);
            assert(self.state(machine) =~= d);
        }
    }

    /// Takes the task that runs next from its queue and makes it the running
    /// one. The running task's status was `status` before it was retired. If it
    /// could go on, it is ready again.
    fn pick_next(&mut self, machine: &Machine, status: TaskStatus) -> (r: Option<TaskId>)
        requires
            old(self).parts_wf(machine),
            crate::scheduler::state::consistent(old(self).state(machine)),
            status == TaskStatus::Finished ==> old(self).tasks@[old(self).current_task.0].status
                == TaskStatus::Invalid,
            status != TaskStatus::Finished ==> old(self).tasks@[old(self).current_task.0].status
                == status,
            status != TaskStatus::Invalid,
        ensures
            final(self).parts_wf(machine),
            r == crate::scheduler::state::next_task(old(self).state(machine), status),
            final(self).state(machine) == (match r {
                None => old(self).state(machine),
                Some(n) => crate::scheduler::state::handed_over(
                    old(self).state(machine),
                    status,
                    n,
                ),
            }),
    {
        let ghost d = self.state(machine);
        let id: TaskId = self.current_task;
        let prio = self.tasks.get(id).prio;
        proof {
            crate::scheduler::task::priority_queue::lemma_highest_below(
                d.ready,
                d.ready.len() as int,
            );
            assert(crate::scheduler::state::task_ok(d, id.0));
        }
        let ready: Option<TaskId> = if status == TaskStatus::Running {
            self.ready_queue.pop_with_prio(prio)
        } else {
            self.ready_queue.pop()
        };
        let new_task: Option<TaskId> = match ready {
            Some(task) => Some(task),
            None => if status != TaskStatus::Running && status != TaskStatus::Idle {
                Some(self.idle_task)
            } else {
                None
            },
        };
        let task: TaskId = match new_task {
            Some(task) => task,
            None => {
                return None;
            },
        };
        proof {
            crate::scheduler::state::lemma_handed_over(d, status, task);
            assert(d.tasks.contains_key(task.0)) by {
                assert(crate::scheduler::state::handed_over(d, status, task).tasks.contains_key(
                    task.0,
                ));
            }
            assert(crate::scheduler::state::task_ok(d, task.0));
        }
        if status == TaskStatus::Running {
            let mut current: Task = self.tasks.take(id);
            current.status = TaskStatus::Ready;
            self.tasks.put(current);
            self.ready_queue.push(id, prio);
        }
        let mut next: Task = self.tasks.take(task);
        if next.status != TaskStatus::Idle {
            next.status = TaskStatus::Running;
        }
        self.tasks.put(next);
        self.current_task = task;
        let ghost e = crate::scheduler::state::handed_over(d, status, task);
        assert(self.tasks@ =~= e.tasks);
        assert(self.ready_queue@ =~= e.ready);
        assert(self.state(machine) =~= e);
        new_task
    }

    /// Picks the task that runs next at `now` microseconds and makes it the
    /// running one. Interrupts must be off.
    pub fn scheduler(&mut self, machine: &mut Machine, now: u64) -> (r: Rescheduled)
        requires
            old(self).wf(old(machine)),
        ensures
            final(self).wf(final(machine)),
            old(self).became(
                old(machine),
                crate::scheduler::state::scheduled(old(self).state(old(machine)), now),
                final(self),
                final(machine),
            ),
            r.reaped@ == old(self).finished_tasks@.map_values(|t: TaskId| old(self).tasks@[t.0]),
            r.poke_reactor == (r.reaped@.len() > 0 && old(self).core_id == 0),
            r.previous == (if final(self).current_task == old(self).current_task {
                None
            } else {
                Some(old(self).current_task)
            }),
    {
        let ghost c = self.state(machine);
        proof {
            crate::scheduler::state::lemma_reaped(c);
            crate::scheduler::state::lemma_scheduled(c, now);
            assert(machine.slots.all_owners() =~= machine.slots.all_owners().update(
                crate::arch::aarch64::kernel::slot_pool::owner_index(self.core_id),
                c.owners,
            ));
        }
        let id: TaskId = self.current_task;
        let status: TaskStatus = self.tasks.get(id).status;
        let reaped: Vec<Task> = self.cleanup_tasks(machine);
        let poke_reactor: bool = reaped.len() > 0 && self.core_id == 0;
        let ghost r = self.state(machine);
        assert(r.tasks[id.0].status == status) by {
            assert(r.tasks.contains_key(id.0));
        }
        self.retire_current(machine);
        let ghost d = self.state(machine);
        let task: TaskId = match self.pick_next(machine, status) {
            Some(task) => task,
            None => {
                return Rescheduled { previous: None, reaped, poke_reactor };
            },
        };
        let ghost e = self.state(machine);
        proof {
            crate::scheduler::state::lemma_handed_over(d, status, task);
            crate::scheduler::state::lemma_slot_ensured(e, task, now);
        }
        self.ensure_slot(machine, task, now);
        let ghost f = self.state(machine);
        proof {
            assert(f.tasks.contains_key(task.0));
            assert(crate::scheduler::state::task_ok(f, task.0));
        }
        let stacks = self.tasks.get(task).stacks;
        self.kernel_sp = stacks.get_kernel_stack() + stacks.get_kernel_stack_size() as u64;
        assert(self.state(machine) =~= crate::scheduler::state::switched(d, status, task, now));
        if id == task {
            return Rescheduled { previous: None, reaped, poke_reactor };
        }
        Rescheduled { previous: Some(id), reaped, poke_reactor }
    }
}

} // verus!
