//! What is asked of a core's scheduler and set in it.

use vstd::prelude::*;

use crate::arch::aarch64::kernel::interrupts::ids::SGI_RESCHED;
use crate::arch::aarch64::kernel::stacks::MARKER_SIZE;
use crate::scheduler::per_core::{Machine, PerCoreScheduler};
use crate::scheduler::registry::TaskRegistry;
use crate::scheduler::state::CoreState;
use crate::scheduler::task::handle::TaskHandle;
use crate::scheduler::task::{
    FpuState, FrameLocation, Priority, Task, TaskId, TaskStatus, NO_PRIORITIES,
};

verus! {

/// `c` with another priority of the task `id`.
pub open spec fn with_prio(c: CoreState, id: TaskId, prio: Priority) -> CoreState {
    CoreState { tasks: c.tasks.insert(id.0, Task { prio, ..c.tasks[id.0] }), ..c }
}

/// Changing a task's priority keeps the invariant.
pub proof fn lemma_with_prio(c: CoreState, id: TaskId, prio: Priority)
    requires
        crate::scheduler::state::inv(c),
        c.tasks.contains_key(id.0),
        prio.0 < NO_PRIORITIES,
    ensures
        crate::scheduler::state::inv(with_prio(c, id, prio)),
{
    let d = with_prio(c, id, prio);
    assert forall|k: i32| #[trigger] d.tasks.contains_key(k) implies
        crate::scheduler::state::task_ok(d, k) && crate::scheduler::state::status_ok(d, k)
        && crate::scheduler::state::slot_ok(d, k) && crate::scheduler::state::frames_ok(d, k) by {
        assert(c.tasks.contains_key(k));
        assert(crate::scheduler::state::task_ok(c, k) && crate::scheduler::state::status_ok(c, k)
            && crate::scheduler::state::slot_ok(c, k) && crate::scheduler::state::frames_ok(c, k));
    }
    assert(crate::scheduler::state::queues_ok(d));
}

/// What becomes of a wish to change a task's priority.
#[derive(Copy, Clone, Debug, Eq, PartialEq, Structural)]
pub enum PriorityChange {
    /// The priority was changed.
    Changed,
    /// The task lives on another core, where it is not changed from here.
    OtherCore,
}

impl PerCoreScheduler {
    /// The handle of the running task.
    pub open spec fn current_handle(&self) -> TaskHandle {
        let task = self.tasks@[self.current_task.0];
        TaskHandle { id: task.id, priority: task.prio, core_id: task.core_id }
    }

    /// The handle of the running task.
    pub fn get_current_task_handle(&self, machine: &Machine) -> (r: TaskHandle)
        requires
            self.wf(machine),
        ensures
            r == self.current_handle(),
    {
        let task: &Task = self.tasks.get(self.current_task);
        TaskHandle::new(task.id, task.prio, task.core_id)
    }

    /// The identifier of the running task.
    pub fn get_current_task_id(&self) -> (r: TaskId)
        ensures
            r == self.current_task,
    {
        self.current_task
    }

    /// Where the register frame of the running task lies.
    pub fn get_current_task_frame_location(&self, machine: &Machine) -> (r: FrameLocation)
        requires
            self.wf(machine),
        ensures
            r == self.tasks@[self.current_task.0].frame_location,
    {
        self.tasks.get(self.current_task).frame_location
    }

    /// The top of the running task's kernel stack.
    pub fn get_current_task_kernel_stack_top(&self, machine: &Machine) -> (r: u64)
        requires
            self.wf(machine),
        ensures
            r == self.tasks@[self.current_task.0].stacks.kernel_stack_top(),
    {
        proof {
            assert(crate::scheduler::state::task_ok(self.state(machine), self.current_task.0));
        }
        let stacks = self.tasks.get(self.current_task).stacks;
        stacks.get_kernel_stack() + stacks.get_kernel_stack_size() as u64
    }

    /// The bottom and the top of the running task's kernel stack, and the
    /// number of the task's identifier.
    pub fn get_current_task_kstack_bounds(&self, machine: &Machine) -> (r: (u64, u64, i32))
        requires
            self.wf(machine),
        ensures
            r.0 == self.tasks@[self.current_task.0].stacks.kernel_stack(),
            r.1 == self.tasks@[self.current_task.0].stacks.kernel_stack_top(),
            r.2 == self.current_task.0,
    {
        proof {
            assert(crate::scheduler::state::task_ok(self.state(machine), self.current_task.0));
        }
        let task: &Task = self.tasks.get(self.current_task);
        let base: u64 = task.stacks.get_kernel_stack();
        let top: u64 = base + task.stacks.get_kernel_stack_size() as u64;
        (base, top, task.id.into())
    }

    /// Where the register frame of the running task lay when it last stopped.
    pub fn get_last_stack_pointer(&self, machine: &Machine) -> (r: u64)
        requires
            self.wf(machine),
        ensures
            r == self.tasks@[self.current_task.0].last_stack_pointer,
    {
        self.tasks.get(self.current_task).last_stack_pointer
    }

    /// The value that lets the scheduler of this core run when it is written to
    /// the register for software-generated interrupts.
    pub fn reschedule(&self, smp: bool) -> (r: u64)
        requires
            smp ==> self.core_id < 64,
        ensures
            r == crate::arch::aarch64::kernel::interrupts::ids::spec_sgi_value(
                SGI_RESCHED,
                if smp {
                    self.core_id
                } else {
                    0
                },
            ),
    {
        let core_id: u32 = if smp {
            self.core_id
        } else {
            0
        };
        crate::arch::aarch64::kernel::interrupts::ids::wakeup_core(core_id)
    }

    /// Whether the core can switch to the running task without a trap on the
    /// next use of the floating-point registers: they are that task's already,
    /// or the task is the idle task, which does not use them.
    pub fn keeps_fpu(&self, machine: &Machine) -> (r: bool)
        requires
            self.wf(machine),
        ensures
            r == (self.tasks@[self.current_task.0].status == TaskStatus::Idle || self.current_task
                == self.fpu_owner),
    {
        let is_idle: bool = self.tasks.get(self.current_task).status == TaskStatus::Idle;
        is_idle || self.current_task == self.fpu_owner
    }

    /// The stack pointer with which the kernel is entered from the running
    /// task: below the marker of its kernel stack.
    pub fn set_current_kernel_stack(&self, machine: &Machine) -> (r: u64)
        requires
            self.wf(machine),
        ensures
            r == self.tasks@[self.current_task.0].stacks.kernel_stack_top() - MARKER_SIZE,
    {
        proof {
            assert(crate::scheduler::state::task_ok(self.state(machine), self.current_task.0));
        }
        let stacks = self.tasks.get(self.current_task).stacks;
        stacks.get_kernel_stack() + stacks.get_kernel_stack_size() as u64 - MARKER_SIZE as u64
    }

    /// The priority of the running task.
    pub fn get_current_task_prio(&self, machine: &Machine) -> (r: Priority)
        requires
            self.wf(machine),
        ensures
            r == self.tasks@[self.current_task.0].prio,
    {
        self.tasks.get(self.current_task).prio
    }

    /// The bitmap of the priorities for which tasks are ready.
    pub fn get_priority_bitmap(&self) -> (r: &u64)
        ensures
            *r == self.ready_queue.bitmap(),
    {
        self.ready_queue.get_priority_bitmap()
    }

    /// Whether a task of higher priority than the running one is ready.
    pub fn is_scheduling(&self, machine: &Machine) -> (r: bool)
        requires
            self.wf(machine),
        ensures
            r == (self.tasks@[self.current_task.0].prio.0
                < crate::scheduler::task::priority_queue::highest(self.ready_queue@)),
    {
        self.tasks.get(self.current_task).prio.into()
            < self.ready_queue.get_highest_priority().into()
    }

    /// Sets the priority of the running task.
    pub fn set_current_task_priority(&mut self, machine: &Machine, prio: Priority)
        requires
            old(self).wf(machine),
        ensures
            final(self).parts_wf(machine),
            final(self).state(machine) == with_prio(
                old(self).state(machine),
                old(self).current_task,
                prio,
            ),
            prio.0 < NO_PRIORITIES ==> final(self).wf(machine),
    {
        let ghost c = self.state(machine);
        proof {
            assert(crate::scheduler::state::task_ok(c, c.current.0));
        }
        let mut task: Task = self.tasks.take(self.current_task);
        task.prio = prio;
        self.tasks.put(task);
        assert(self.tasks@ =~= with_prio(c, c.current, prio).tasks);
        assert(self.state(machine) =~= with_prio(c, c.current, prio));
        proof {
            if prio.0 < NO_PRIORITIES {
                lemma_with_prio(c, c.current, prio);
            }
        }
    }

    /// Sets the priority of the task `id`. It fails if no such task is known. A
    /// task of another core is left alone. A task that does not run must be
    /// ready, in the queue of the priority that it was created with; it goes to
    /// the back of the queue of its new priority.
    pub fn set_priority(
        &mut self,
        machine: &Machine,
        registry: &TaskRegistry,
        id: TaskId,
        prio: Priority,
    ) -> (r: Result<PriorityChange, ()>)
        requires
            old(self).wf(machine),
            registry.tasks@.contains_key(id.0) ==> {
                let handle = registry.tasks@[id.0];
                &&& handle.id == id
                &&& handle.core_id == old(self).core_id && id != old(self).current_task ==> {
                    &&& prio.0 < NO_PRIORITIES
                    &&& handle.priority.0 < NO_PRIORITIES
                    &&& old(self).ready_queue@[handle.priority.0 as int].contains(id)
                }
            },
        ensures
            final(self).parts_wf(machine),
            prio.0 < NO_PRIORITIES || r != Ok::<PriorityChange, ()>(PriorityChange::Changed)
                ==> final(self).wf(machine),
            match r {
                Err(_) => !registry.tasks@.contains_key(id.0) && final(self).state(machine) == old(
                    self,
                ).state(machine),
                Ok(PriorityChange::OtherCore) => registry.tasks@.contains_key(id.0)
                    && registry.tasks@[id.0].core_id != old(self).core_id && final(self).state(
                    machine,
                ) == old(self).state(machine),
                Ok(PriorityChange::Changed) => {
                    let c = old(self).state(machine);
                    &&& registry.tasks@.contains_key(id.0)
                    &&& registry.tasks@[id.0].core_id == old(self).core_id
                    &&& final(self).state(machine) == (CoreState {
                        ready: if id == c.current {
                            c.ready
                        } else {
                            crate::scheduler::task::priority_queue::moved(
                                c.ready,
                                id,
                                registry.tasks@[id.0].priority.0 as int,
                                prio.0 as int,
                            )
                        },
                        ..with_prio(c, id, prio)
                    })
                },
            },
    {
        let ghost c = self.state(machine);
        let task: TaskHandle = match registry.get_task_handle(id) {
            Some(task) => task,
            None => {
                return Err(());
            },
        };
        if task.get_core_id() != self.core_id {
            return Ok(PriorityChange::OtherCore);
        }
        if self.current_task == id {
            self.set_current_task_priority(machine, prio);
            assert(self.state(machine) =~= with_prio(c, id, prio));
            return Ok(PriorityChange::Changed);
        }
        proof {
            let q = c.ready[task.priority.0 as int];
            let k = choose|k: int| 0 <= k < q.len() && q[k] == id;
            assert(c.ready[task.priority.0 as int][k] == id);
            assert(crate::scheduler::task::priority_queue::queued(c.ready, id));
            assert(crate::scheduler::state::task_ok(c, id.0));
            crate::scheduler::task::priority_queue::lemma_moved(
                c.ready,
                id,
                task.priority.0 as int,
                prio.0 as int,
            );
        }
        let moved = self.ready_queue.set_priority(task, prio);
        assert(moved is Ok);
        let mut changed: Task = self.tasks.take(id);
        changed.prio = prio;
        self.tasks.put(changed);
        proof {
            let d = with_prio(c, id, prio);
            lemma_with_prio(c, id, prio);
            let e = CoreState { ready: self.ready_queue@, ..d };
            assert(self.tasks@ =~= d.tasks);
            assert(self.state(machine) =~= e);
            assert forall|k: i32| #[trigger] e.tasks.contains_key(k) implies
                crate::scheduler::state::task_ok(e, k) && crate::scheduler::state::status_ok(e, k)
                && crate::scheduler::state::slot_ok(e, k) && crate::scheduler::state::frames_ok(
                e,
                k,
            ) by {
                assert(d.tasks.contains_key(k));
                assert(crate::scheduler::state::task_ok(d, k)
                    && crate::scheduler::state::status_ok(d, k)
                    && crate::scheduler::state::slot_ok(d, k) && crate::scheduler::state::frames_ok(
                    d,
                    k,
                ));
            }
            assert(crate::scheduler::state::queues_ok(e));
        }
        Ok(PriorityChange::Changed)
    }

    /// Hands the floating-point registers to the running task. `live` is what
    /// they hold: it is saved for their owner. Returns what is to be loaded, if
    /// the running task did not own them.
    pub fn fpu_switch(&mut self, machine: &Machine, live: FpuState) -> (r: Option<FpuState>)
        requires
            old(self).wf(machine),
        ensures
            final(self).wf(machine),
            ({
                let c = old(self).state(machine);
                if c.current == c.fpu_owner {
                    r is None && final(self).state(machine) == c
                } else {
                    &&& r == Some(c.tasks[c.current.0].last_fpu_state)
                    &&& final(self).state(machine) == (CoreState {
                        fpu_owner: c.current,
                        tasks: c.tasks.insert(
                            c.fpu_owner.0,
                            (Task { last_fpu_state: live, ..c.tasks[c.fpu_owner.0] }),
                        ),
                        ..c
                    })
                }
            }),
    {
        if self.current_task == self.fpu_owner {
            return None;
        }
        let ghost c = self.state(machine);
        proof {
            assert(crate::scheduler::state::task_ok(c, c.fpu_owner.0));
        }
        let mut owner: Task = self.tasks.take(self.fpu_owner);
        owner.last_fpu_state = live;
        self.tasks.put(owner);
        let load: FpuState = self.tasks.get(self.current_task).last_fpu_state;
        self.fpu_owner = self.current_task;
        proof {
            let d = CoreState {
                fpu_owner: c.current,
                tasks: c.tasks.insert(
                    c.fpu_owner.0,
                    Task { last_fpu_state: live, ..c.tasks[c.fpu_owner.0] },
                ),
                ..c
            };
            assert(self.tasks@ =~= d.tasks);
            assert(self.state(machine) =~= d);
            assert forall|k: i32| #[trigger] d.tasks.contains_key(k) implies
                crate::scheduler::state::task_ok(d, k) && crate::scheduler::state::status_ok(d, k)
                && crate::scheduler::state::slot_ok(d, k) && crate::scheduler::state::frames_ok(
                d,
                k,
            ) by {
                assert(c.tasks.contains_key(k));
                assert(crate::scheduler::state::task_ok(c, k)
                    && crate::scheduler::state::status_ok(c, k)
                    && crate::scheduler::state::slot_ok(c, k) && crate::scheduler::state::frames_ok(
                    c,
                    k,
                ));
            }
            assert(crate::scheduler::state::queues_ok(d));
        }
        Some(load)
    }

    /// Notes where the register frame of a task that stopped lies.
    pub fn save_stack_pointer(&mut self, machine: &Machine, id: TaskId, frame: u64)
        requires
            old(self).wf(machine),
            old(self).tasks@.contains_key(id.0),
            crate::memory::frame_mapped(machine.memory@, frame as int),
        ensures
            final(self).wf(machine),
            final(self).state(machine) == (CoreState {
                tasks: old(self).tasks@.insert(
                    id.0,
                    (Task { last_stack_pointer: frame, ..old(self).tasks@[id.0] }),
                ),
                ..old(self).state(machine)
            }),
    {
        let ghost c = self.state(machine);
        proof {
            assert(crate::scheduler::state::task_ok(c, id.0));
        }
        let mut task: Task = self.tasks.take(id);
        task.last_stack_pointer = frame;
        self.tasks.put(task);
        proof {
            let d = CoreState {
                tasks: c.tasks.insert(
                    id.0,
                    Task { last_stack_pointer: frame, ..c.tasks[id.0] },
                ),
                ..c
            };
            assert(self.tasks@ =~= d.tasks);
            assert(self.state(machine) =~= d);
            assert forall|k: i32| #[trigger] d.tasks.contains_key(k) implies
                crate::scheduler::state::task_ok(d, k) && crate::scheduler::state::status_ok(d, k)
                && crate::scheduler::state::slot_ok(d, k) && crate::scheduler::state::frames_ok(
                d,
                k,
            ) by {
                assert(c.tasks.contains_key(k));
                assert(crate::scheduler::state::task_ok(c, k)
                    && crate::scheduler::state::status_ok(c, k)
                    && crate::scheduler::state::slot_ok(c, k) && crate::scheduler::state::frames_ok(
                    c,
                    k,
                ));
            }
            assert(crate::scheduler::state::queues_ok(d));
        }
    }
}

} // verus!
