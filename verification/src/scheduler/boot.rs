//! Bringing up the scheduler of a core, and its idle loop.

use vstd::prelude::*;

use std::collections::VecDeque;

use crate::arch::aarch64::kernel::scheduler::Entry;
use crate::arch::aarch64::kernel::stacks::{PageMapping, TaskStacks};
use crate::config::DEFAULT_STACK_SIZE;
use crate::memory::Memory;
use crate::scheduler::per_core::{Machine, PerCoreScheduler};
use crate::scheduler::registry::{InputState, Provided, RegistryState, SchedulerInput, TaskRegistry};
use crate::scheduler::supervisor::EntryPointId;
use crate::scheduler::task::blocked::{BlockedTask, BlockedTaskQueue};
use crate::scheduler::task::priority_queue::PriorityTaskQueue;
use crate::scheduler::task::table::TaskTable;
use crate::scheduler::task::{
    FpuState, FrameLocation, Priority, Task, TaskId, TaskStatus, IDLE_PRIO,
};

verus! {

/// The idle task of a core, with the given stacks and the entry point `entry`.
pub open spec fn idle_task(
    tid: TaskId,
    core_id: u32,
    stacks: TaskStacks,
    entry: u64,
    thread_ptr: Option<u64>,
) -> Task {
    let base = Task {
        id: tid,
        status: TaskStatus::Idle,
        prio: Priority(IDLE_PRIO),
        last_stack_pointer: stacks.persistent_frame() as u64,
        user_stack_pointer: 0,
        last_fpu_state: FpuState(0),
        core_id,
        stacks,
        frame_location: FrameLocation::InSlot,
        slot: None,
        wake_pending: false,
        last_touch: crate::duration::Duration { secs: 0, nanos: 0 },
        object_map: None,
        entry,
        entry_arg: 0,
        entry_point_id: EntryPointId::Idle,
        tls: thread_ptr,
    };
    Task { user_stack_pointer: base.user_marker() as u64, ..base }
}

impl Task {
    /// The idle task of a core. It uses the open files that all idle tasks
    /// share, and starts from a frame that calls its entry point.
    pub fn new_idle(
        tid: TaskId,
        core_id: u32,
        stacks: TaskStacks,
        idle_entry: u64,
        task_start: u64,
        thread_ptr: Option<u64>,
        memory: &mut Memory,
    ) -> (r: Task)
        requires
            old(memory).wf(),
            stacks is Common,
            stacks.wf(),
            stacks.mapped(old(memory)@),
        ensures
            final(memory).wf(),
            r == idle_task(tid, core_id, stacks, idle_entry, thread_ptr),
            final(memory)@.dom() == old(memory)@.dom(),
            forall|a: u64| #[trigger]
                old(memory)@.contains_key(a) ==> final(memory)@[a] == r.built_word(
                    (Entry { func: idle_entry, arg: 0, task_start }),
                    thread_ptr,
                    a,
                    old(memory)@[a],
                ),
    {
        let ghost words = memory@;
        let mut task = Task::new(
            tid,
            core_id,
            TaskStatus::Idle,
            Priority::from(IDLE_PRIO),
            stacks,
            None,
            idle_entry,
        );
        let entry = Entry { func: idle_entry, arg: 0, task_start };
        let ghost before = task;
        task.create_stack_frame(entry, thread_ptr, memory);
        proof {
            assert(task == idle_task(tid, core_id, stacks, idle_entry, thread_ptr));
            assert forall|a: u64| #[trigger] words.contains_key(a) implies memory@[a]
                == task.built_word(entry, thread_ptr, a, words[a]) by {
                assert(memory@[a] == before.built_word(entry, thread_ptr, a, words[a]));
                assert(before.tls_or(thread_ptr) == task.tls_or(thread_ptr));
            }
        }
        task
    }
}

/// Whether `after` is `words` once the stacks of `task` were mapped and its first
/// frame was built. All other words are as they were.
pub open spec fn idle_frame_built(
    words: Map<u64, u64>,
    task: Task,
    entry: Entry,
    thread_ptr: Option<u64>,
    after: Map<u64, u64>,
) -> bool {
    let mapped = crate::scheduler::spawn::stacks_mapped(words, task.stacks);
    &&& after.dom() == mapped.dom()
    &&& forall|a: u64| #[trigger]
        mapped.contains_key(a) ==> after[a] == task.built_word(entry, thread_ptr, a, mapped[a])
}

/// The idle task that a new core gets begins with the start code, which is handed
/// the entry point and its argument, and nothing outside the idle task's stacks
/// changes.
pub proof fn lemma_idle_starts_at_entry(
    words: Map<u64, u64>,
    task: Task,
    entry: Entry,
    thread_ptr: Option<u64>,
    after: Map<u64, u64>,
)
    requires
        task.stacks is Common,
        task.stacks.wf(),
        idle_frame_built(words, task, entry, thread_ptr, after),
    ensures
        ({
            let frame = task.stacks.persistent_frame();
            &&& after[crate::memory::word_at(frame, 1)] == entry.task_start
            &&& after[crate::memory::word_at(frame, 5)] == entry.func
            &&& after[crate::memory::word_at(frame, 6)] == entry.arg
        }),
        forall|a: u64| #[trigger]
            words.contains_key(a) && !(task.stacks.kernel_stack() <= a < task.stacks.kernel_stack()
                + task.stacks.kernel_stack_size()) && !(task.stacks.user_stack() <= a
                < task.stacks.user_stack() + task.stacks.user_stack_size()) ==> after[a]
                == words[a],
{
    let stacks = task.stacks;
    let frame = stacks.persistent_frame();
    let middle = crate::memory::zero_mapped(
        words,
        stacks.kernel_stack(),
        stacks.kernel_stack_size() / 8,
    );
    let mapped = crate::scheduler::spawn::stacks_mapped(words, stacks);
    crate::memory::lemma_zero_mapped(words, stacks.kernel_stack(), stacks.kernel_stack_size() / 8);
    crate::memory::lemma_zero_mapped(middle, stacks.user_stack(), stacks.user_stack_size() / 8);
    assert(stacks.mapped(mapped)) by {
        assert forall|w: int| 0 <= w < stacks.kernel_stack_size() / 8 implies mapped.contains_key(
            #[trigger] crate::memory::word_at(stacks.kernel_stack(), w),
        ) by {
            assert(middle.contains_key(crate::memory::word_at(stacks.kernel_stack(), w)));
        }
    }
    crate::scheduler::spawn::lemma_persistent_mapped(stacks, mapped);
    assert forall|w: int| 0 <= w < 36 implies after[#[trigger] crate::memory::word_at(frame, w)]
        == crate::arch::aarch64::kernel::scheduler::initial_frame(
        entry,
        task.tls_or(thread_ptr),
        task.initial_sp() as u64,
        w,
    ) by {
        let a = crate::memory::word_at(frame, w);
        assert(mapped.contains_key(a));
        assert((a - frame) / 8 == w);
    }
    assert forall|a: u64| #[trigger]
        words.contains_key(a) && !(stacks.kernel_stack() <= a < stacks.kernel_stack()
            + stacks.kernel_stack_size()) && !(stacks.user_stack() <= a < stacks.user_stack()
            + stacks.user_stack_size()) implies after[a] == words[a] by {
        assert(middle.contains_key(a) && middle[a] == words[a]);
        assert(mapped.contains_key(a) && mapped[a] == middle[a]);
    }
}

/// What a core that was added got.
pub struct AddedCore {
    /// Its scheduler.
    pub scheduler: PerCoreScheduler,
    /// The pages of its idle task's kernel stack, to be mapped.
    pub kernel_mapping: PageMapping,
    /// The pages of its idle task's user stack, to be mapped.
    pub user_mapping: PageMapping,
}

/// Adds a scheduler for the core `core_id`, with an idle task that runs.
pub fn add_current_core(
    core_id: u32,
    machine: &mut Machine,
    registry: &mut TaskRegistry,
    idle_entry: u64,
    p: Provided,
) -> (r: AddedCore)
    requires
        old(machine).memory.wf(),
        old(machine).slots.wf(),
        old(machine).slots.core_fits(core_id),
        old(machine).slots.frames_mapped(core_id, old(machine).memory@),
        0 <= old(registry).tid_counter < i32::MAX,
        !old(registry).tasks@.contains_key(old(registry).tid_counter),
        core_id <= old(registry)@.inputs.len(),
        crate::scheduler::spawn::regions_fit(p, DEFAULT_STACK_SIZE as int),
    ensures
        r.scheduler.wf(final(machine)),
        final(machine).slots == old(machine).slots,
        ({
            let tid = TaskId(old(registry).tid_counter);
            let stacks = crate::scheduler::spawn::stacks_for(p, DEFAULT_STACK_SIZE as int);
            &&& r.scheduler.core_id == core_id
            &&& r.scheduler.current_task == tid
            &&& r.scheduler.idle_task == tid
            &&& r.scheduler.fpu_owner == tid
            &&& r.scheduler.tasks@ == Map::<i32, Task>::empty().insert(
                tid.0,
                idle_task(tid, core_id, stacks, idle_entry, p.thread_ptr),
            )
            &&& crate::scheduler::task::priority_queue::highest(r.scheduler.ready_queue@) < 0
            &&& r.scheduler.blocked_tasks@ == Seq::<BlockedTask>::empty()
            &&& r.scheduler.finished_tasks@ == Seq::<TaskId>::empty()
            &&& r.scheduler.timer_requests@ == Seq::<u64>::empty()
            &&& final(registry)@ == (RegistryState {
                inputs: old(registry)@.inputs.insert(
                    core_id as int,
                    (InputState { new_tasks: Seq::empty(), wakeup_tasks: Seq::empty() }),
                ),
                ..crate::scheduler::registry::registered(
                    (RegistryState {
                        tid_counter: (old(registry).tid_counter + 1) as i32,
                        ..old(registry)@
                    }),
                    tid,
                    Priority(IDLE_PRIO),
                    core_id,
                )
            })
            &&& r.scheduler.kernel_sp == 0
            &&& idle_frame_built(
                old(machine).memory@,
                idle_task(tid, core_id, stacks, idle_entry, p.thread_ptr),
                (Entry { func: idle_entry, arg: 0, task_start: p.task_start }),
                p.thread_ptr,
                final(machine).memory@,
            )
            &&& crate::scheduler::spawn::maps_stacks(
                p,
                DEFAULT_STACK_SIZE as int,
                r.kernel_mapping,
                r.user_mapping,
            )
        }),
{
    let ghost r0 = registry@;
    let ghost words0 = machine.memory@;
    let tid: TaskId = registry.get_tid();
    proof {
        crate::scheduler::spawn::lemma_first_tid(r0.tasks, r0.tid_counter, tid.0);
    }
    let (stacks, kernel_mapping, user_mapping) = TaskStacks::new(
        DEFAULT_STACK_SIZE,
        p.virt_addr,
        p.phys_addr,
        &mut machine.memory,
    );
    let ghost words1 = machine.memory@;
    let idle: Task = Task::new_idle(
        tid,
        core_id,
        stacks,
        idle_entry,
        p.task_start,
        p.thread_ptr,
        &mut machine.memory,
    );
    let ghost words2 = machine.memory@;
    let ghost task = idle;
    registry.register(tid, Priority::from(IDLE_PRIO), core_id);
    let ready_queue = PriorityTaskQueue::new();
    let mut tasks = TaskTable::new();
    tasks.put(idle);
    registry.inputs.insert(core_id as usize, SchedulerInput::new());
    let scheduler = PerCoreScheduler {
        core_id,
        current_task: tid,
        idle_task: tid,
        fpu_owner: tid,
        ready_queue,
        finished_tasks: VecDeque::new(),
        blocked_tasks: BlockedTaskQueue::new(),
        tasks,
        kernel_sp: 0,
        timer_requests: Vec::new(),
    };
    proof {
        let inputs = r0.inputs.insert(
            core_id as int,
            InputState { new_tasks: Seq::empty(), wakeup_tasks: Seq::empty() },
        );
        assert(registry@.inputs =~= inputs);
        crate::scheduler::spawn::lemma_stacks_mapped(words0, stacks);
        assert(crate::scheduler::spawn::mapped_within(words0, words2)) by {
            assert forall|w: u64| #[trigger] words0.contains_key(w) implies words2.contains_key(
                w,
            ) by {
                assert(words1.contains_key(w));
                assert(words2.dom().contains(w));
            }
        }
        crate::scheduler::spawn::lemma_mapped_within(words0, words2);
        assert(crate::scheduler::spawn::mapped_within(words1, words2)) by {
            assert forall|w: u64| #[trigger] words1.contains_key(w) implies words2.contains_key(
                w,
            ) by {
                assert(words2.dom().contains(w));
            }
        }
        crate::scheduler::spawn::lemma_mapped_within(words1, words2);
        crate::scheduler::spawn::lemma_persistent_mapped(stacks, words2);
        let c = scheduler.state(machine);
        crate::scheduler::task::priority_queue::lemma_highest_below(c.ready, c.ready.len() as int);
        assert forall|k: i32| #[trigger] c.tasks.contains_key(k) implies
            crate::scheduler::state::task_ok(c, k) && crate::scheduler::state::status_ok(c, k)
            && crate::scheduler::state::slot_ok(c, k) && crate::scheduler::state::frames_ok(c, k) by {
            assert(k == tid.0);
        }
        assert(crate::scheduler::state::queues_ok(c)) by {
            assert forall|t: TaskId| !#[trigger] crate::scheduler::task::priority_queue::queued(
                c.ready,
                t,
            ) by {
                if crate::scheduler::task::priority_queue::queued(c.ready, t) {
                    let (i, k) = choose|i: int, k: int|
                        0 <= i < c.ready.len() && 0 <= k < c.ready[i].len()
                            && #[trigger] c.ready[i][k] == t;
                    assert(c.ready[i] == Seq::<TaskId>::empty());
                }
            }
            assert(crate::scheduler::task::priority_queue::unique(c.ready)) by {
                assert forall|i: int, k: int, j: int, l: int|
                    0 <= i < c.ready.len() && 0 <= k < c.ready[i].len() && 0 <= j < c.ready.len()
                        && 0 <= l < c.ready[j].len() && #[trigger] c.ready[i][k]
                        == #[trigger] c.ready[j][l] implies i == j && k == l by {
                    assert(c.ready[i] == Seq::<TaskId>::empty());
                }
            }
        }
        assert(scheduler.tasks@ =~= Map::<i32, Task>::empty().insert(tid.0, task));
    }
    AddedCore { scheduler, kernel_mapping, user_mapping }
}

/// What the idle task does after a turn of its loop.
#[derive(Copy, Clone, Debug, Eq, PartialEq, Structural)]
pub enum IdleAction {
    /// Enable interrupts, wait for one, and start backing off anew.
    EnableAndWait,
    /// Enable interrupts and back off a little longer.
    EnableAndSnooze,
    /// Enable interrupts, let the scheduler run, and start backing off anew.
    Reschedule,
}

/// What came of a turn of the idle loop.
pub struct IdleTurn {
    /// The tasks that were released.
    pub reaped: Vec<Task>,
    /// Whether the reactor is to be poked: a task was released on the core that
    /// does input and output.
    pub poke_reactor: bool,
    /// What to do next.
    pub action: IdleAction,
}

impl PerCoreScheduler {
    /// A turn of the idle task's loop, with interrupts off: what other cores
    /// handed over is taken, tasks that ended are released, and if no task is
    /// ready the core waits. `backoff_completed` says whether backing off has
    /// taken long enough for that.
    pub fn run(
        &mut self,
        machine: &mut Machine,
        input: &mut SchedulerInput,
        backoff_completed: bool,
    ) -> (r: IdleTurn)
        requires
            old(self).wf(old(machine)),
            crate::scheduler::input::input_ok(old(self).state(old(machine)), *old(input)),
        ensures
            final(self).wf(final(machine)),
            final(machine).slots == old(machine).slots,
            ({
                let c = crate::scheduler::input::input_taken(
                    old(self).state(old(machine)),
                    *old(input),
                );
                &&& final(self).state(final(machine)) == crate::scheduler::state::reaped(c)
                &&& r.reaped@ == c.finished.map_values(|t: TaskId| c.tasks[t.0])
                &&& r.poke_reactor == (c.finished.len() > 0 && c.core_id == 0)
                &&& r.action == (if crate::scheduler::task::priority_queue::highest(c.ready) >= 0 {
                    IdleAction::Reschedule
                } else if backoff_completed {
                    IdleAction::EnableAndWait
                } else {
                    IdleAction::EnableAndSnooze
                })
            }),
            final(input).wakeup_tasks@.len() == 0,
            final(input).new_tasks@.len() == 0,
    {
        self.check_input(machine, input);
        let reaped: Vec<Task> = self.cleanup_tasks(machine);
        let poke_reactor: bool = reaped.len() > 0 && self.core_id == 0;
        let action: IdleAction = if self.ready_queue.is_empty() {
            if backoff_completed {
                IdleAction::EnableAndWait
            } else {
                IdleAction::EnableAndSnooze
            }
        } else {
            IdleAction::Reschedule
        };
        IdleTurn { reaped, poke_reactor, action }
    }
}

} // verus!
