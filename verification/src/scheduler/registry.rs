//! What all cores share: the known tasks, who waits for whom, and what cores
//! hand to each other.

use vstd::prelude::*;

use std::collections::BTreeMap;
use std::collections::VecDeque;

use crate::arch::aarch64::kernel::stacks::TaskStacks;
use crate::fd::FdTable;
use crate::scheduler::task::handle::TaskHandle;
use crate::scheduler::task::{Priority, TaskId};

verus! {

/// What the surroundings provide for a new task.
#[derive(Copy, Clone, Debug, Eq, PartialEq)]
pub struct Provided {
    /// Where its stacks were allocated.
    pub virt_addr: u64,
    /// Where the frames for its stacks were allocated.
    pub phys_addr: u64,
    /// Address of the trampoline that calls a task's entry point.
    pub task_start: u64,
    /// Address of the entry point of a task that has none yet.
    pub placeholder_entry: u64,
    /// Thread pointer of new thread-local storage, if the program uses any.
    pub thread_ptr: Option<u64>,
}

/// A task that was created and not yet handed to its core.
pub struct NewTask {
    pub tid: TaskId,
    pub func: u64,
    pub arg: u64,
    pub prio: Priority,
    pub core_id: u32,
    pub stacks: TaskStacks,
    pub object_map: FdTable,
    pub provided: Provided,
}

/// What other cores hand to a core.
pub struct SchedulerInput {
    /// New tasks.
    pub new_tasks: VecDeque<NewTask>,
    /// Tasks that another core woke.
    pub wakeup_tasks: VecDeque<TaskHandle>,
}

impl SchedulerInput {
    /// Nothing was handed over.
    pub fn new() -> (r: Self)
        ensures
            r.new_tasks@ == Seq::<NewTask>::empty(),
            r.wakeup_tasks@ == Seq::<TaskHandle>::empty(),
    {
        SchedulerInput { new_tasks: VecDeque::new(), wakeup_tasks: VecDeque::new() }
    }
}

/// The contents of a `SchedulerInput`.
#[verifier::ext_equal]
pub struct InputState {
    pub new_tasks: Seq<NewTask>,
    pub wakeup_tasks: Seq<TaskHandle>,
}

/// The contents of a `TaskRegistry`.
#[verifier::ext_equal]
pub struct RegistryState {
    /// Number of tasks, idle tasks left out.
    pub no_tasks: u32,
    /// What is handed to each core.
    pub inputs: Seq<InputState>,
    /// The tasks that wait for the end of a task.
    pub waiting: Map<i32, Seq<TaskHandle>>,
    /// The known tasks.
    pub tasks: Map<i32, TaskHandle>,
    /// The next identifier to try.
    pub tid_counter: i32,
    /// Counter for tasks that any core may run.
    pub core_counter: u32,
    /// The core that the next cloned task goes to.
    pub next_core_id: u32,
    /// The cores that are to be woken up.
    pub core_wakeups: Seq<u32>,
}

/// What all cores share.
pub struct TaskRegistry {
    /// Number of tasks, idle tasks left out.
    pub no_tasks: u32,
    /// What is handed to each core.
    pub inputs: Vec<SchedulerInput>,
    /// The tasks that wait for the end of a task.
    pub waiting_tasks: BTreeMap<i32, VecDeque<TaskHandle>>,
    /// The known tasks.
    pub tasks: BTreeMap<i32, TaskHandle>,
    /// The next identifier to try.
    pub tid_counter: i32,
    /// Counter for tasks that any core may run.
    pub core_counter: u32,
    /// The core that the next cloned task goes to.
    pub next_core_id: u32,
    /// The cores that are to be woken up.
    pub core_wakeups: Vec<u32>,
}

/// The identifier `n` steps after `counter`; identifiers wrap around.
pub open spec fn advanced(counter: i32, n: int) -> int {
    if counter + n > i32::MAX {
        counter + n - 0x1_0000_0000
    } else {
        counter + n
    }
}

/// Whether `id` is the first identifier from `counter` on that no task has.
pub open spec fn is_next_tid(tasks: Map<i32, TaskHandle>, counter: i32, id: i32) -> bool {
    &&& !tasks.contains_key(id)
    &&& exists|n: int|
        0 <= n < 0x1_0000_0000 && id == #[trigger] advanced(counter, n) && forall|m: int|
            0 <= m < n ==> tasks.contains_key(#[trigger] advanced(counter, m) as i32)
}

/// The counter after `n` was taken; counters wrap around.
pub open spec fn wrapping_next(n: u32) -> u32 {
    if n == u32::MAX {
        0
    } else {
        (n + 1) as u32
    }
}

impl View for TaskRegistry {
    type V = RegistryState;

    /// The contents.
    open spec fn view(&self) -> RegistryState {
        RegistryState {
            no_tasks: self.no_tasks,
            inputs: self.inputs@.map_values(
                |i: SchedulerInput|
                    InputState { new_tasks: i.new_tasks@, wakeup_tasks: i.wakeup_tasks@ },
            ),
            waiting: self.waiting_tasks@.map_values(|q: VecDeque<TaskHandle>| q@),
            tasks: self.tasks@,
            tid_counter: self.tid_counter,
            core_counter: self.core_counter,
            next_core_id: self.next_core_id,
            core_wakeups: self.core_wakeups@,
        }
    }
}

/// `r` once the new task `tid` of priority `prio` on `core_id` is known.
pub open spec fn registered(r: RegistryState, tid: TaskId, prio: Priority, core_id: u32) -> RegistryState {
    RegistryState {
        waiting: r.waiting.insert(tid.0, Seq::empty()),
        tasks: r.tasks.insert(tid.0, (TaskHandle { id: tid, priority: prio, core_id })),
        ..r
    }
}

/// `r` once `task` was handed to another core to be woken there.
pub open spec fn wake_handed(r: RegistryState, task: TaskHandle) -> RegistryState {
    let input = r.inputs[task.core_id as int];
    RegistryState {
        inputs: r.inputs.update(
            task.core_id as int,
            InputState { wakeup_tasks: input.wakeup_tasks.push(task), ..input },
        ),
        core_wakeups: r.core_wakeups.push(task.core_id),
        ..r
    }
}

/// `r` once the new task `new` was handed to its core.
pub open spec fn task_handed(r: RegistryState, new: NewTask) -> RegistryState {
    let input = r.inputs[new.core_id as int];
    RegistryState {
        inputs: r.inputs.update(
            new.core_id as int,
            InputState { new_tasks: input.new_tasks.push(new), ..input },
        ),
        core_wakeups: r.core_wakeups.push(new.core_id),
        ..r
    }
}

impl TaskRegistry {
    /// Nothing is known yet.
    pub fn new() -> (r: Self)
        ensures
            r@ == (RegistryState {
                no_tasks: 0,
                inputs: Seq::empty(),
                waiting: Map::empty(),
                tasks: Map::empty(),
                tid_counter: 0,
                core_counter: 1,
                next_core_id: 1,
                core_wakeups: Seq::empty(),
            }),
    {
        let r = TaskRegistry {
            no_tasks: 0,
            inputs: Vec::new(),
            waiting_tasks: BTreeMap::new(),
            tasks: BTreeMap::new(),
            tid_counter: 0,
            core_counter: 1,
            next_core_id: 1,
            core_wakeups: Vec::new(),
        };
        assert(r@.inputs =~= Seq::<InputState>::empty());
        assert(r@.waiting =~= Map::<i32, Seq<TaskHandle>>::empty());
        r
    }

    /// Takes the next identifier that no task has.
    pub fn get_tid(&mut self) -> (r: TaskId)
        requires
            exists|k: i32| !(#[trigger] old(self).tasks@.contains_key(k)),
        ensures
            is_next_tid(old(self).tasks@, old(self).tid_counter, r.0),
            final(self)@ == (RegistryState {
                tid_counter: advanced(r.0, 1) as i32,
                ..old(self)@
            }),
    {
        broadcast use vstd::std_specs::btree::group_btree_axioms;

        let ghost start = self.tid_counter;
        let ghost free = choose|k: i32| !(#[trigger] self.tasks@.contains_key(k));
        let ghost dist = if free >= start {
            free - start
        } else {
            free - start + 0x1_0000_0000
        };
        let ghost mut n: int = 0;
        loop
            invariant
                start == old(self).tid_counter,
                0 <= n <= dist < 0x1_0000_0000,
                !self.tasks@.contains_key(free),
                advanced(start, dist) == free,
                self.tid_counter == advanced(start, n),
                forall|m: int|
                    0 <= m < n ==> self.tasks@.contains_key(#[trigger] advanced(start, m) as i32),
                self@ == (RegistryState { tid_counter: self.tid_counter, ..old(self)@ }),
            decreases dist - n,
        {
            let id: i32 = self.tid_counter;
            self.tid_counter = if id == i32::MAX {
                i32::MIN
            } else {
                id + 1
            };
            if !self.tasks.contains_key(&id) {
                return TaskId::from(id);
            }
            proof {
                n = n + 1;
            }
        }
    }

    /// The handle of the task `id`, if it is known.
    pub fn get_task_handle(&self, id: TaskId) -> (r: Option<TaskHandle>)
        ensures
            r == (if self.tasks@.contains_key(id.0) {
                Some(self.tasks@[id.0])
            } else {
                None
            }),
    {
        broadcast use vstd::std_specs::btree::group_btree_axioms;

        match self.tasks.get(&id.0) {
            Some(handle) => Some(*handle),
            None => None,
        }
    }

    /// Makes the new task `tid` known.
    pub fn register(&mut self, tid: TaskId, prio: Priority, core_id: u32)
        ensures
            final(self)@ == registered(old(self)@, tid, prio, core_id),
    {
        broadcast use vstd::std_specs::btree::group_btree_axioms;

        let queue: VecDeque<TaskHandle> = VecDeque::new();
        let _ = self.waiting_tasks.insert(tid.0, queue);
        let _ = self.tasks.insert(tid.0, TaskHandle::new(tid, prio, core_id));
        assert(self@.waiting =~= registered(old(self)@, tid, prio, core_id).waiting);
    }

    /// Forgets the task `id`.
    pub fn forget(&mut self, id: TaskId)
        ensures
            final(self)@ == (RegistryState { tasks: old(self)@.tasks.remove(id.0), ..old(self)@ }),
    {
        broadcast use vstd::std_specs::btree::group_btree_axioms;

        let _ = self.tasks.remove(&id.0);
    }

    /// Takes the tasks that wait for the end of the task `id`.
    pub fn take_waiting(&mut self, id: TaskId) -> (r: VecDeque<TaskHandle>)
        ensures
            r@ == (if old(self)@.waiting.contains_key(id.0) {
                old(self)@.waiting[id.0]
            } else {
                Seq::empty()
            }),
            final(self)@ == (RegistryState {
                waiting: old(self)@.waiting.remove(id.0),
                ..old(self)@
            }),
    {
        broadcast use vstd::std_specs::btree::group_btree_axioms;

        let removed = self.waiting_tasks.remove(&id.0);
        assert(self@.waiting =~= old(self)@.waiting.remove(id.0));
        match removed {
            Some(queue) => queue,
            None => VecDeque::new(),
        }
    }

    /// Lets `waiter` wait for the end of the task `id`. Returns whether the
    /// task is known.
    pub fn add_waiting(&mut self, id: TaskId, waiter: TaskHandle) -> (r: bool)
        ensures
            r == old(self)@.waiting.contains_key(id.0),
            final(self)@ == (if r {
                RegistryState {
                    waiting: old(self)@.waiting.insert(id.0, old(self)@.waiting[id.0].push(waiter)),
                    ..old(self)@
                }
            } else {
                old(self)@
            }),
    {
        broadcast use vstd::std_specs::btree::group_btree_axioms;

        match self.waiting_tasks.remove(&id.0) {
            Some(mut queue) => {
                queue.push_back(waiter);
                let _ = self.waiting_tasks.insert(id.0, queue);
                assert(self@.waiting =~= old(self)@.waiting.insert(
                    id.0,
                    old(self)@.waiting[id.0].push(waiter),
                ));
                true
            },
            None => {
                assert(self@.waiting =~= old(self)@.waiting);
                false
            },
        }
    }

    /// Hands `task` to its core to be woken there.
    pub fn hand_wake(&mut self, task: TaskHandle)
        requires
            task.core_id < old(self)@.inputs.len(),
        ensures
            final(self)@ == wake_handed(old(self)@, task),
    {
        let core: usize = task.get_core_id() as usize;
        let input = &mut self.inputs[core];
        input.wakeup_tasks.push_back(task);
        self.core_wakeups.push(task.get_core_id());
        assert(self@.inputs =~= wake_handed(old(self)@, task).inputs);
    }

    /// Hands a new task to its core.
    pub fn hand_task(&mut self, new: NewTask)
        requires
            new.core_id < old(self)@.inputs.len(),
        ensures
            final(self)@ == task_handed(old(self)@, new),
    {
        let core_id: u32 = new.core_id;
        let core: usize = core_id as usize;
        let input = &mut self.inputs[core];
        input.new_tasks.push_back(new);
        self.core_wakeups.push(core_id);
        assert(self@.inputs =~= task_handed(old(self)@, new).inputs);
    }
}

} // verus!
