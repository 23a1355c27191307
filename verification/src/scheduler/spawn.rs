//! Creating tasks and handing them to cores.

use vstd::prelude::*;

use crate::arch::aarch64::kernel::scheduler::Entry;
use crate::arch::aarch64::kernel::stacks::{CommonStack, PageMapping, TaskStacks};
use crate::config::DEFAULT_STACK_SIZE;
use crate::fd::FdTable;
use crate::memory::Memory;
use crate::pages::BASE_PAGE_SIZE;
use crate::scheduler::per_core::{Machine, PerCoreScheduler};
use crate::scheduler::registry::{NewTask, Provided, RegistryState, TaskRegistry};
use crate::scheduler::state::CoreState;
use crate::scheduler::supervisor::EntryPointId;
use crate::scheduler::task::{
    FpuState, FrameLocation, Priority, Task, TaskId, TaskStatus, NO_PRIORITIES,
};

verus! {

/// Whether the regions that were allocated have room for stacks with a wish of
/// `size` bytes.
pub open spec fn regions_fit(p: Provided, size: int) -> bool {
    let total = crate::arch::aarch64::kernel::stacks::user_size_for(size) + DEFAULT_STACK_SIZE;
    &&& crate::arch::aarch64::kernel::stacks::size_fits(size)
    &&& p.virt_addr % 4096 == 0
    &&& p.phys_addr % 4096 == 0
    &&& p.virt_addr + total + 3 * BASE_PAGE_SIZE <= 0x000f_ffff_ffff_ffff
    &&& p.virt_addr + total + 3 * BASE_PAGE_SIZE <= usize::MAX
    &&& p.phys_addr + total <= usize::MAX
    &&& p.phys_addr + total <= u64::MAX
}

/// The stacks in the regions that were allocated.
pub open spec fn stacks_for(p: Provided, size: int) -> TaskStacks {
    TaskStacks::Common(
        CommonStack {
            virt_addr: p.virt_addr,
            phys_addr: p.phys_addr,
            total_size: (crate::arch::aarch64::kernel::stacks::user_size_for(size)
                + DEFAULT_STACK_SIZE) as usize,
        },
    )
}

/// The memory once the stacks are mapped in it.
pub open spec fn stacks_mapped(words: Map<u64, u64>, stacks: TaskStacks) -> Map<u64, u64> {
    crate::memory::zero_mapped(
        crate::memory::zero_mapped(words, stacks.kernel_stack(), stacks.kernel_stack_size() / 8),
        stacks.user_stack(),
        stacks.user_stack_size() / 8,
    )
}

/// The ready task that `new` becomes.
pub open spec fn task_of(new: NewTask) -> Task {
    let base = Task {
        id: new.tid,
        status: TaskStatus::Ready,
        prio: new.prio,
        last_stack_pointer: new.stacks.persistent_frame() as u64,
        user_stack_pointer: 0,
        last_fpu_state: FpuState(0),
        core_id: new.core_id,
        stacks: new.stacks,
        frame_location: FrameLocation::InSlot,
        slot: None,
        wake_pending: false,
        last_touch: crate::duration::Duration { secs: 0, nanos: 0 },
        object_map: Some(new.object_map),
        entry: new.func,
        entry_arg: new.arg,
        entry_point_id: EntryPointId::AppTask,
        tls: new.provided.thread_ptr,
    };
    Task { user_stack_pointer: base.user_marker() as u64, ..base }
}

/// Whether `after` is `words` once the first frame of the task that `new`
/// becomes was built.
pub open spec fn frame_built(
    words: Map<u64, u64>,
    new: NewTask,
    after: Map<u64, u64>,
) -> bool {
    let entry = Entry { func: new.func, arg: new.arg, task_start: new.provided.task_start };
    &&& after.dom() == words.dom()
    &&& forall|a: u64| #[trigger]
        words.contains_key(a) ==> after[a] == task_of(new).built_word(
            entry,
            new.provided.thread_ptr,
            a,
            words[a],
        )
}

impl NewTask {
    /// Makes the new task a ready task, with the frame that it starts from.
    pub fn into_task(self, memory: &mut Memory) -> (r: Task)
        requires
            old(memory).wf(),
            self.stacks is Common,
            self.stacks.wf(),
            self.stacks.mapped(old(memory)@),
        ensures
            final(memory).wf(),
            r == task_of(self),
            frame_built(old(memory)@, self, final(memory)@),
    {
        let ghost new = self;
        let NewTask { tid, func, arg, prio, core_id, stacks, object_map, provided: p } = self;
        let mut task = Task::new(
            tid,
            core_id,
            TaskStatus::Ready,
            prio,
            stacks,
            None,
            p.placeholder_entry,
        );
        task.object_map = Some(object_map);
        let entry = Entry { func, arg, task_start: p.task_start };
        let ghost before = task;
        let ghost words = memory@;
        task.create_stack_frame(entry, p.thread_ptr, memory);
        task.entry = func;
        task.entry_arg = arg;
        task.entry_point_id = EntryPointId::AppTask;
        proof {
            assert(task == task_of(new));
            assert forall|a: u64| #[trigger] words.contains_key(a) implies memory@[a] == task_of(
                new,
            ).built_word(entry, p.thread_ptr, a, words[a]) by {
                assert(memory@[a] == before.built_word(entry, p.thread_ptr, a, words[a]));
                assert(before.stacks == task_of(new).stacks);
                assert(before.tls_or(p.thread_ptr) == task_of(new).tls_or(p.thread_ptr));
            }
        }
        task
    }
}

/// `c` once the ready task `task` joined it, with the memory `words`.
pub open spec fn joined(c: CoreState, task: Task, words: Map<u64, u64>) -> CoreState {
    CoreState {
        tasks: c.tasks.insert(task.id.0, task),
        ready: crate::scheduler::task::priority_queue::pushed(c.ready, task.id, task.prio.0 as int),
        words,
        ..c
    }
}

/// Whether every word that is mapped in `a` is mapped in `b`.
pub open spec fn mapped_within(a: Map<u64, u64>, b: Map<u64, u64>) -> bool {
    forall|w: u64| #[trigger] a.contains_key(w) ==> b.contains_key(w)
}

/// A new ready task keeps the invariant.
pub proof fn lemma_joined(c: CoreState, task: Task, words: Map<u64, u64>)
    requires
        crate::scheduler::state::inv(c),
        mapped_within(c.words, words),
        !c.tasks.contains_key(task.id.0),
        task.status == TaskStatus::Ready,
        task.slot is None,
        crate::scheduler::state::task_ok(joined(c, task, words), task.id.0),
        crate::scheduler::state::frames_ok(joined(c, task, words), task.id.0),
    ensures
        crate::scheduler::state::inv(joined(c, task, words)),
{
    let d = joined(c, task, words);
    assert(!crate::scheduler::task::priority_queue::queued(c.ready, task.id));
    crate::scheduler::task::priority_queue::lemma_pushed(c.ready, task.id, task.prio.0 as int);
    lemma_mapped_within(c.words, words);
    assert(TaskId(task.id.0) == task.id);
    assert forall|k: i32| #[trigger] d.tasks.contains_key(k) implies
        crate::scheduler::state::task_ok(d, k) && crate::scheduler::state::status_ok(d, k)
        && crate::scheduler::state::slot_ok(d, k) && crate::scheduler::state::frames_ok(d, k) by {
        if k != task.id.0 {
            assert(c.tasks.contains_key(k));
            assert(crate::scheduler::state::task_ok(c, k) && crate::scheduler::state::status_ok(
                c,
                k,
            ) && crate::scheduler::state::slot_ok(c, k) && crate::scheduler::state::frames_ok(
                c,
                k,
            ));
        }
    }
    assert(crate::scheduler::state::queues_ok(d));
}

/// Mapping more keeps what is mapped.
pub proof fn lemma_mapped_within(a: Map<u64, u64>, b: Map<u64, u64>)
    requires
        mapped_within(a, b),
    ensures
        forall|base: int, n: int|
            #[trigger] crate::memory::words_mapped(a, base, n) ==> crate::memory::words_mapped(
                b,
                base,
                n,
            ),
        forall|base: int|
            #[trigger] crate::memory::frame_mapped(a, base) ==> crate::memory::frame_mapped(
                b,
                base,
            ),
{
    assert forall|base: int, n: int| #[trigger] crate::memory::words_mapped(a, base, n) implies
        crate::memory::words_mapped(b, base, n) by {
        assert forall|w: int| 0 <= w < n implies b.contains_key(
            #[trigger] crate::memory::word_at(base, w),
        ) by {
            assert(a.contains_key(crate::memory::word_at(base, w)));
        }
    }
    assert forall|base: int| #[trigger] crate::memory::frame_mapped(a, base) implies
        crate::memory::frame_mapped(b, base) by {
        assert(crate::memory::words_mapped(a, base, 36));
    }
}

/// The frame that a new task starts from lies on its mapped kernel stack.
pub proof fn lemma_persistent_mapped(stacks: TaskStacks, words: Map<u64, u64>)
    requires
        stacks.wf(),
        stacks.mapped(words),
    ensures
        crate::memory::frame_mapped(words, stacks.persistent_frame()),
{
    let base = stacks.persistent_frame();
    assert forall|w: int| 0 <= w < 36 implies words.contains_key(
        #[trigger] crate::memory::word_at(base, w),
    ) by {
        let a = crate::memory::word_at(base, w);
        assert(base % 8 == 0);
        stacks.lemma_mapped_at(words, a, a);
    }
}

/// Whether these pages are to be mapped for a task with a user stack of `size`
/// bytes: the kernel stack lies behind a guard page, and the user stack behind
/// the kernel stack and another guard page; the memory of both lies together.
pub open spec fn maps_stacks(
    p: Provided,
    size: int,
    kernel_mapping: PageMapping,
    user_mapping: PageMapping,
) -> bool {
    &&& kernel_mapping.virt_addr == p.virt_addr + BASE_PAGE_SIZE
    &&& kernel_mapping.phys_addr == p.phys_addr
    &&& kernel_mapping.pages == DEFAULT_STACK_SIZE / BASE_PAGE_SIZE
    &&& user_mapping.virt_addr == p.virt_addr + DEFAULT_STACK_SIZE + 2 * BASE_PAGE_SIZE
    &&& user_mapping.phys_addr == p.phys_addr + DEFAULT_STACK_SIZE
    &&& user_mapping.pages == crate::arch::aarch64::kernel::stacks::user_size_for(size)
        / BASE_PAGE_SIZE as int
}

/// What a new task is to be: its identifier, its entry point and argument, its
/// priority, its core and the wish for its user stack.
#[derive(Copy, Clone, Debug, Eq, PartialEq)]
pub struct Child {
    pub tid: TaskId,
    pub func: u64,
    pub arg: u64,
    pub prio: Priority,
    pub core_id: u32,
    pub stack_size: usize,
}

/// Whether `new` is what `child` says, with the stacks that were provided and
/// with the open files `files` in a table of its own.
pub open spec fn is_child(new: NewTask, child: Child, p: Provided, files: Map<i32, u64>) -> bool {
    &&& new.tid == child.tid
    &&& new.func == child.func
    &&& new.arg == child.arg
    &&& new.prio == child.prio
    &&& new.core_id == child.core_id
    &&& new.stacks == stacks_for(p, child.stack_size as int)
    &&& new.object_map@ == files
    &&& new.provided == p
}

/// The open files of the running task; `idle_files` are those that all idle
/// tasks share.
pub open spec fn current_files(c: CoreState, idle_files: Map<i32, u64>) -> Map<i32, u64> {
    match c.tasks[c.current.0].object_map {
        Some(table) => table@,
        None => idle_files,
    }
}

/// Whether every identifier in use lies below the next one to try.
pub open spec fn tids_known(r: RegistryState, c: CoreState) -> bool {
    &&& 0 <= r.tid_counter
    &&& forall|k: i32| #[trigger] r.tasks.contains_key(k) ==> k < r.tid_counter
    &&& forall|k: i32| #[trigger] c.tasks.contains_key(k) ==> k < r.tid_counter
}

/// `r` once the new task `tid` is known and counted.
pub open spec fn counted(r: RegistryState, tid: TaskId, prio: Priority, core_id: u32) -> RegistryState {
    let known = crate::scheduler::registry::registered(
        RegistryState {
            tid_counter: crate::scheduler::registry::advanced(tid.0, 1) as i32,
            ..r
        },
        tid,
        prio,
        core_id,
    );
    RegistryState {
        no_tasks: crate::scheduler::registry::wrapping_next(r.no_tasks),
        ..known
    }
}

/// What spawning the child `new` does. On its own core it becomes a ready task
/// at once; otherwise it is handed to its core, which is woken up.
pub open spec fn spawned(
    c: CoreState,
    r: RegistryState,
    new: NewTask,
    after: CoreState,
    r_after: RegistryState,
) -> bool {
    let words = stacks_mapped(c.words, new.stacks);
    let known = counted(r, new.tid, new.prio, new.core_id);
    if new.core_id == c.core_id {
        &&& frame_built(words, new, after.words)
        &&& after == joined(c, task_of(new), after.words)
        &&& r_after == known
    } else {
        &&& after == (CoreState { words, ..c })
        &&& r_after == crate::scheduler::registry::task_handed(known, new)
    }
}

/// What spawning `child` with the running task's open files does.
pub open spec fn child_spawned(
    c: CoreState,
    r: RegistryState,
    child: Child,
    p: Provided,
    idle_files: Map<i32, u64>,
    after: CoreState,
    r_after: RegistryState,
) -> bool {
    exists|new: NewTask| #[trigger]
        is_child(new, child, p, current_files(c, idle_files)) && spawned(c, r, new, after, r_after)
}

/// What a spawned task got.
pub struct Spawned {
    /// Its identifier.
    pub tid: TaskId,
    /// The pages of its kernel stack, to be mapped.
    pub kernel_mapping: PageMapping,
    /// The pages of its user stack, to be mapped.
    pub user_mapping: PageMapping,
}

/// The mapping of new stacks maps whatever was mapped before, and the stacks.
pub proof fn lemma_stacks_mapped(words: Map<u64, u64>, stacks: TaskStacks)
    requires
        stacks.wf(),
    ensures
        mapped_within(words, stacks_mapped(words, stacks)),
{
    let middle = crate::memory::zero_mapped(
        words,
        stacks.kernel_stack(),
        stacks.kernel_stack_size() / 8,
    );
    crate::memory::lemma_zero_mapped(words, stacks.kernel_stack(), stacks.kernel_stack_size() / 8);
    crate::memory::lemma_zero_mapped(middle, stacks.user_stack(), stacks.user_stack_size() / 8);
    assert forall|w: u64| #[trigger] words.contains_key(w) implies stacks_mapped(
        words,
        stacks,
    ).contains_key(w) by {
        assert(middle.contains_key(w));
    }
}

/// More mapped memory keeps the invariant.
pub proof fn lemma_more_words(c: CoreState, words: Map<u64, u64>)
    requires
        crate::scheduler::state::inv(c),
        mapped_within(c.words, words),
    ensures
        crate::scheduler::state::inv((CoreState { words, ..c })),
{
    let d = CoreState { words, ..c };
    lemma_mapped_within(c.words, words);
    assert forall|k: i32| #[trigger] d.tasks.contains_key(k) implies
        crate::scheduler::state::task_ok(d, k) && crate::scheduler::state::status_ok(d, k)
        && crate::scheduler::state::slot_ok(d, k) && crate::scheduler::state::frames_ok(d, k) by {
        assert(c.tasks.contains_key(k));
        assert(crate::scheduler::state::task_ok(c, k) && crate::scheduler::state::status_ok(c, k)
            && crate::scheduler::state::slot_ok(c, k) && crate::scheduler::state::frames_ok(c, k));
    }
    assert(crate::scheduler::state::queues_ok(d));
}

impl PerCoreScheduler {
    /// A table of its own with the open files of the running task, for a child:
    /// the files are shared, the table is not. `idle_table` is the table that
    /// all idle tasks share.
    pub fn clone_current_task_object_map(&self, machine: &Machine, idle_table: &FdTable) -> (r:
        FdTable)
        requires
            self.wf(machine),
        ensures
            r@ == current_files(self.state(machine), idle_table@),
    {
        match &self.tasks.get(self.current_task).object_map {
            Some(table) => table.deep_copy(),
            None => idle_table.deep_copy(),
        }
    }

    /// Makes a new task ready on this core.
    pub(crate) fn join_new(&mut self, machine: &mut Machine, new: NewTask)
        requires
            old(self).wf(old(machine)),
            new.core_id == old(self).core_id,
            new.prio.0 < NO_PRIORITIES,
            new.tid.0 >= 0,
            !old(self).tasks@.contains_key(new.tid.0),
            new.stacks is Common,
            new.stacks.wf(),
            new.stacks.mapped(old(machine).memory@),
        ensures
            final(self).wf(final(machine)),
            final(machine).slots == old(machine).slots,
            frame_built(old(machine).memory@, new, final(machine).memory@),
            final(self).state(final(machine)) == joined(
                old(self).state(old(machine)),
                task_of(new),
                final(machine).memory@,
            ),
    {
        let ghost c = self.state(machine);
        let ghost words = machine.memory@;
        let ghost child = new;
        let tid: TaskId = new.tid;
        let prio: Priority = new.prio;
        let task: Task = new.into_task(&mut machine.memory);
        self.tasks.put(task);
        self.ready_queue.push(tid, prio);
        let ghost d = joined(c, task_of(child), machine.memory@);
        proof {
            assert(mapped_within(words, machine.memory@)) by {
                assert forall|w: u64| #[trigger] words.contains_key(w) implies machine.memory@.contains_key(
                    w,
                ) by {
                    assert(machine.memory@.dom().contains(w));
                }
            }
            lemma_mapped_within(words, machine.memory@);
            lemma_persistent_mapped(child.stacks, machine.memory@);
            assert(self.tasks@ =~= d.tasks);
            assert(self.state(machine) =~= d);
            lemma_joined(c, task_of(child), machine.memory@);
        }
    }

    /// Creates a task with the running task's open files, which is to run
    /// `func` with `arg` on `core_id`. It becomes ready on its core.
    pub fn spawn(
        &mut self,
        machine: &mut Machine,
        registry: &mut TaskRegistry,
        func: u64,
        arg: u64,
        prio: Priority,
        core_id: u32,
        stack_size: usize,
        p: Provided,
        idle_table: &FdTable,
    ) -> (r: Spawned)
        requires
            old(self).wf(old(machine)),
            tids_known(old(registry)@, old(self).state(old(machine))),
            old(registry).tid_counter < i32::MAX,
            core_id < old(registry)@.inputs.len(),
            core_id == old(self).core_id ==> prio.0 < NO_PRIORITIES,
            regions_fit(p, stack_size as int),
        ensures
            final(self).wf(final(machine)),
            final(machine).slots == old(machine).slots,
            tids_known(final(registry)@, final(self).state(final(machine))),
            r.tid.0 == old(registry).tid_counter,
            child_spawned(
                old(self).state(old(machine)),
                old(registry)@,
                (Child { tid: r.tid, func, arg, prio, core_id, stack_size }),
                p,
                idle_table@,
                final(self).state(final(machine)),
                final(registry)@,
            ),
            maps_stacks(p, stack_size as int, r.kernel_mapping, r.user_mapping),
    {
        let ghost c = self.state(machine);
        let ghost r0 = registry@;
        proof {
            assert(!r0.tasks.contains_key(r0.tid_counter));
            assert(!registry.tasks@.contains_key(registry.tid_counter));
        }
        let tid: TaskId = registry.get_tid();
        proof {
            lemma_first_tid(r0.tasks, r0.tid_counter, tid.0);
        }
        let object_map: FdTable = self.clone_current_task_object_map(machine, idle_table);
        let (stacks, kernel_mapping, user_mapping) = TaskStacks::new(
            stack_size,
            p.virt_addr,
            p.phys_addr,
            &mut machine.memory,
        );
        let ghost words = machine.memory@;
        let new_task = NewTask { tid, func, arg, prio, core_id, stacks, object_map, provided: p };
        let ghost child = new_task;
        let ghost wish = Child { tid, func, arg, prio, core_id, stack_size };
        assert(is_child(child, wish, p, current_files(c, idle_table@)));
        registry.register(tid, prio, core_id);
        registry.no_tasks = registry.no_tasks.wrapping_add(1);
        proof {
            assert(registry@ =~= counted(r0, tid, prio, core_id));
            lemma_stacks_mapped(c.words, stacks);
            lemma_more_words(c, words);
            assert(self.state(machine) =~= (CoreState { words, ..c }));
        }
        if core_id == self.core_id {
            self.join_new(machine, new_task);
        } else {
            registry.hand_task(new_task);
        }
        assert(spawned(c, r0, child, self.state(machine), registry@));
        Spawned { tid, kernel_mapping, user_mapping }
    }
}

/// The core that the next cloned task goes to, if `next` is the counter: after
/// the last core comes the first one.
pub open spec fn clone_core(next: u32, processor_count: u32) -> u32 {
    if next == processor_count {
        0
    } else {
        next
    }
}

/// The counter after a cloned task was given a core.
pub open spec fn clone_next(next: u32, processor_count: u32) -> u32 {
    if next == processor_count {
        0
    } else {
        crate::scheduler::registry::wrapping_next(next)
    }
}

impl PerCoreScheduler {
    /// Creates a task like the running one, with its priority, its open files
    /// and its size of the user stack, which is to run `func` with `arg`. The
    /// cores take turns.
    pub fn clone_impl(
        &mut self,
        machine: &mut Machine,
        registry: &mut TaskRegistry,
        func: u64,
        arg: u64,
        processor_count: u32,
        p: Provided,
        idle_table: &FdTable,
    ) -> (r: Spawned)
        requires
            old(self).wf(old(machine)),
            tids_known(old(registry)@, old(self).state(old(machine))),
            old(registry).tid_counter < i32::MAX,
            clone_core(old(registry).next_core_id, processor_count) < old(registry)@.inputs.len(),
            regions_fit(p, old(self).tasks@[old(self).current_task.0].stacks.user_stack_size()),
        ensures
            final(self).wf(final(machine)),
            final(machine).slots == old(machine).slots,
            tids_known(final(registry)@, final(self).state(final(machine))),
            r.tid.0 == old(registry).tid_counter,
            maps_stacks(
                p,
                old(self).tasks@[old(self).current_task.0].stacks.user_stack_size(),
                r.kernel_mapping,
                r.user_mapping,
            ),
            ({
                let task = old(self).tasks@[old(self).current_task.0];
                let next = old(registry).next_core_id;
                child_spawned(
                    old(self).state(old(machine)),
                    (RegistryState {
                        next_core_id: clone_next(next, processor_count),
                        ..old(registry)@
                    }),
                    (Child {
                        tid: r.tid,
                        func,
                        arg,
                        prio: task.prio,
                        core_id: clone_core(next, processor_count),
                        stack_size: task.stacks.user_stack_size() as usize,
                    }),
                    p,
                    idle_table@,
                    final(self).state(final(machine)),
                    final(registry)@,
                )
            }),
    {
        let id: u32 = registry.next_core_id;
        let core_id: u32 = if id == processor_count {
            registry.next_core_id = 0;
            0
        } else {
            registry.next_core_id = id.wrapping_add(1);
            id
        };
        proof {
            assert(crate::scheduler::state::task_ok(
                self.state(machine),
                self.current_task.0,
            ));
            assert(registry@ =~= (RegistryState {
                next_core_id: clone_next(id, processor_count),
                ..old(registry)@
            }));
        }
        let current: &Task = self.tasks.get(self.current_task);
        let prio: Priority = current.prio;
        let stack_size: usize = current.stacks.get_user_stack_size();
        self.spawn(machine, registry, func, arg, prio, core_id, stack_size, p, idle_table)
    }

    /// Creates a task like the running one; see `clone_impl`.
    pub fn clone(
        &mut self,
        machine: &mut Machine,
        registry: &mut TaskRegistry,
        func: u64,
        arg: u64,
        processor_count: u32,
        p: Provided,
        idle_table: &FdTable,
    ) -> (r: Spawned)
        requires
            old(self).wf(old(machine)),
            tids_known(old(registry)@, old(self).state(old(machine))),
            old(registry).tid_counter < i32::MAX,
            clone_core(old(registry).next_core_id, processor_count) < old(registry)@.inputs.len(),
            regions_fit(p, old(self).tasks@[old(self).current_task.0].stacks.user_stack_size()),
        ensures
            final(self).wf(final(machine)),
            final(machine).slots == old(machine).slots,
            tids_known(final(registry)@, final(self).state(final(machine))),
            r.tid.0 == old(registry).tid_counter,
            maps_stacks(
                p,
                old(self).tasks@[old(self).current_task.0].stacks.user_stack_size(),
                r.kernel_mapping,
                r.user_mapping,
            ),
            ({
                let task = old(self).tasks@[old(self).current_task.0];
                let next = old(registry).next_core_id;
                child_spawned(
                    old(self).state(old(machine)),
                    (RegistryState {
                        next_core_id: clone_next(next, processor_count),
                        ..old(registry)@
                    }),
                    (Child {
                        tid: r.tid,
                        func,
                        arg,
                        prio: task.prio,
                        core_id: clone_core(next, processor_count),
                        stack_size: task.stacks.user_stack_size() as usize,
                    }),
                    p,
                    idle_table@,
                    final(self).state(final(machine)),
                    final(registry)@,
                )
            }),
    {
        self.clone_impl(machine, registry, func, arg, processor_count, p, idle_table)
    }
}

/// The core for a task with the given selector: a negative one lets the cores
/// take turns by `counter`.
pub open spec fn core_for(selector: isize, counter: u32, processor_count: u32) -> u32 {
    if selector < 0 {
        counter % processor_count
    } else {
        selector as u32
    }
}

/// Creates a task that is to run `func` with `arg` on the core that `selector`
/// names; a negative selector lets the cores take turns.
pub fn spawn(
    scheduler: &mut PerCoreScheduler,
    machine: &mut Machine,
    registry: &mut TaskRegistry,
    func: u64,
    arg: u64,
    prio: Priority,
    stack_size: usize,
    selector: isize,
    processor_count: u32,
    p: Provided,
    idle_table: &FdTable,
) -> (r: Spawned)
    requires
        old(scheduler).wf(old(machine)),
        processor_count > 0,
        tids_known(old(registry)@, old(scheduler).state(old(machine))),
        old(registry).tid_counter < i32::MAX,
        core_for(selector, old(registry).core_counter, processor_count) < old(
            registry,
        )@.inputs.len(),
        core_for(selector, old(registry).core_counter, processor_count) == old(scheduler).core_id
            ==> prio.0 < NO_PRIORITIES,
        regions_fit(p, stack_size as int),
    ensures
        final(scheduler).wf(final(machine)),
        final(machine).slots == old(machine).slots,
        tids_known(final(registry)@, final(scheduler).state(final(machine))),
        r.tid.0 == old(registry).tid_counter,
        maps_stacks(p, stack_size as int, r.kernel_mapping, r.user_mapping),
        child_spawned(
            old(scheduler).state(old(machine)),
            (RegistryState {
                core_counter: if selector < 0 {
                    crate::scheduler::registry::wrapping_next(old(registry).core_counter)
                } else {
                    old(registry).core_counter
                },
                ..old(registry)@
            }),
            (Child {
                tid: r.tid,
                func,
                arg,
                prio,
                core_id: core_for(selector, old(registry).core_counter, processor_count),
                stack_size,
            }),
            p,
            idle_table@,
            final(scheduler).state(final(machine)),
            final(registry)@,
        ),
{
    let core_id: u32 = if selector < 0 {
        let counter: u32 = registry.core_counter;
        registry.core_counter = counter.wrapping_add(1);
        counter % processor_count
    } else {
        #[verifier::truncate]
        (selector as u32)
    };
    assert(registry@ =~= (RegistryState {
        core_counter: registry.core_counter,
        ..old(registry)@
    }));
    scheduler.spawn(machine, registry, func, arg, prio, core_id, stack_size, p, idle_table)
}

/// If the next identifier to try is not in use, it is the one that is taken.
pub proof fn lemma_first_tid(
    tasks: Map<i32, crate::scheduler::task::handle::TaskHandle>,
    counter: i32,
    tid: i32,
)
    requires
        crate::scheduler::registry::is_next_tid(tasks, counter, tid),
        !tasks.contains_key(counter),
    ensures
        tid == counter,
{
    let n = choose|n: int|
        0 <= n < 0x1_0000_0000 && tid == #[trigger] crate::scheduler::registry::advanced(counter, n)
            && forall|m: int|
            0 <= m < n ==> tasks.contains_key(
                #[trigger] crate::scheduler::registry::advanced(counter, m) as i32,
            );
    if n > 0 {
        assert(tasks.contains_key(crate::scheduler::registry::advanced(counter, 0) as i32));
    }
}

} // verus!
