//! The open files of the running task.

use vstd::prelude::*;

use crate::errno::Errno;
use crate::fd::{FdTable, RawFd};
use crate::scheduler::per_core::{Machine, PerCoreScheduler};
use crate::scheduler::state::CoreState;
use crate::scheduler::task::Task;

verus! {

/// Whether `after` and `idle_after` differ from `c` and `idle_files` only in
/// the open files of the running task, which are `files` now. An idle task's
/// files are those that all idle tasks share.
pub open spec fn files_changed(
    c: CoreState,
    idle_files: Map<i32, u64>,
    files: Map<i32, u64>,
    after: CoreState,
    idle_after: Map<i32, u64>,
) -> bool {
    let task = c.tasks[c.current.0];
    let object_map = after.tasks[c.current.0].object_map;
    &&& after == (CoreState {
        tasks: c.tasks.insert(c.current.0, Task { object_map, ..task }),
        ..c
    })
    &&& object_map is Some == task.object_map is Some
    &&& match object_map {
        Some(table) => table@ == files && idle_after == idle_files,
        None => idle_after == files,
    }
}

/// Another table of open files keeps the invariant.
proof fn lemma_files(c: CoreState, object_map: Option<FdTable>)
    requires
        crate::scheduler::state::inv(c),
    ensures
        crate::scheduler::state::inv(
            (CoreState {
                tasks: c.tasks.insert(
                    c.current.0,
                    (Task { object_map, ..c.tasks[c.current.0] }),
                ),
                ..c
            }),
        ),
{
    let d = CoreState {
        tasks: c.tasks.insert(c.current.0, Task { object_map, ..c.tasks[c.current.0] }),
        ..c
    };
    assert forall|k: i32| #[trigger] d.tasks.contains_key(k) implies
        crate::scheduler::state::task_ok(d, k) && crate::scheduler::state::status_ok(d, k)
        && crate::scheduler::state::slot_ok(d, k) && crate::scheduler::state::frames_ok(d, k) by {
        assert(c.tasks.contains_key(k));
        assert(crate::scheduler::state::task_ok(c, k) && crate::scheduler::state::status_ok(c, k)
            && crate::scheduler::state::slot_ok(c, k) && crate::scheduler::state::frames_ok(c, k));
    }
    assert(crate::scheduler::state::queues_ok(d));
}

impl PerCoreScheduler {
    /// Takes the running task out of the table.
    fn take_current(&mut self, machine: &Machine) -> (r: Task)
        requires
            old(self).wf(machine),
        ensures
            r == old(self).tasks@[old(self).current_task.0],
            r.id == old(self).current_task,
            final(self).parts_wf(machine),
            final(self).state(machine) == (CoreState {
                tasks: old(self).tasks@.remove(old(self).current_task.0),
                ..old(self).state(machine)
            }),
    {
        proof {
            assert(crate::scheduler::state::task_ok(self.state(machine), self.current_task.0));
        }
        self.tasks.take(self.current_task)
    }

    /// Puts the running task back, with other open files.
    fn put_current(&mut self, machine: &Machine, task: Task, before: Ghost<CoreState>)
        requires
            crate::scheduler::state::inv(before@),
            old(self).parts_wf(machine),
            old(self).state(machine) == (CoreState {
                tasks: before@.tasks.remove(before@.current.0),
                ..before@
            }),
            task == (Task {
                object_map: task.object_map,
                ..before@.tasks[before@.current.0]
            }),
        ensures
            final(self).wf(machine),
            final(self).state(machine) == (CoreState {
                tasks: before@.tasks.insert(before@.current.0, task),
                ..before@
            }),
    {
        proof {
            assert(crate::scheduler::state::task_ok(before@, before@.current.0));
            lemma_files(before@, task.object_map);
        }
        let ghost d = CoreState {
            tasks: before@.tasks.insert(before@.current.0, task),
            ..before@
        };
        self.tasks.put(task);
        assert(self.tasks@ =~= d.tasks);
        assert(self.state(machine) =~= d);
    }

    /// The object that `fd` names for the running task.
    pub fn get_object(&self, machine: &Machine, idle_table: &FdTable, fd: RawFd) -> (r: Result<
        u64,
        Errno,
    >)
        requires
            self.wf(machine),
        ensures
            ({
                let files = crate::scheduler::spawn::current_files(self.state(machine), idle_table@);
                r == (if files.contains_key(fd) {
                    Ok(files[fd])
                } else {
                    Err(Errno::Badf)
                })
            }),
    {
        match &self.tasks.get(self.current_task).object_map {
            Some(table) => table.get_object(fd),
            None => idle_table.get_object(fd),
        }
    }

    /// Gives the running task a table of its own with its standard descriptors
    /// alone.
    pub fn recreate_objmap(&mut self, machine: &Machine, idle_table: &FdTable)
        requires
            old(self).wf(machine),
        ensures
            final(self).wf(machine),
            ({
                let c = old(self).state(machine);
                let object_map = final(self).tasks@[c.current.0].object_map;
                &&& object_map matches Some(table) && table@ == crate::fd::standard_only(
                    crate::scheduler::spawn::current_files(c, idle_table@),
                )
                &&& final(self).state(machine) == (CoreState {
                    tasks: c.tasks.insert(
                        c.current.0,
                        (Task { object_map, ..c.tasks[c.current.0] }),
                    ),
                    ..c
                })
            }),
    {
        let ghost c = self.state(machine);
        let mut task: Task = self.take_current(machine);
        let table: FdTable = match &task.object_map {
            Some(table) => table.standard_copy(),
            None => idle_table.standard_copy(),
        };
        task.object_map = Some(table);
        self.put_current(machine, task, Ghost(c));
    }

    /// Opens `obj` for the running task, under the lowest free descriptor.
    pub fn insert_object(&mut self, machine: &Machine, idle_table: &mut FdTable, obj: u64) -> (r:
        Result<RawFd, Errno>)
        requires
            old(self).wf(machine),
        ensures
            final(self).wf(machine),
            ({
                let c = old(self).state(machine);
                let files = crate::scheduler::spawn::current_files(c, old(idle_table)@);
                let after = match r {
                    Ok(fd) => files.insert(fd, obj),
                    Err(_) => files,
                };
                &&& match r {
                    Ok(fd) => crate::fd::lowest_free(files, fd),
                    Err(e) => e == Errno::Overflow && crate::fd::full(files),
                }
                &&& files_changed(
                    c,
                    old(idle_table)@,
                    after,
                    final(self).state(machine),
                    final(idle_table)@,
                )
            }),
    {
        let ghost c = self.state(machine);
        let mut task: Task = self.take_current(machine);
        let r = match task.object_map.as_mut() {
            Some(table) => table.insert_object(obj),
            None => idle_table.insert_object(obj),
        };
        self.put_current(machine, task, Ghost(c));
        r
    }

    /// Opens the object of `fd` once more for the running task, under the
    /// lowest free descriptor.
    pub fn dup_object(&mut self, machine: &Machine, idle_table: &mut FdTable, fd: RawFd) -> (r:
        Result<RawFd, Errno>)
        requires
            old(self).wf(machine),
        ensures
            final(self).wf(machine),
            ({
                let c = old(self).state(machine);
                let files = crate::scheduler::spawn::current_files(c, old(idle_table)@);
                let after = match r {
                    Ok(new) => files.insert(new, files[fd]),
                    Err(_) => files,
                };
                &&& match r {
                    Ok(new) => files.contains_key(fd) && crate::fd::lowest_free(files, new),
                    Err(e) => {
                        &&& e == (if files.contains_key(fd) {
                            Errno::Overflow
                        } else {
                            Errno::Inval
                        })
                        &&& files.contains_key(fd) ==> crate::fd::full(files)
                    },
                }
                &&& files_changed(
                    c,
                    old(idle_table)@,
                    after,
                    final(self).state(machine),
                    final(idle_table)@,
                )
            }),
    {
        let ghost c = self.state(machine);
        let mut task: Task = self.take_current(machine);
        let r = match task.object_map.as_mut() {
            Some(table) => table.dup_object(fd),
            None => idle_table.dup_object(fd),
        };
        self.put_current(machine, task, Ghost(c));
        r
    }

    /// Opens the object of `fd1` once more for the running task, under `fd2`.
    pub fn dup_object2(
        &mut self,
        machine: &Machine,
        idle_table: &mut FdTable,
        fd1: RawFd,
        fd2: RawFd,
    ) -> (r: Result<RawFd, Errno>)
        requires
            old(self).wf(machine),
        ensures
            final(self).wf(machine),
            ({
                let c = old(self).state(machine);
                let files = crate::scheduler::spawn::current_files(c, old(idle_table)@);
                let after = match r {
                    Ok(_) => files.insert(fd2, files[fd1]),
                    Err(_) => files,
                };
                &&& r == (if !files.contains_key(fd1) {
                    Err(Errno::Badf)
                } else if files.contains_key(fd2) {
                    Err(Errno::Mfile)
                } else {
                    Ok(fd2)
                })
                &&& files_changed(
                    c,
                    old(idle_table)@,
                    after,
                    final(self).state(machine),
                    final(idle_table)@,
                )
            }),
    {
        let ghost c = self.state(machine);
        let mut task: Task = self.take_current(machine);
        let r = match task.object_map.as_mut() {
            Some(table) => table.dup_object2(fd1, fd2),
            None => idle_table.dup_object2(fd1, fd2),
        };
        self.put_current(machine, task, Ghost(c));
        r
    }

    /// Closes `fd` for the running task and returns the object it named.
    pub fn remove_object(&mut self, machine: &Machine, idle_table: &mut FdTable, fd: RawFd) -> (r:
        Result<u64, Errno>)
        requires
            old(self).wf(machine),
        ensures
            final(self).wf(machine),
            ({
                let c = old(self).state(machine);
                let files = crate::scheduler::spawn::current_files(c, old(idle_table)@);
                &&& r == (if files.contains_key(fd) {
                    Ok(files[fd])
                } else {
                    Err(Errno::Badf)
                })
                &&& files_changed(
                    c,
                    old(idle_table)@,
                    files.remove(fd),
                    final(self).state(machine),
                    final(idle_table)@,
                )
            }),
    {
        let ghost c = self.state(machine);
        let mut task: Task = self.take_current(machine);
        let r = match task.object_map.as_mut() {
            Some(table) => table.remove_object(fd),
            None => idle_table.remove_object(fd),
        };
        self.put_current(machine, task, Ghost(c));
        r
    }
}

} // verus!
