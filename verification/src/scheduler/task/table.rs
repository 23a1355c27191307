//! The tasks of a core by identifier.

use vstd::prelude::*;

use std::collections::BTreeMap;

use crate::scheduler::task::{Task, TaskId};

verus! {

/// Owns the tasks of a core. Queues and the scheduler name tasks by their
/// identifiers.
pub struct TaskTable {
    tasks: BTreeMap<i32, Task>,
}

impl View for TaskTable {
    type V = Map<i32, Task>;

    /// The tasks by the numbers of their identifiers.
    closed spec fn view(&self) -> Map<i32, Task> {
        self.tasks@
    }
}

impl TaskTable {
    /// A table without tasks.
    pub fn new() -> (r: Self)
        ensures
            r@ == Map::<i32, Task>::empty(),
    {
        TaskTable { tasks: BTreeMap::new() }
    }

    /// Whether the table holds the task `id`.
    pub fn contains(&self, id: TaskId) -> (r: bool)
        ensures
            r == self@.contains_key(id.0),
    {
        broadcast use vstd::std_specs::btree::group_btree_axioms;

        self.tasks.contains_key(&id.0)
    }

    /// The task `id`.
    pub fn get(&self, id: TaskId) -> (r: &Task)
        requires
            self@.contains_key(id.0),
        ensures
            *r == self@[id.0],
    {
        broadcast use vstd::std_specs::btree::group_btree_axioms;

        self.tasks.get(&id.0).unwrap()
    }

    /// Takes the task `id` out of the table.
    pub fn take(&mut self, id: TaskId) -> (r: Task)
        requires
            old(self)@.contains_key(id.0),
        ensures
            r == old(self)@[id.0],
            final(self)@ == old(self)@.remove(id.0),
    {
        broadcast use vstd::std_specs::btree::group_btree_axioms;

        self.tasks.remove(&id.0).unwrap()
    }

    /// Puts a task into the table, under its identifier.
    pub fn put(&mut self, task: Task)
        ensures
            final(self)@ == old(self)@.insert(task.id.0, task),
    {
        broadcast use vstd::std_specs::btree::group_btree_axioms;

        let _ = self.tasks.insert(task.id.0, task);
    }
}

} // verus!
