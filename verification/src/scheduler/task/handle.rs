//! Task handles: what other cores and wait queues hold of a task.

use vstd::prelude::*;

use crate::scheduler::task::{Priority, TaskId};

verus! {

/// Names a task, the priority it was created with and the core it lives on.
#[derive(Copy, Clone, Debug)]
pub struct TaskHandle {
    pub id: TaskId,
    pub priority: Priority,
    pub core_id: u32,
}

impl TaskHandle {
    /// A handle of the task `id`.
    pub fn new(id: TaskId, priority: Priority, core_id: u32) -> (r: Self)
        ensures
            r == (TaskHandle { id, priority, core_id }),
    {
        TaskHandle { id, priority, core_id }
    }

    /// The core that the task lives on.
    pub fn get_core_id(&self) -> (r: u32)
        ensures
            r == self.core_id,
    {
        self.core_id
    }

    /// The task's identifier.
    pub fn get_id(&self) -> (r: TaskId)
        ensures
            r == self.id,
    {
        self.id
    }

    /// The priority the task was created with.
    pub fn get_priority(&self) -> (r: Priority)
        ensures
            r == self.priority,
    {
        self.priority
    }
}

impl PartialEq for TaskHandle {
    /// Two handles are equal if they name the same task.
    fn eq(&self, other: &Self) -> (r: bool) {
        self.id == other.id
    }
}

impl vstd::std_specs::cmp::PartialEqSpecImpl for TaskHandle {
    open spec fn obeys_eq_spec() -> bool {
        true
    }

    open spec fn eq_spec(&self, other: &Self) -> bool {
        self.id == other.id
    }
}

impl Eq for TaskHandle {

}

impl PartialOrd for TaskHandle {
    /// Handles are ordered by their identifiers.
    fn partial_cmp(&self, other: &Self) -> (r: Option<core::cmp::Ordering>) {
        if self.id.0 < other.id.0 {
            Some(core::cmp::Ordering::Less)
        } else if self.id.0 == other.id.0 {
            Some(core::cmp::Ordering::Equal)
        } else {
            Some(core::cmp::Ordering::Greater)
        }
    }
}

impl vstd::std_specs::cmp::PartialOrdSpecImpl for TaskHandle {
    open spec fn obeys_partial_cmp_spec() -> bool {
        true
    }

    open spec fn partial_cmp_spec(&self, other: &Self) -> Option<core::cmp::Ordering> {
        if self.id.0 < other.id.0 {
            Some(core::cmp::Ordering::Less)
        } else if self.id.0 == other.id.0 {
            Some(core::cmp::Ordering::Equal)
        } else {
            Some(core::cmp::Ordering::Greater)
        }
    }
}

/// Handles are equal exactly if they name the same task, whatever priority and core they
/// give, and they are ordered as the identifiers are.
pub proof fn lemma_handles_by_id(a: TaskHandle, b: TaskHandle)
    ensures
        vstd::std_specs::cmp::PartialEqSpec::eq_spec(&a, &b) <==> a.id.0 == b.id.0,
        ({
            let order = vstd::std_specs::cmp::PartialOrdSpec::partial_cmp_spec(&a, &b);
            &&& order == Some(core::cmp::Ordering::Less) <==> a.id.0 < b.id.0
            &&& order == Some(core::cmp::Ordering::Equal) <==> a.id.0 == b.id.0
            &&& order == Some(core::cmp::Ordering::Greater) <==> a.id.0 > b.id.0
        }),
{
}

} // verus!
