//! Tasks and the queues that hold them.

pub mod blocked;
pub mod handle;
pub mod handle_queue;
pub mod priority_queue;
pub mod table;

use vstd::prelude::*;

use crate::arch::aarch64::kernel::stacks::TaskStacks;
use crate::duration::Duration;
use crate::fd::FdTable;
use crate::scheduler::supervisor::EntryPointId;

verus! {

/// The status of a task, used for scheduling.
#[derive(Copy, Clone, Debug, Eq, PartialEq, Structural)]
pub enum TaskStatus {
    Invalid,
    Ready,
    Running,
    Blocked,
    Finished,
    Idle,
}

/// Unique identifier for a task.
#[derive(PartialEq, Eq, PartialOrd, Ord, Debug, Clone, Copy, Structural)]
pub struct TaskId(pub i32);

impl TaskId {
    /// The number of this identifier.
    pub fn into(self) -> (r: i32)
        ensures
            r == self.0,
    {
        self.0
    }

    /// The identifier with the number `x`.
    pub fn from(x: i32) -> (r: Self)
        ensures
            r == TaskId(x),
    {
        TaskId(x)
    }
}

/// Priority of a task: a larger number is a higher priority.
#[derive(PartialEq, Eq, Ord, Debug, Clone, Copy, Structural)]
pub struct Priority(pub u8);

impl PartialOrd for Priority {
    /// Priorities are ordered by their numbers.
    fn partial_cmp(&self, other: &Self) -> (r: Option<core::cmp::Ordering>) {
        if self.0 < other.0 {
            Some(core::cmp::Ordering::Less)
        } else if self.0 == other.0 {
            Some(core::cmp::Ordering::Equal)
        } else {
            Some(core::cmp::Ordering::Greater)
        }
    }
}

impl vstd::std_specs::cmp::PartialOrdSpecImpl for Priority {
    open spec fn obeys_partial_cmp_spec() -> bool {
        true
    }

    open spec fn partial_cmp_spec(&self, other: &Self) -> Option<core::cmp::Ordering> {
        if self.0 < other.0 {
            Some(core::cmp::Ordering::Less)
        } else if self.0 == other.0 {
            Some(core::cmp::Ordering::Equal)
        } else {
            Some(core::cmp::Ordering::Greater)
        }
    }
}

/// A larger number is a higher priority: priorities compare as their numbers do.
pub proof fn lemma_priority_order(a: u8, b: u8)
    ensures
        ({
            let order = vstd::std_specs::cmp::PartialOrdSpec::partial_cmp_spec(
                &Priority(a),
                &Priority(b),
            );
            &&& order == Some(core::cmp::Ordering::Less) <==> a < b
            &&& order == Some(core::cmp::Ordering::Equal) <==> a == b
            &&& order == Some(core::cmp::Ordering::Greater) <==> a > b
        }),
{
}

impl Priority {
    /// The number of this priority.
    pub fn into(self) -> (r: u8)
        ensures
            r == self.0,
    {
        self.0
    }

    /// The priority with the number `x`.
    pub fn from(x: u8) -> (r: Self)
        ensures
            r == Priority(x),
    {
        Priority(x)
    }
}

/// Number of the priority for urgent tasks.
pub const HIGH_PRIO: u8 = 3;

/// Number of the priority of an ordinary task.
pub const NORMAL_PRIO: u8 = 2;

/// Number of the priority for background tasks.
pub const LOW_PRIO: u8 = 1;

/// Number of the idle task's priority.
pub const IDLE_PRIO: u8 = 0;

/// Number of priorities: they run from 0 to `NO_PRIORITIES - 1`.
pub const NO_PRIORITIES: usize = 31;

/// Where the register frame of a suspended task lies.
#[derive(Debug, Clone, Copy, PartialEq, Eq, Structural)]
pub enum FrameLocation {
    /// In the task's exception slot.
    InSlot,
    /// The slot was claimed and the frame is being copied; wakes wait for it.
    BeingEvicted,
    /// On the kernel stack; the slot was freed.
    Evicted,
}

/// Names a saved image of the floating-point registers. Zero is the image of
/// a task that has not used them.
#[derive(Debug, Clone, Copy, PartialEq, Eq, Structural)]
pub struct FpuState(pub u64);

/// A task control block.
pub struct Task {
    /// The identifier of the task.
    pub id: TaskId,
    /// Whether the task is ready, running, blocked and so on.
    pub status: TaskStatus,
    /// The current priority.
    pub prio: Priority,
    /// Where the register frame of the suspended task lies.
    pub last_stack_pointer: u64,
    /// The user stack pointer before the task entered the kernel.
    pub user_stack_pointer: u64,
    /// The floating-point registers of the suspended task.
    pub last_fpu_state: FpuState,
    /// The core that the task runs on.
    pub core_id: u32,
    /// The stacks of the task.
    pub stacks: TaskStacks,
    /// Where the register frame lies.
    pub frame_location: FrameLocation,
    /// The exception slot of the task, while its frame is in one.
    pub slot: Option<usize>,
    /// Whether the task was woken while its frame was being copied.
    pub wake_pending: bool,
    /// When the task was last dispatched, since boot.
    pub last_touch: Duration,
    /// The open files of the task. `None` is the table that all idle tasks
    /// share.
    pub object_map: Option<FdTable>,
    /// Address of the entry point that the task was started with.
    pub entry: u64,
    /// Argument that the task was started with.
    pub entry_arg: u64,
    /// The entry point by its stable index.
    pub entry_point_id: EntryPointId,
    /// Thread pointer of the task's thread-local storage, if it has one.
    pub tls: Option<u64>,
}

impl Task {
    /// A task that was never dispatched, with nothing on its stacks. Its entry
    /// point is the placeholder at `placeholder_entry`.
    pub fn new(
        tid: TaskId,
        core_id: u32,
        task_status: TaskStatus,
        task_prio: Priority,
        stacks: TaskStacks,
        object_map: Option<FdTable>,
        placeholder_entry: u64,
    ) -> (r: Task)
        ensures
            r == (Task {
                id: tid,
                status: task_status,
                prio: task_prio,
                last_stack_pointer: 0,
                user_stack_pointer: 0,
                last_fpu_state: FpuState(0),
                core_id,
                stacks,
                frame_location: FrameLocation::InSlot,
                slot: None,
                wake_pending: false,
                last_touch: (Duration { secs: 0, nanos: 0 }),
                object_map,
                entry: placeholder_entry,
                entry_arg: 0,
                entry_point_id: EntryPointId::Idle,
                tls: None,
            }),
    {
        Task {
            id: tid,
            status: task_status,
            prio: task_prio,
            last_stack_pointer: 0,
            user_stack_pointer: 0,
            last_fpu_state: FpuState(0),
            core_id,
            stacks,
            frame_location: FrameLocation::InSlot,
            slot: None,
            wake_pending: false,
            last_touch: Duration::zero(),
            object_map,
            entry: placeholder_entry,
            entry_arg: 0,
            entry_point_id: EntryPointId::Idle,
            tls: None,
        }
    }
}

/// The idle task has the lowest priority, background, ordinary and urgent tasks the next ones, and
/// there are 31 in all.
pub proof fn lemma_priority_levels()
    ensures
        IDLE_PRIO == 0,
        LOW_PRIO == IDLE_PRIO + 1,
        NORMAL_PRIO == LOW_PRIO + 1,
        HIGH_PRIO == NORMAL_PRIO + 1,
        NO_PRIORITIES == 31,
{
}

} // verus!
