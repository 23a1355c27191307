use std::cmp::Ordering;

use hermit::addr::{checked_virt_addr, virt_addr};
use hermit::arch::aarch64::kernel::scheduler::{Entry, INITIAL_SPSR};
use hermit::arch::aarch64::kernel::slot_pool::{CoreSlotOwners, SlotPool, CLAIMED, SLOT_STRIDE};
use hermit::arch::aarch64::kernel::stacks::{TaskStacks, MARKER};
use hermit::bits::msb;
use hermit::config::{DEFAULT_STACK_SIZE, EXCEPTION_SLOT_GUARD, EXCEPTION_SLOT_SIZE, SLOTS_PER_CORE};
use hermit::diagnostics::{dump_frame_magic, FrameNote, MAGIC_SLOT_CORRUPTION};
use hermit::duration::Duration;
use hermit::errno::Errno;
use hermit::fd::FdTable;
use hermit::memory::Memory;
use hermit::pages::{aligned_layout, layout_size, pages_up, range_of};
use hermit::scheduler::registry::TaskRegistry;
use hermit::scheduler::supervisor::{
    should_restart, EntryPointId, RestartEntry, RestartPolicy, RestartTable,
};
use hermit::scheduler::task::blocked::{BlockedTask, BlockedTaskQueue};
use hermit::scheduler::task::handle::TaskHandle;
use hermit::scheduler::task::handle_queue::{BitmapPool, TaskHandlePriorityQueue};
use hermit::scheduler::task::priority_queue::PriorityTaskQueue;
use hermit::scheduler::task::table::TaskTable;
use hermit::scheduler::task::{FrameLocation, Priority, Task, TaskId, TaskStatus};

fn handle(id: i32, prio: u8) -> TaskHandle {
    TaskHandle::new(TaskId::from(id), Priority::from(prio), 0)
}

fn task(id: i32, status: TaskStatus) -> Task {
    Task::new(
        TaskId(id),
        0,
        status,
        Priority(2),
        TaskStacks::from_boot_stacks(0x8000),
        None,
        0x7100,
    )
}

#[test]
fn the_most_significant_bit() {
    assert_eq!(msb(0), None);
    assert_eq!(msb(1), Some(0));
    assert_eq!(msb(0b1010), Some(3));
    assert_eq!(msb(u64::MAX), Some(63));
}

#[test]
fn addresses_are_canonical() {
    assert_eq!(checked_virt_addr(0x1000), Some(0x1000));
    assert_eq!(checked_virt_addr(0x000f_ffff_ffff_ffff), Some(0x000f_ffff_ffff_ffff));
    assert_eq!(checked_virt_addr(0x0010_0000_0000_0000), None);
    assert_eq!(virt_addr(0xfff0_0000_0000_0000), 0xfff0_0000_0000_0000);
}

#[test]
fn pages_and_layouts() {
    assert_eq!(pages_up(0), 0);
    assert_eq!(pages_up(1), 0x1000);
    assert_eq!(pages_up(0x1000), 0x1000);
    assert_eq!(pages_up(0x8001), 0x9000);
    assert_eq!(layout_size(0x3000), Some(0x3000));
    assert_eq!(layout_size(0x3001), None);
    assert_eq!(aligned_layout(0x3000, 0x1000), Some((0x3000, 0x1000)));
    assert_eq!(aligned_layout(0x3000, 0x3000), None);
    assert_eq!(aligned_layout(0x10, 0x1000), None);
    assert_eq!(range_of(0x4000, 0x2000), Some((0x4000, 0x6000)));
    assert_eq!(range_of(0x4000, 0), None);
    assert_eq!(range_of(0x4001, 0x1000), None);
    assert_eq!(range_of(usize::MAX - 0xfff, 0x1000), None);
}

#[test]
fn durations() {
    assert_eq!(Duration::from_millis(1500), Duration { secs: 1, nanos: 500_000_000 });
    assert_eq!(Duration::from_micros(1_000_001), Duration { secs: 1, nanos: 1_000 });
    assert_eq!(Duration::from_micros(2_500_000).as_micros(), 2_500_000);
    let a = Duration::from_millis(10);
    let b = Duration::from_millis(12);
    assert_eq!(b.saturating_sub(&a), Duration::from_millis(2));
    assert_eq!(a.saturating_sub(&b), Duration::zero());
    assert!(a.shorter_than(&b));
    assert!(!b.shorter_than(&b));
    let c = Duration { secs: 2, nanos: 1 };
    let d = Duration { secs: 0, nanos: 2 };
    assert_eq!(c.saturating_sub(&d), Duration { secs: 1, nanos: 999_999_999 });
}

#[test]
fn error_numbers() {
    assert_eq!(Errno::Badf.number(), 9);
    assert_eq!(Errno::Inval.number(), 22);
    assert_eq!(Errno::Mfile.number(), 24);
    assert_eq!(Errno::Nosys.number(), 38);
    assert_eq!(Errno::Time.number(), 62);
    assert_eq!(Errno::Overflow.number(), 75);
}

#[test]
fn memory_reads_back_what_was_written() {
    let mut memory = Memory::new();
    assert!(!memory.is_mapped(0x1000));
    memory.map_zeroed(0x1000, 100);
    assert!(memory.is_mapped(0x1000 + 8 * 99));
    assert!(!memory.is_mapped(0x1000 + 8 * 100));
    assert_eq!(memory.read(0x1008), 0);
    memory.write(0x1008, 77);
    assert_eq!(memory.read(0x1008), 77);
    memory.copy_frame(0x1000, 0x1000 + 8 * 36);
    assert_eq!(memory.read(0x1008 + 8 * 36), 77);
}

#[test]
fn a_frame_is_scanned_for_the_magic_value() {
    let mut memory = Memory::new();
    memory.map_zeroed(0x1000, 36);
    memory.write(0x1008, 0xaaaa);
    memory.write(0x1010, 0x3e4);
    let scan = dump_frame_magic(&memory, 0x1000);
    assert_eq!(
        scan.notes,
        vec![FrameNote::Elr { value: 0xaaaa }, FrameNote::Spsr { value: 0x3e4 }]
    );
    assert!(!scan.hit_any);
    memory.write(0x1010, MAGIC_SLOT_CORRUPTION);
    memory.write(0x1000 + 8 * 35, MAGIC_SLOT_CORRUPTION);
    let scan = dump_frame_magic(&memory, 0x1000);
    assert_eq!(
        scan.notes,
        vec![
            FrameNote::Elr { value: 0xaaaa },
            FrameNote::Match { index: 2, is_x: false },
            FrameNote::Match { index: 35, is_x: true },
        ]
    );
    assert!(scan.hit_any);
    assert!(scan.hit_x);
    memory.write(0x1000 + 8 * 35, 0);
    let scan = dump_frame_magic(&memory, 0x1000);
    assert!(scan.hit_any);
    assert!(!scan.hit_x);
}

#[test]
fn descriptors_are_the_lowest_that_are_free() {
    let mut table = FdTable::with_stdio(100, 101, 102);
    assert_eq!(table.insert_object(200), Ok(3));
    assert_eq!(table.insert_object(201), Ok(4));
    assert_eq!(table.remove_object(1), Ok(101));
    assert_eq!(table.insert_object(300), Ok(1));
    assert_eq!(table.get_object(1), Ok(300));
    assert_eq!(table.len(), 5);
    assert_eq!(FdTable::new().len(), 0);
}

#[test]
fn descriptor_errors() {
    let mut table = FdTable::with_stdio(100, 101, 102);
    assert_eq!(table.get_object(7), Err(Errno::Badf));
    assert_eq!(table.remove_object(7), Err(Errno::Badf));
    assert_eq!(table.dup_object(7), Err(Errno::Inval));
    assert_eq!(table.dup_object2(7, 8), Err(Errno::Badf));
    assert_eq!(table.dup_object2(0, 2), Err(Errno::Mfile));
    assert_eq!(table.dup_object2(0, 8), Ok(8));
    assert_eq!(table.get_object(8), Ok(100));
    assert_eq!(table.dup_object(2), Ok(3));
    assert_eq!(table.get_object(3), Ok(102));
}

#[test]
fn what_was_inserted_can_be_removed() {
    let mut table = FdTable::with_stdio(100, 101, 102);
    let fd = table.insert_object(500).unwrap();
    assert_eq!(table.remove_object(fd), Ok(500));
    assert_eq!(table.get_object(fd), Err(Errno::Badf));
    assert_eq!(table.len(), 3);
}

#[test]
fn tables_are_copied() {
    let mut table = FdTable::with_stdio(100, 101, 102);
    table.insert_object(200).unwrap();
    let mut copy = table.deep_copy();
    assert_eq!(copy.get_object(3), Ok(200));
    assert_eq!(copy.remove_object(3), Ok(200));
    assert_eq!(table.get_object(3), Ok(200));
    let standard = table.standard_copy();
    assert_eq!(standard.len(), 3);
    assert_eq!(standard.get_object(2), Ok(102));
    assert_eq!(standard.get_object(3), Err(Errno::Badf));
    table.remove_object(1).unwrap();
    assert_eq!(table.standard_copy().len(), 2);
}

#[test]
fn restart_policies() {
    let mut never = RestartEntry::new(RestartPolicy::Never);
    assert_eq!(never.policy(), RestartPolicy::Never);
    assert!(!never.may_restart(1));
    let mut always = RestartEntry::new(RestartPolicy::Always);
    for t in 0..10 {
        assert!(always.may_restart(t));
    }
}

#[test]
fn at_most_so_many_restarts_in_a_window() {
    let window = Duration::from_micros(100);
    let mut entry = RestartEntry::new(RestartPolicy::MaxN { count: 2, window });
    assert!(entry.may_restart(1000));
    assert!(entry.may_restart(1099));
    assert!(entry.may_restart(1100));
    assert!(!entry.may_restart(1101));
    assert!(!entry.may_restart(1198));
    assert!(entry.may_restart(1199));
    assert!(entry.may_restart(1200));
    assert!(!entry.may_restart(1298));
}

#[test]
fn a_restart_at_time_zero_leaves_the_window() {
    let window = Duration::from_micros(100);
    let mut entry = RestartEntry::new(RestartPolicy::MaxN { count: 1, window });
    assert!(entry.may_restart(0));
    assert!(!entry.may_restart(99));
    assert!(entry.may_restart(1000));
}

#[test]
fn windows_slide() {
    let window = Duration::from_micros(10);
    let mut entry = RestartEntry::new(RestartPolicy::MaxN { count: 2, window });
    let granted: Vec<bool> = [1, 10, 11, 12, 19, 20].iter().map(|t| entry.may_restart(*t)).collect();
    assert_eq!(granted, vec![true, true, true, false, false, true]);
    let mut none = RestartEntry::new(RestartPolicy::MaxN { count: 0, window });
    assert!(!none.may_restart(1));
    let endless = Duration { secs: 0, nanos: 999 };
    let mut once = RestartEntry::new(RestartPolicy::MaxN { count: 1, window: endless });
    assert!(once.may_restart(5));
    assert!(!once.may_restart(1_000_000));
}

#[test]
fn entry_points_have_policies_of_their_own() {
    let mut table = RestartTable::new(RestartPolicy::Never, RestartPolicy::Always);
    assert!(!should_restart(&mut table, EntryPointId::Idle, 1));
    assert!(should_restart(&mut table, EntryPointId::AppTask, 1));
    let mut table = RestartTable::default_table();
    assert!(!should_restart(&mut table, EntryPointId::AppTask, 1));
}

#[test]
fn a_larger_number_is_a_higher_priority() {
    for (a, b) in [(0u8, 1u8), (1, 0), (7, 7), (30, 255)] {
        assert_eq!(Priority::from(a) < Priority::from(b), a < b);
        assert_eq!(Priority::from(a).partial_cmp(&Priority::from(b)), a.partial_cmp(&b));
        assert_eq!(Priority::from(a).into(), a);
    }
}

#[test]
fn handles_are_ordered_by_identifier() {
    assert!(handle(1, 2) == TaskHandle::new(TaskId(1), Priority(3), 4));
    assert!(handle(1, 2) != handle(2, 2));
    assert_eq!(handle(1, 9).partial_cmp(&handle(2, 1)), Some(Ordering::Less));
}

#[test]
fn ready_queues_serve_the_highest_priority() {
    let mut queue = PriorityTaskQueue::new();
    assert!(queue.is_empty());
    assert_eq!(queue.get_highest_priority(), Priority(0));
    assert_eq!(queue.pop(), None);
    queue.push(TaskId(1), Priority(2));
    queue.push(TaskId(2), Priority(5));
    queue.push(TaskId(3), Priority(2));
    queue.push(TaskId(4), Priority(30));
    assert_eq!(*queue.get_priority_bitmap(), (1 << 2) | (1 << 5) | (1 << 30));
    assert_eq!(queue.get_highest_priority(), Priority(30));
    assert_eq!(queue.pop_with_prio(Priority(31)), None);
    assert_eq!(queue.pop_with_prio(Priority(6)), Some(TaskId(4)));
    assert_eq!(queue.pop_with_prio(Priority(6)), None);
    assert_eq!(queue.pop(), Some(TaskId(2)));
    assert_eq!(queue.pop(), Some(TaskId(1)));
    assert_eq!(queue.pop(), Some(TaskId(3)));
    assert!(queue.is_empty());
    assert_eq!(*queue.get_priority_bitmap(), 0);
}

#[test]
fn a_ready_task_moves_to_another_priority() {
    let mut queue = PriorityTaskQueue::new();
    queue.push(TaskId(1), Priority(2));
    queue.push(TaskId(2), Priority(2));
    assert_eq!(queue.set_priority(handle(1, 2), Priority(1)), Ok(()));
    assert_eq!(queue.set_priority(handle(9, 2), Priority(1)), Err(()));
    assert_eq!(queue.pop(), Some(TaskId(2)));
    assert_eq!(queue.pop(), Some(TaskId(1)));
}

#[test]
fn queues_of_handles_share_a_pool() {
    let mut pool = BitmapPool::new();
    let mut a = TaskHandlePriorityQueue::new();
    let mut b = TaskHandlePriorityQueue::new();
    assert!(a.is_empty(&mut pool));
    a.push(&mut pool, handle(1, 2));
    a.push(&mut pool, handle(2, 7));
    b.push(&mut pool, handle(3, 4));
    assert!(a.contains(handle(1, 2)));
    assert!(!a.contains(handle(3, 4)));
    assert!(!b.is_empty(&mut pool));
    assert!(a.remove(&mut pool, handle(2, 7)));
    assert!(!a.remove(&mut pool, handle(2, 7)));
    assert_eq!(a.pop(&mut pool).map(|t| t.get_id()), Some(TaskId(1)));
    assert!(a.is_empty(&mut pool));
    assert_eq!(b.pop(&mut pool).map(|t| t.get_id()), Some(TaskId(3)));
    assert!(b.pop(&mut pool).is_none());
    assert_eq!(pool.alloc_bitmap_id(), 2);
}

#[test]
fn blocked_tasks_are_sorted_by_time() {
    let mut queue = BlockedTaskQueue::new();
    for (id, time) in [(1, Some(50)), (2, None), (3, Some(20)), (4, Some(50))] {
        let mut t = task(id, TaskStatus::Running);
        assert_eq!(queue.add(&mut t, time), time);
        assert_eq!(t.status, TaskStatus::Blocked);
    }
    assert_eq!(queue.iter(), vec![TaskId(3), TaskId(1), TaskId(4), TaskId(2)]);
    let node = BlockedTask::new(TaskId(5), Some(1));
    assert_eq!(node.wakeup_time, Some(1));
}

#[test]
fn elapsed_tasks_become_ready() {
    let mut queue = BlockedTaskQueue::new();
    let mut tasks = TaskTable::new();
    let mut ready = PriorityTaskQueue::new();
    for (id, time) in [(1, Some(50)), (2, None), (3, Some(20))] {
        let mut t = task(id, TaskStatus::Running);
        queue.add(&mut t, time);
        tasks.put(t);
    }
    assert_eq!(queue.handle_waiting_tasks(&mut tasks, &mut ready, 30, 0), Some(50));
    assert_eq!(ready.pop(), Some(TaskId(3)));
    assert_eq!(ready.pop(), None);
    let (id, awake, timer) = queue.custom_wakeup(&mut tasks, handle(1, 2), 0);
    assert_eq!((id, awake, timer), (TaskId(1), true, None));
    assert_eq!(tasks.get(TaskId(1)).status, TaskStatus::Ready);
    assert_eq!(queue.iter(), vec![TaskId(2)]);
    let taken = tasks.take(TaskId(1));
    assert_eq!(taken.id, TaskId(1));
    assert!(!tasks.contains(TaskId(1)));
}

#[test]
fn a_wake_during_an_eviction_is_remembered() {
    let mut t = task(1, TaskStatus::Blocked);
    t.frame_location = FrameLocation::BeingEvicted;
    assert!(!BlockedTaskQueue::mark_ready(&mut t, 0));
    assert!(t.wake_pending);
    assert_eq!(t.status, TaskStatus::Blocked);
    t.frame_location = FrameLocation::Evicted;
    assert!(BlockedTaskQueue::mark_ready(&mut t, 0));
    assert_eq!(t.status, TaskStatus::Ready);
}

#[test]
fn the_victim_wakes_last_and_was_touched_first() {
    let mut queue = BlockedTaskQueue::new();
    let mut tasks = TaskTable::new();
    for (id, time, touched) in
        [(1, Some(900), 1_000), (2, None, 3_000), (3, None, 2_000), (4, None, 29_000)]
    {
        let mut t = task(id, TaskStatus::Running);
        t.slot = Some(0);
        t.last_touch = Duration::from_micros(touched);
        queue.add(&mut t, time);
        tasks.put(t);
    }
    let now = Duration::from_micros(30_000);
    assert_eq!(queue.select_eviction_victim(&tasks, TaskId(9), now), Some(TaskId(3)));
    let now = Duration::from_micros(11_500);
    assert_eq!(queue.select_eviction_victim(&tasks, TaskId(9), now), Some(TaskId(1)));
    let now = Duration::from_micros(5_000);
    assert_eq!(queue.select_eviction_victim(&tasks, TaskId(9), now), None);
}

#[test]
fn stacks_lie_between_guard_pages() {
    let mut memory = Memory::new();
    let (stacks, kernel, user) = TaskStacks::new(0x9001, 0x10_0000, 0x20_0000, &mut memory);
    assert_eq!(TaskStacks::layout(0x9001), (0xa000 + 0x2_0000 + 0x3000, 0xa000 + 0x2_0000));
    assert_eq!(TaskStacks::layout(1), (0x8000 + 0x2_0000 + 0x3000, 0x8000 + 0x2_0000));
    assert_eq!(stacks.get_kernel_stack(), 0x10_1000);
    assert_eq!(stacks.get_kernel_stack_size(), DEFAULT_STACK_SIZE);
    assert_eq!(stacks.get_user_stack(), 0x12_2000);
    assert_eq!(stacks.get_user_stack_size(), 0xa000);
    assert_eq!((kernel.virt_addr, kernel.phys_addr, kernel.pages), (0x10_1000, 0x20_0000, 0x20));
    assert_eq!((user.virt_addr, user.phys_addr, user.pages), (0x12_2000, 0x22_0000, 0xa));
    assert!(!memory.is_mapped(0x10_0000));
    assert!(!memory.is_mapped(0x12_1000));
    assert!(memory.is_mapped(0x12_2000));
    let release = stacks.release().unwrap();
    assert_eq!(release.unmap_start, 0x10_0000);
    assert_eq!(release.unmap_pages, 0x2d);
    assert_eq!(release.pages, (0x10_0000, 0x12_d000));
    assert_eq!(release.frames, (0x20_0000, 0x22_a000));
}

#[test]
fn boot_stacks_are_not_released() {
    let stacks = TaskStacks::from_boot_stacks(0x8_0000);
    assert_eq!(stacks.get_kernel_stack(), 0x8_0000);
    assert_eq!(stacks.get_kernel_stack_size(), 0x8000);
    assert_eq!(stacks.get_user_stack_size(), 0);
    assert_eq!(stacks.get_user_stack(), 0);
    assert!(stacks.release().is_none());
}

#[test]
fn a_new_task_starts_from_a_frame() {
    let mut memory = Memory::new();
    let (stacks, _, _) = TaskStacks::new(0x8000, 0x10_0000, 0x20_0000, &mut memory);
    let mut t = task(1, TaskStatus::Ready);
    t.stacks = stacks;
    let entry = Entry { func: 0xf00, arg: 9, task_start: 0x7000 };
    t.create_stack_frame(entry, Some(0x5000), &mut memory);
    let top = 0x10_1000 + 0x2_0000;
    assert_eq!(t.last_stack_pointer, top - 0x10 - 288);
    assert_eq!(memory.read(top - 0x10), MARKER);
    let frame = t.last_stack_pointer;
    assert_eq!(memory.read(frame), 0);
    assert_eq!(memory.read(frame + 8), 0x7000);
    assert_eq!(memory.read(frame + 16), INITIAL_SPSR);
    assert_eq!(memory.read(frame + 24), t.user_stack_pointer - 16);
    assert_eq!(memory.read(frame + 32), 0x5000);
    assert_eq!(memory.read(frame + 40), 0xf00);
    assert_eq!(memory.read(frame + 48), 9);
    assert_eq!(memory.read(frame - 8), 0x5eed_0000_0000_0000 | (frame - 8));
    assert_eq!(t.user_stack_pointer, 0x12_2000 + 0x8000 - 0x10);
    assert_eq!(memory.read(t.user_stack_pointer), MARKER);
    assert_eq!(t.tls, Some(0x5000));
}

#[test]
fn slots_of_a_core_are_claimed_in_order() {
    let mut owners = CoreSlotOwners::new();
    assert_eq!(owners.acquire(), 0);
    assert_eq!(owners.acquire(), 1);
    assert_eq!(owners.acquire(), 2);
    assert_eq!(owners.acquire(), -1);
    owners.release(1);
    assert_eq!(owners.acquire(), 1);
    owners.set_owner(1, 5);
    assert_eq!(owners.acquire(), -1);
    assert_eq!(CLAIMED, i32::MAX);
}

#[test]
fn slots_do_not_overlap() {
    let pool = SlotPool::new(0x4000_0000);
    assert_eq!(pool.slot_top(0, 0), 0x4001_0000);
    assert_eq!(pool.slot_top(0, 1), 0x4002_1000);
    assert_eq!(pool.slot_top(1, 0), 0x4004_3000);
    assert_eq!(SLOT_STRIDE as usize, EXCEPTION_SLOT_SIZE + EXCEPTION_SLOT_GUARD);
    let mut tops: Vec<u64> = Vec::new();
    for core_id in 0..4 {
        for i in 0..SLOTS_PER_CORE {
            tops.push(pool.slot_top(core_id, i));
        }
    }
    for pair in tops.windows(2) {
        assert!(pair[0] + 0x1000 + 0x1_0000 <= pair[1]);
    }
}

#[test]
fn eviction_and_resumption_keep_the_frame() {
    let mut memory = Memory::new();
    let mut pool = SlotPool::new(0x4000_0000);
    for i in 0..3 {
        memory.map_zeroed(pool.slot_top(0, i) - 288, 36);
    }
    let (stacks, _, _) = TaskStacks::new(0x8000, 0x10_0000, 0x20_0000, &mut memory);
    let mut t = task(4, TaskStatus::Ready);
    t.stacks = stacks;
    let entry = Entry { func: 0xf00, arg: 9, task_start: 0x7000 };
    t.create_stack_frame(entry, None, &mut memory);
    assert!(pool.dispatch_acquire_slot(0, &mut t, &mut memory));
    assert_eq!(t.slot, Some(0));
    for w in 0..36 {
        memory.write(t.last_stack_pointer + 8 * w, 1000 + w);
    }
    t.status = TaskStatus::Blocked;
    t.wake_pending = true;
    assert!(pool.evict_victim(0, &mut t, 0, &mut memory));
    assert_eq!(t.frame_location, FrameLocation::Evicted);
    assert_eq!(t.slot, None);
    assert!(!t.wake_pending);
    let mut other = task(5, TaskStatus::Ready);
    other.last_stack_pointer = t.last_stack_pointer;
    assert!(pool.dispatch_acquire_slot(0, &mut other, &mut memory));
    assert_eq!(other.slot, Some(0));
    for w in 0..36 {
        memory.write(other.last_stack_pointer + 8 * w, 0);
        assert_eq!(memory.read(t.last_stack_pointer + 8 * w), 1000 + w);
    }
    let (lo, hi) = (t.stacks.get_kernel_stack(), t.stacks.get_kernel_stack_size() as u64);
    assert!(lo <= t.last_stack_pointer && t.last_stack_pointer + 288 <= lo + hi);
    assert!(pool.resume_from_evicted(0, &mut t, &mut memory));
    assert_eq!(t.slot, Some(1));
    for w in 0..36 {
        assert_eq!(memory.read(t.last_stack_pointer + 8 * w), 1000 + w);
    }
    let mut third = task(6, TaskStatus::Ready);
    third.last_stack_pointer = t.last_stack_pointer;
    assert!(pool.dispatch_acquire_slot(0, &mut third, &mut memory));
    let mut fourth = task(7, TaskStatus::Ready);
    fourth.last_stack_pointer = t.last_stack_pointer;
    assert!(!pool.dispatch_acquire_slot(0, &mut fourth, &mut memory));
    assert_eq!(fourth.slot, None);
    pool.release_slot(0, &t);
    assert!(pool.dispatch_acquire_slot(0, &mut fourth, &mut memory));
    assert_eq!(fourth.slot, Some(1));
}

#[test]
fn identifiers_are_not_used_twice() {
    let mut registry = TaskRegistry::new();
    assert_eq!(registry.get_tid(), TaskId(0));
    registry.register(TaskId(1), Priority(2), 0);
    assert_eq!(registry.get_tid(), TaskId(2));
    registry.tid_counter = i32::MAX;
    assert_eq!(registry.get_tid(), TaskId(i32::MAX));
    assert_eq!(registry.tid_counter, i32::MIN);
    assert_eq!(registry.get_task_handle(TaskId(1)).unwrap().get_priority(), Priority(2));
    assert!(registry.get_task_handle(TaskId(5)).is_none());
    registry.forget(TaskId(1));
    assert!(registry.get_task_handle(TaskId(1)).is_none());
}

#[test]
fn who_waits_is_kept_in_order() {
    let mut registry = TaskRegistry::new();
    registry.register(TaskId(1), Priority(2), 0);
    assert!(registry.add_waiting(TaskId(1), handle(4, 2)));
    assert!(registry.add_waiting(TaskId(1), handle(3, 2)));
    assert!(!registry.add_waiting(TaskId(9), handle(3, 2)));
    let ids: Vec<TaskId> = registry.take_waiting(TaskId(1)).iter().map(|t| t.get_id()).collect();
    assert_eq!(ids, vec![TaskId(4), TaskId(3)]);
    assert!(!registry.add_waiting(TaskId(1), handle(4, 2)));
    assert!(registry.take_waiting(TaskId(9)).is_empty());
}
