//! What holds of scheduling as a whole.

use vstd::prelude::*;

use crate::config::SLOTS_PER_CORE;
use crate::duration::Duration;
use crate::scheduler::registry::RegistryState;
use crate::scheduler::state::CoreState;
use crate::scheduler::task::blocked::BlockedTask;
use crate::scheduler::task::handle::TaskHandle;
use crate::scheduler::task::{FrameLocation, TaskId, TaskStatus, NO_PRIORITIES};

verus! {

/// A task of a higher priority never waits for one of a lower priority: when
/// the scheduler ran, the running task was either the first in its ready queue
/// and no queue of a higher priority had a task, or it runs on and every ready
/// task has a lower priority than it.
pub proof fn lemma_highest_priority_runs(c: CoreState, now: u64, p: int)
    requires
        crate::scheduler::state::inv(c),
        0 <= p < NO_PRIORITIES,
        c.ready[p].len() > 0,
    ensures
        ({
            let s = crate::scheduler::state::scheduled(c, now);
            let top = crate::scheduler::task::priority_queue::highest(c.ready);
            if s.current == c.current && c.tasks[c.current.0].status == TaskStatus::Running {
                p < c.tasks[c.current.0].prio.0
            } else {
                &&& p <= top < NO_PRIORITIES
                &&& s.current == c.ready[top][0]
            }
        }),
{
    crate::scheduler::task::priority_queue::lemma_highest_below(c.ready, c.ready.len() as int);
    let status = c.tasks[c.current.0].status;
    let r = crate::scheduler::state::reaped(c);
    crate::scheduler::state::lemma_reaped(c);
    let d = crate::scheduler::state::retired(r);
    crate::scheduler::state::lemma_retired(r);
    assert(c.tasks.contains_key(c.current.0));
    assert(crate::scheduler::state::status_ok(c, c.current.0));
    assert(!c.finished.contains(c.current));
    assert(r.tasks[c.current.0] == c.tasks[c.current.0]);
    assert(d.ready == c.ready);
    let top = crate::scheduler::task::priority_queue::highest(c.ready);
    if let Some(n) = crate::scheduler::state::next_task(d, status) {
        crate::scheduler::state::lemma_handed_over(d, status, n);
        crate::scheduler::state::lemma_slot_ensured(
            crate::scheduler::state::handed_over(d, status, n),
            n,
            now,
        );
        if status == TaskStatus::Running {
            assert(!crate::scheduler::task::priority_queue::queued(c.ready, c.current));
            assert(crate::scheduler::task::priority_queue::queued(c.ready, c.ready[top][0])) by {
                assert(c.ready[top].contains(c.ready[top][0]));
            }
        }
    }
}

/// A running task that has to give up the core though it could go on waits at
/// the back of the queue of its priority.
pub proof fn lemma_preempted_waits_last(c: CoreState, now: u64)
    requires
        crate::scheduler::state::inv(c),
        c.tasks[c.current.0].status == TaskStatus::Running,
        crate::scheduler::state::scheduled(c, now).current != c.current,
    ensures
        ({
            let s = crate::scheduler::state::scheduled(c, now);
            let prio = c.tasks[c.current.0].prio.0 as int;
            &&& s.ready[prio].len() > 0
            &&& s.ready[prio].last() == c.current
            &&& s.tasks[c.current.0].status == TaskStatus::Ready
        }),
{
    let status = c.tasks[c.current.0].status;
    let r = crate::scheduler::state::reaped(c);
    crate::scheduler::state::lemma_reaped(c);
    let d = crate::scheduler::state::retired(r);
    crate::scheduler::state::lemma_retired(r);
    assert(crate::scheduler::state::status_ok(c, c.current.0));
    assert(crate::scheduler::state::task_ok(c, c.current.0));
    assert(!c.finished.contains(c.current));
    assert(r.tasks[c.current.0] == c.tasks[c.current.0]);
    crate::scheduler::task::priority_queue::lemma_highest_below(c.ready, c.ready.len() as int);
    let n = crate::scheduler::state::next_task(d, status)->0;
    crate::scheduler::state::lemma_handed_over(d, status, n);
    crate::scheduler::state::lemma_slot_ensured(
        crate::scheduler::state::handed_over(d, status, n),
        n,
        now,
    );
    let e = crate::scheduler::state::handed_over(d, status, n);
    assert(e.tasks.contains_key(c.current.0));
    assert(n != c.current);
    assert(e.tasks[c.current.0].status == TaskStatus::Ready);
}

/// A task that ended does not run again: when the scheduler ran, another task
/// runs and the ended one waits to be released; when it ran once more, the ended
/// one is gone.
pub proof fn lemma_ended_never_runs(c: CoreState, now: u64, later: u64)
    requires
        crate::scheduler::state::inv(c),
        c.tasks[c.current.0].status == TaskStatus::Finished,
    ensures
        ({
            let s = crate::scheduler::state::scheduled(c, now);
            &&& s.current != c.current
            &&& s.finished == seq![c.current]
            &&& !crate::scheduler::state::scheduled(s, later).tasks.contains_key(c.current.0)
        }),
{
    let status = c.tasks[c.current.0].status;
    let r = crate::scheduler::state::reaped(c);
    crate::scheduler::state::lemma_reaped(c);
    let d = crate::scheduler::state::retired(r);
    crate::scheduler::state::lemma_retired(r);
    assert(crate::scheduler::state::status_ok(c, c.current.0));
    assert(!c.finished.contains(c.current));
    assert(r.tasks[c.current.0] == c.tasks[c.current.0]);
    let n = crate::scheduler::state::next_task(d, status)->0;
    crate::scheduler::task::priority_queue::lemma_highest_below(d.ready, d.ready.len() as int);
    crate::scheduler::state::lemma_handed_over(d, status, n);
    crate::scheduler::state::lemma_slot_ensured(
        crate::scheduler::state::handed_over(d, status, n),
        n,
        now,
    );
    let e = crate::scheduler::state::handed_over(d, status, n);
    assert(e.tasks.contains_key(n.0));
    assert(n != c.current) by {
        assert(d.tasks[c.current.0].status == TaskStatus::Invalid);
        if n == c.current {
            assert(d.tasks.contains_key(n.0));
            assert(crate::scheduler::task::priority_queue::queued(d.ready, n) || n == d.idle);
        }
    }
    let s = crate::scheduler::state::scheduled(c, now);
    assert(d.finished =~= seq![c.current]);
    assert(s.finished =~= seq![c.current]);
    crate::scheduler::state::lemma_scheduled(c, now);
    assert(s.finished[0] == c.current);
    assert(s.finished.contains(TaskId(c.current.0)));
    let t = crate::scheduler::state::reaped(s);
    assert(!t.tasks.contains_key(c.current.0));
    crate::scheduler::state::lemma_reaped(s);
    crate::scheduler::state::lemma_retired(t);
    let u = crate::scheduler::state::retired(t);
    assert(crate::scheduler::state::status_ok(s, s.current.0));
    assert(u.tasks.contains_key(c.current.0) == t.tasks.contains_key(c.current.0)) by {
        assert(s.current != c.current);
    }
    let again = s.tasks[s.current.0].status;
    assert(!s.finished.contains(s.current));
    assert(t.tasks[s.current.0] == s.tasks[s.current.0]);
    if let Some(m) = crate::scheduler::state::next_task(u, again) {
        crate::scheduler::task::priority_queue::lemma_highest_below(
            u.ready,
            u.ready.len() as int,
        );
        crate::scheduler::state::lemma_handed_over(u, again, m);
        crate::scheduler::state::lemma_slot_ensured(
            crate::scheduler::state::handed_over(u, again, m),
            m,
            later,
        );
    }
}

/// The kernel stack of the task and the `n` words at `base` have none in
/// common.
pub open spec fn stack_apart(c: CoreState, k: i32, base: int, n: int) -> bool {
    let stacks = c.tasks[k].stacks;
    stacks.kernel_stack_top() <= base || base + 8 * n <= stacks.kernel_stack()
}

/// The frame of a task that does not run lies where it belongs: at the top of
/// its exception slot if it has one, and on its kernel stack otherwise.
pub open spec fn at_home(c: CoreState, k: i32) -> bool {
    let task = c.tasks[k];
    match task.slot {
        Some(i) => task.last_stack_pointer
            == crate::arch::aarch64::kernel::slot_pool::slot_frame(c.slot_base, c.core_id, i as int),
        None => task.stacks.kernel_stack() <= task.last_stack_pointer && task.last_stack_pointer
            + 288 <= task.stacks.kernel_stack_top(),
    }
}

/// The kernel stacks of the tasks have nothing in common with each other, nor
/// with the exception slots.
pub open spec fn stacks_apart(c: CoreState) -> bool {
    &&& forall|j: i32, k: i32|
        j != k && #[trigger] c.tasks.contains_key(j) && #[trigger] c.tasks.contains_key(k)
            ==> stack_apart(
            c,
            j,
            c.tasks[k].stacks.kernel_stack(),
            c.tasks[k].stacks.kernel_stack_size() / 8,
        )
    &&& forall|k: i32, i: int| #[trigger]
        c.tasks.contains_key(k) && 0 <= i < SLOTS_PER_CORE ==> stack_apart(
            c,
            k,
            #[trigger] crate::arch::aarch64::kernel::slot_pool::slot_frame(
                c.slot_base,
                c.core_id,
                i,
            ),
            36,
        )
}

/// Tasks with the same stacks still have them apart.
proof fn lemma_apart_kept(c: CoreState, d: CoreState)
    requires
        stacks_apart(c),
        d.slot_base == c.slot_base,
        d.core_id == c.core_id,
        forall|k: i32| #[trigger]
            d.tasks.contains_key(k) ==> c.tasks.contains_key(k) && d.tasks[k].stacks
                == c.tasks[k].stacks,
    ensures
        stacks_apart(d),
{
    assert forall|j: i32, l: i32|
        j != l && #[trigger] d.tasks.contains_key(j) && #[trigger] d.tasks.contains_key(
            l,
        ) implies stack_apart(
        d,
        j,
        d.tasks[l].stacks.kernel_stack(),
        d.tasks[l].stacks.kernel_stack_size() / 8,
    ) by {
        assert(c.tasks.contains_key(j) && c.tasks.contains_key(l));
        assert(stack_apart(
            c,
            j,
            c.tasks[l].stacks.kernel_stack(),
            c.tasks[l].stacks.kernel_stack_size() / 8,
        ));
    }
    assert forall|j: i32, i: int| #[trigger]
        d.tasks.contains_key(j) && 0 <= i < SLOTS_PER_CORE implies stack_apart(
        d,
        j,
        #[trigger] crate::arch::aarch64::kernel::slot_pool::slot_frame(d.slot_base, d.core_id, i),
        36,
    ) by {
        assert(c.tasks.contains_key(j));
        assert(stack_apart(
            c,
            j,
            crate::arch::aarch64::kernel::slot_pool::slot_frame(c.slot_base, c.core_id, i),
            36,
        ));
    }
}

/// The register frame of a task.
pub open spec fn frame_of(c: CoreState, k: i32) -> Seq<u64> {
    Seq::new(
        36,
        |w: int| c.words[crate::memory::word_at(c.tasks[k].last_stack_pointer as int, w)],
    )
}

/// Copying a frame leaves another frame alone that lies elsewhere.
proof fn lemma_frame_elsewhere(words: Map<u64, u64>, src: int, dst: int, at: int)
    requires
        0 <= dst,
        dst + 288 <= u64::MAX,
        0 <= at,
        at + 288 <= u64::MAX,
        crate::memory::disjoint(dst, 36, at, 36),
    ensures
        forall|w: int|
            0 <= w < 36 ==> crate::memory::frame_copied(words, src, dst)[
                #[trigger] crate::memory::word_at(at, w)
            ] == words[crate::memory::word_at(at, w)],
{
    assert forall|w: int| 0 <= w < 36 implies crate::memory::frame_copied(words, src, dst)[
        #[trigger] crate::memory::word_at(at, w)
    ] == words[crate::memory::word_at(at, w)] by {
        crate::memory::lemma_copied_elsewhere(words, src, dst, 36, crate::memory::word_at(at, w));
    }
}

/// A copied frame holds what the source held.
proof fn lemma_frame_arrives(words: Map<u64, u64>, src: int, dst: int)
    requires
        0 <= src,
        src + 288 <= u64::MAX,
        0 <= dst,
        dst + 288 <= u64::MAX,
        crate::memory::disjoint(src, 36, dst, 36),
    ensures
        forall|w: int|
            0 <= w < 36 ==> crate::memory::frame_copied(words, src, dst)[
                #[trigger] crate::memory::word_at(dst, w)
            ] == words[crate::memory::word_at(src, w)],
{
    assert forall|w: int| 0 <= w < 36 implies crate::memory::frame_copied(words, src, dst)[
        #[trigger] crate::memory::word_at(dst, w)
    ] == words[crate::memory::word_at(src, w)] by {
        crate::memory::lemma_copied_words(words, src, dst, 36, w);
    }
}

/// Giving the task `id` the free slot `i` moves its frame word for word, and
/// leaves every other frame alone.
proof fn lemma_given_keeps_frames(c: CoreState, id: TaskId, i: int, k: i32)
    requires
        crate::scheduler::state::consistent(c),
        stacks_apart(c),
        c.tasks.contains_key(id.0),
        crate::scheduler::state::live(c.tasks[id.0]),
        c.tasks[id.0].slot is None,
        at_home(c, id.0),
        0 <= i < SLOTS_PER_CORE,
        c.owners[i] == crate::arch::aarch64::kernel::slot_pool::FREE,
        c.tasks.contains_key(k),
        crate::scheduler::state::live(c.tasks[k]),
        at_home(c, k),
    ensures
        frame_of(crate::scheduler::state::given_slot(c, id, i), k) == frame_of(c, k),
        at_home(crate::scheduler::state::given_slot(c, id, i), k),
{
    let g = crate::scheduler::state::given_slot(c, id, i);
    let dst = crate::arch::aarch64::kernel::slot_pool::slot_frame(c.slot_base, c.core_id, i);
    let src = c.tasks[id.0].last_stack_pointer as int;
    assert(crate::scheduler::state::task_ok(c, id.0) && crate::scheduler::state::slot_ok(c, id.0)
        && crate::scheduler::state::frames_ok(c, id.0));
    assert(crate::scheduler::state::task_ok(c, k) && crate::scheduler::state::slot_ok(c, k)
        && crate::scheduler::state::frames_ok(c, k));
    assert(crate::memory::frame_mapped(c.words, dst));
    assert(stack_apart(c, id.0, dst, 36));
    if k == id.0 {
        lemma_frame_arrives(c.words, src, dst);
        assert(g.tasks[k].last_stack_pointer == dst);
        assert(frame_of(g, k) =~= frame_of(c, k));
    } else {
        let at = c.tasks[k].last_stack_pointer as int;
        if let Some(j) = c.tasks[k].slot {
            assert(j as int != i);
            crate::arch::aarch64::kernel::slot_pool::lemma_slots_disjoint(
                c.slot_base,
                c.core_id,
                i,
                c.core_id,
                j as int,
            );
            crate::arch::aarch64::kernel::slot_pool::lemma_frame_in_slot(
                c.slot_base,
                c.core_id,
                i,
            );
            crate::arch::aarch64::kernel::slot_pool::lemma_frame_in_slot(
                c.slot_base,
                c.core_id,
                j as int,
            );
        } else {
            assert(stack_apart(c, k, dst, 36));
        }
        lemma_frame_elsewhere(c.words, src, dst, at);
        assert(frame_of(g, k) =~= frame_of(c, k));
    }
}

/// Evicting the task `id` from its slot moves its frame word for word, and
/// leaves every other frame alone.
proof fn lemma_taken_keeps_frames(c: CoreState, id: TaskId, k: i32)
    requires
        crate::scheduler::state::consistent(c),
        stacks_apart(c),
        c.tasks.contains_key(id.0),
        crate::scheduler::task::blocked::resident(c.tasks[id.0]),
        crate::scheduler::state::live(c.tasks[id.0]),
        at_home(c, id.0),
        c.tasks.contains_key(k),
        crate::scheduler::state::live(c.tasks[k]),
        at_home(c, k),
    ensures
        frame_of(crate::scheduler::state::slot_taken(c, id), k) == frame_of(c, k),
        at_home(crate::scheduler::state::slot_taken(c, id), k),
{
    let g = crate::scheduler::state::slot_taken(c, id);
    assert(crate::scheduler::state::task_ok(c, id.0) && crate::scheduler::state::slot_ok(c, id.0)
        && crate::scheduler::state::frames_ok(c, id.0));
    assert(crate::scheduler::state::task_ok(c, k) && crate::scheduler::state::slot_ok(c, k)
        && crate::scheduler::state::frames_ok(c, k));
    let i = c.tasks[id.0].slot->0 as int;
    let src = crate::arch::aarch64::kernel::slot_pool::slot_frame(c.slot_base, c.core_id, i);
    let dst = c.tasks[id.0].stacks.persistent_frame();
    assert(crate::memory::frame_mapped(c.words, src));
    assert(stack_apart(c, id.0, src, 36));
    if k == id.0 {
        lemma_frame_arrives(c.words, src, dst);
        assert(g.tasks[k].last_stack_pointer == dst);
        assert(frame_of(g, k) =~= frame_of(c, k));
    } else {
        let at = c.tasks[k].last_stack_pointer as int;
        if let Some(j) = c.tasks[k].slot {
            assert(stack_apart(
                c,
                id.0,
                crate::arch::aarch64::kernel::slot_pool::slot_frame(
                    c.slot_base,
                    c.core_id,
                    j as int,
                ),
                36,
            ));
        } else {
            assert(stack_apart(
                c,
                id.0,
                c.tasks[k].stacks.kernel_stack(),
                c.tasks[k].stacks.kernel_stack_size() / 8,
            ));
        }
        lemma_frame_elsewhere(c.words, src, dst, at);
        assert(frame_of(g, k) =~= frame_of(c, k));
    }
}

/// Every task keeps its register frame, word for word, when a task is given an
/// exception slot, and when another one has to give up its own for that.
pub proof fn lemma_frames_kept(c: CoreState, id: TaskId, now: u64, k: i32)
    requires
        crate::scheduler::state::consistent(c),
        stacks_apart(c),
        c.tasks.contains_key(id.0),
        crate::scheduler::state::live(c.tasks[id.0]),
        !crate::scheduler::task::blocked::names(c.blocked, id),
        at_home(c, id.0),
        forall|t: TaskId| #[trigger]
            crate::scheduler::task::blocked::names(c.blocked, t) ==> at_home(c, t.0),
        c.tasks.contains_key(k),
        crate::scheduler::state::live(c.tasks[k]),
        at_home(c, k),
    ensures
        frame_of(crate::scheduler::state::slot_ensured(c, id, now), k) == frame_of(c, k),
        at_home(crate::scheduler::state::slot_ensured(c, id, now), k),
{
    let t = crate::scheduler::state::touched(c, id, now);
    crate::scheduler::state::lemma_touched(c, id, now);
    let free = crate::arch::aarch64::kernel::slot_pool::first_free(c.owners);
    crate::arch::aarch64::kernel::slot_pool::lemma_first_free(c.owners);
    let when = Duration::spec_from_micros(now);
    let victim = crate::scheduler::task::blocked::victim(c.blocked, t.tasks, when);
    lemma_apart_kept(c, t);
    assert(frame_of(t, k) =~= frame_of(c, k));
    assert(crate::scheduler::state::slot_ok(t, id.0));
    if crate::scheduler::state::stays(t, id) {
    } else {
        assert(t.tasks[id.0].slot is None);
        if free < SLOTS_PER_CORE {
            lemma_given_keeps_frames(t, id, free, k);
        } else if victim is Some {
            let m = victim->0;
            assert(crate::scheduler::task::blocked::is_victim(c.blocked, t.tasks, when, m));
            let v = c.blocked[m].task;
            assert(crate::scheduler::task::blocked::names(c.blocked, v));
            assert(t.tasks.contains_key(v.0));
            assert(c.tasks.contains_key(v.0));
            assert(at_home(c, v.0));
            assert(crate::scheduler::state::slot_ok(t, v.0));
            assert(v != id);
            crate::scheduler::state::lemma_slot_taken(t, v);
            lemma_taken_keeps_frames(t, v, k);
            lemma_taken_keeps_frames(t, v, id.0);
            let e = crate::scheduler::state::slot_taken(t, v);
            lemma_apart_kept(t, e);
            lemma_given_keeps_frames(e, id, t.tasks[v.0].slot->0 as int, k);
        }
    }
}

/// Whether the task runs: it is the current one, and was neither blocked nor is
/// it ready again.
pub open spec fn runs(c: CoreState, k: i32) -> bool {
    &&& k == c.current.0
    &&& c.tasks[k].status != TaskStatus::Blocked
    &&& c.tasks[k].status != TaskStatus::Ready
}

/// A task that does not run keeps its register frame, word for word, when the
/// scheduler runs: whoever runs next, and whoever has to give up an exception
/// slot for that.
pub proof fn lemma_schedule_keeps_frames(c: CoreState, now: u64, k: i32)
    requires
        crate::scheduler::state::inv(c),
        stacks_apart(c),
        forall|j: i32| #[trigger]
            c.tasks.contains_key(j) && !runs(c, j) && crate::scheduler::state::live(
                c.tasks[j],
            ) ==> at_home(c, j),
        c.tasks.contains_key(k),
        !runs(c, k),
        crate::scheduler::state::live(c.tasks[k]),
    ensures
        frame_of(crate::scheduler::state::scheduled(c, now), k) == frame_of(c, k),
{
    let status = c.tasks[c.current.0].status;
    let r = crate::scheduler::state::reaped(c);
    crate::scheduler::state::lemma_reaped(c);
    let d = crate::scheduler::state::retired(r);
    crate::scheduler::state::lemma_retired(r);
    assert(crate::scheduler::state::status_ok(c, c.current.0));
    assert(crate::scheduler::state::status_ok(c, k));
    assert(!c.finished.contains(c.current));
    assert(!c.finished.contains(TaskId(k)));
    assert(r.tasks[k] == c.tasks[k] && d.tasks[k] == c.tasks[k]);
    assert(r.tasks[c.current.0] == c.tasks[c.current.0]);
    assert(frame_of(d, k) =~= frame_of(c, k));
    if let Some(n) = crate::scheduler::state::next_task(d, status) {
        let e = crate::scheduler::state::handed_over(d, status, n);
        crate::scheduler::task::priority_queue::lemma_highest_below(
            d.ready,
            d.ready.len() as int,
        );
        crate::scheduler::state::lemma_handed_over(d, status, n);
        let top = crate::scheduler::task::priority_queue::highest(d.ready);
        if crate::scheduler::state::preempts(d, status) {
            assert(d.ready[top].contains(d.ready[top][0]));
            assert(crate::scheduler::task::priority_queue::queued(d.ready, n));
            assert(crate::scheduler::task::priority_queue::queued(c.ready, n));
        }
        assert(c.tasks.contains_key(n.0) && crate::scheduler::state::live(c.tasks[n.0]));
        assert(!runs(c, n.0));
        assert(crate::scheduler::state::status_ok(c, n.0));
        assert(!c.finished.contains(TaskId(n.0)));
        assert(at_home(c, n.0) && at_home(c, k));
        assert(at_home(e, n.0) && at_home(e, k));
        assert forall|t: TaskId| #[trigger]
            crate::scheduler::task::blocked::names(e.blocked, t) implies at_home(e, t.0) by {
            assert(crate::scheduler::task::blocked::names(c.blocked, t));
            assert(c.tasks.contains_key(t.0));
            assert(e.tasks.contains_key(t.0));
            assert(at_home(c, t.0));
            assert(!c.finished.contains(t));
        }
        lemma_apart_kept(c, e);
        assert(frame_of(e, k) =~= frame_of(c, k));
        lemma_frames_kept(e, n, now, k);
        let f = crate::scheduler::state::slot_ensured(e, n, now);
        let g = crate::scheduler::state::scheduled(c, now);
        assert(frame_of(g, k) =~= frame_of(f, k));
    }
}

/// A task that is blocked until a time sleeps as long as that time has not
/// elapsed, and is ready when it has.
pub proof fn lemma_sleeps_until(c: CoreState, wakeup_time: u64, time: u64)
    requires
        crate::scheduler::state::inv(c),
        c.tasks[c.current.0].status == TaskStatus::Running,
    ensures
        ({
            let b = crate::scheduler::wake::current_blocked(c, Some(wakeup_time));
            let w = crate::scheduler::wake::elapsed_woken(b, time);
            w.tasks[c.current.0].status == (if wakeup_time < time {
                TaskStatus::Ready
            } else {
                TaskStatus::Blocked
            })
        }),
{
    let b = crate::scheduler::wake::current_blocked(c, Some(wakeup_time));
    crate::scheduler::wake::lemma_current_blocked(c, Some(wakeup_time));
    let w = crate::scheduler::wake::elapsed_woken(b, time);
    crate::scheduler::wake::lemma_elapsed_woken(b, time);
    crate::scheduler::task::blocked::lemma_due_split(b.blocked, time);
    let i = crate::scheduler::task::blocked::insert_index(c.blocked, Some(wakeup_time));
    crate::scheduler::task::blocked::lemma_insert_index_is(c.blocked, Some(wakeup_time));
    let node = b.blocked[i];
    assert(node.task == c.current && node.wakeup_time == Some(wakeup_time));
    assert(crate::scheduler::task::blocked::names(b.blocked, c.current));
    let ids = crate::scheduler::task::blocked::due_tasks(b.blocked, time);
    assert forall|j: int| 0 <= j < ids.len() implies {
        let id = #[trigger] ids[j];
        &&& b.tasks.contains_key(id.0)
        &&& b.tasks[id.0].status == TaskStatus::Blocked
        &&& b.tasks[id.0].frame_location != FrameLocation::BeingEvicted
        &&& b.tasks[id.0].prio.0 < NO_PRIORITIES
        &&& !crate::scheduler::task::priority_queue::queued(b.ready, id)
    } by {
        let id = ids[j];
        assert(ids.contains(id));
        assert(crate::scheduler::task::blocked::names(b.blocked, id));
        assert(crate::scheduler::state::task_ok(b, id.0));
    }
    crate::scheduler::wake::lemma_woken_in_turn(b.tasks, b.ready, ids);
    assert(w.tasks.contains_key(c.current.0));
    assert(TaskId(c.current.0) == c.current);
    let kept = crate::scheduler::task::blocked::not_due(b.blocked, time);
    if crate::scheduler::task::blocked::names(kept, c.current) {
        let j = choose|j: int| 0 <= j < kept.len() && (#[trigger] kept[j]).task == c.current;
        assert(b.blocked.contains(kept[j]));
        let l = choose|l: int| 0 <= l < b.blocked.len() && b.blocked[l] == kept[j];
        assert(l == i) by {
            assert(b.blocked[l].task == b.blocked[i].task);
        }
        assert(!crate::scheduler::task::blocked::due(node, time));
    } else {
        assert(ids.contains(c.current));
        lemma_due_task_is_due(b.blocked, time, c.current);
        let l = choose|l: int|
            0 <= l < b.blocked.len() && (#[trigger] b.blocked[l]).task == c.current
                && crate::scheduler::task::blocked::due(b.blocked[l], time);
        assert(l == i) by {
            assert(b.blocked[l].task == b.blocked[i].task);
        }
    }
}

/// A task that is woken because its time has elapsed has a node whose time has.
proof fn lemma_due_task_is_due(list: Seq<BlockedTask>, time: u64, t: TaskId)
    requires
        crate::scheduler::task::blocked::due_tasks(list, time).contains(t),
    ensures
        exists|l: int|
            0 <= l < list.len() && (#[trigger] list[l]).task == t
                && crate::scheduler::task::blocked::due(list[l], time),
    decreases list.len(),
{
    let ids = crate::scheduler::task::blocked::due_tasks(list, time);
    if list.len() > 0 {
        let init = list.drop_last();
        let before = crate::scheduler::task::blocked::due_tasks(init, time);
        let i = choose|i: int| 0 <= i < ids.len() && ids[i] == t;
        if i < before.len() {
            assert(before[i] == t);
            assert(before.contains(t));
            lemma_due_task_is_due(init, time, t);
            let l = choose|l: int|
                0 <= l < init.len() && (#[trigger] init[l]).task == t
                    && crate::scheduler::task::blocked::due(init[l], time);
            assert(list[l] == init[l]);
        } else {
            assert(list[list.len() - 1].task == t);
        }
    }
}

/// The tasks of this core that are woken in turn are ready afterwards.
proof fn lemma_woken_are_ready(
    c: CoreState,
    r: RegistryState,
    queue: Seq<TaskHandle>,
    t: TaskId,
)
    requires
        crate::scheduler::exit::woken_here(c, queue, t),
    ensures
        crate::scheduler::exit::all_woken(c, r, queue).0.tasks[t.0].status == TaskStatus::Ready,
    decreases queue.len(),
{
    let i = choose|i: int|
        0 <= i < queue.len() && (#[trigger] queue[i]).core_id == c.core_id && queue[i].id == t;
    let init = queue.drop_last();
    let last = queue.last();
    lemma_woken_core(c, r, init);
    let (d, s) = crate::scheduler::exit::all_woken(c, r, init);
    if last.core_id == c.core_id && last.id == t {
    } else {
        assert(init[i] == queue[i]);
        lemma_woken_are_ready(c, r, init, t);
        assert(last.id.0 == t.0 ==> last.id == t);
    }
}

/// Waking tasks in turn does not change which core it is.
proof fn lemma_woken_core(c: CoreState, r: RegistryState, queue: Seq<TaskHandle>)
    ensures
        crate::scheduler::exit::all_woken(c, r, queue).0.core_id == c.core_id,
    decreases queue.len(),
{
    if queue.len() > 0 {
        lemma_woken_core(c, r, queue.drop_last());
    }
}

/// When a task ends, every task of its core that waits for it is ready.
pub proof fn lemma_waiters_are_ready(c: CoreState, r: RegistryState, t: TaskId)
    requires
        crate::scheduler::exit::woken_here(
            c,
            crate::scheduler::exit::waiters(r, c.current),
            t,
        ),
    ensures
        crate::scheduler::exit::exited(c, r).0.tasks[t.0].status == TaskStatus::Ready,
{
    let e = crate::scheduler::exit::ended(c);
    let queue = crate::scheduler::exit::waiters(r, c.current);
    let i = choose|i: int|
        0 <= i < queue.len() && (#[trigger] queue[i]).core_id == c.core_id && queue[i].id == t;
    assert(queue[i].core_id == e.core_id && queue[i].id == t);
    assert(crate::scheduler::exit::woken_here(e, queue, t));
    lemma_woken_are_ready(e, crate::scheduler::exit::discounted(r, c.current), queue, t);
}

} // verus!
