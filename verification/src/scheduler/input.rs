//! Taking over what other cores handed to a core, and waiting for tasks.

use vstd::prelude::*;

use crate::scheduler::per_core::{Machine, PerCoreScheduler};
use crate::scheduler::registry::{NewTask, RegistryState, SchedulerInput, TaskRegistry};
use crate::scheduler::state::CoreState;
use crate::scheduler::task::handle::TaskHandle;
use crate::scheduler::task::{TaskId, TaskStatus, NO_PRIORITIES};

verus! {

/// `c` once the tasks of `queue` were woken by hand in turn.
pub open spec fn all_hand_woken(c: CoreState, queue: Seq<TaskHandle>) -> CoreState
    decreases queue.len(),
{
    if queue.len() == 0 {
        c
    } else {
        crate::scheduler::wake::hand_woken(all_hand_woken(c, queue.drop_last()), queue.last().id)
    }
}

/// The memory once the first frame of the task that `new` becomes was built.
pub open spec fn built(words: Map<u64, u64>, new: NewTask) -> Map<u64, u64> {
    Map::new(
        |a: u64| words.contains_key(a),
        |a: u64|
            crate::scheduler::spawn::task_of(new).built_word(
                (crate::arch::aarch64::kernel::scheduler::Entry {
                    func: new.func,
                    arg: new.arg,
                    task_start: new.provided.task_start,
                }),
                new.provided.thread_ptr,
                a,
                words[a],
            ),
    )
}

/// `c` once the new tasks `news` became ready in turn.
pub open spec fn all_joined(c: CoreState, news: Seq<NewTask>) -> CoreState
    decreases news.len(),
{
    if news.len() == 0 {
        c
    } else {
        let d = all_joined(c, news.drop_last());
        crate::scheduler::spawn::joined(
            d,
            crate::scheduler::spawn::task_of(news.last()),
            built(d.words, news.last()),
        )
    }
}

/// Whether the tasks of `queue` are blocked on this core, each named once.
pub open spec fn wakes_ok(c: CoreState, queue: Seq<TaskHandle>) -> bool {
    &&& forall|i: int|
        0 <= i < queue.len() ==> crate::scheduler::task::blocked::names(
            c.blocked,
            (#[trigger] queue[i]).id,
        )
    &&& forall|i: int, j: int|
        0 <= i < j < queue.len() ==> (#[trigger] queue[i]).id != (#[trigger] queue[j]).id
}

/// Whether `new` can join the core: it belongs there, and its stacks are
/// mapped.
pub open spec fn new_ok(c: CoreState, new: NewTask) -> bool {
    &&& new.core_id == c.core_id
    &&& new.prio.0 < NO_PRIORITIES
    &&& new.tid.0 >= 0
    &&& !c.tasks.contains_key(new.tid.0)
    &&& new.stacks is Common
    &&& new.stacks.wf()
    &&& new.stacks.mapped(c.words)
}

/// Whether the new tasks `news` can join the core, each with its own
/// identifier.
pub open spec fn news_ok(c: CoreState, news: Seq<NewTask>) -> bool {
    &&& forall|i: int| 0 <= i < news.len() ==> new_ok(c, #[trigger] news[i])
    &&& forall|i: int, j: int|
        0 <= i < j < news.len() ==> (#[trigger] news[i]).tid != (#[trigger] news[j]).tid
}

/// Waking tasks by hand keeps the invariant and the tasks that there are.
pub proof fn lemma_all_hand_woken(c: CoreState, queue: Seq<TaskHandle>)
    requires
        crate::scheduler::state::inv(c),
        wakes_ok(c, queue),
    ensures
        crate::scheduler::state::inv(all_hand_woken(c, queue)),
        all_hand_woken(c, queue).tasks.dom() == c.tasks.dom(),
        all_hand_woken(c, queue).words == c.words,
        all_hand_woken(c, queue).core_id == c.core_id,
        forall|t: TaskId|
            #[trigger] crate::scheduler::task::blocked::names(
                all_hand_woken(c, queue).blocked,
                t,
            ) <==> (crate::scheduler::task::blocked::names(c.blocked, t) && !(exists|i: int|
                0 <= i < queue.len() && (#[trigger] queue[i]).id == t)),
    decreases queue.len(),
{
    if queue.len() > 0 {
        let init = queue.drop_last();
        let last = queue.last();
        assert(wakes_ok(c, init)) by {
            assert forall|i: int| 0 <= i < init.len() implies
                crate::scheduler::task::blocked::names(c.blocked, (#[trigger] init[i]).id) by {
                assert(init[i] == queue[i]);
            }
            assert forall|i: int, j: int| 0 <= i < j < init.len() implies (#[trigger] init[i]).id
                != (#[trigger] init[j]).id by {
                assert(init[i] == queue[i] && init[j] == queue[j]);
            }
        }
        lemma_all_hand_woken(c, init);
        let d = all_hand_woken(c, init);
        assert(queue[queue.len() - 1] == last);
        assert(crate::scheduler::task::blocked::names(d.blocked, last.id)) by {
            if exists|i: int| 0 <= i < init.len() && (#[trigger] init[i]).id == last.id {
                let i = choose|i: int| 0 <= i < init.len() && (#[trigger] init[i]).id == last.id;
                assert(queue[i].id == queue[queue.len() - 1].id);
            }
        }
        crate::scheduler::wake::lemma_hand_woken(d, last.id);
        let e = crate::scheduler::wake::hand_woken(d, last.id);
        assert(d.tasks.contains_key(last.id.0));
        assert(e.tasks.dom() =~= d.tasks.dom());
        assert forall|t: TaskId|
            #[trigger] crate::scheduler::task::blocked::names(e.blocked, t) <==> (
            crate::scheduler::task::blocked::names(c.blocked, t) && !(exists|i: int|
                0 <= i < queue.len() && (#[trigger] queue[i]).id == t)) by {
            if exists|i: int| 0 <= i < queue.len() && (#[trigger] queue[i]).id == t {
                let i = choose|i: int| 0 <= i < queue.len() && (#[trigger] queue[i]).id == t;
                if i < init.len() {
                    assert(init[i].id == t);
                }
            }
            if exists|i: int| 0 <= i < init.len() && (#[trigger] init[i]).id == t {
                let i = choose|i: int| 0 <= i < init.len() && (#[trigger] init[i]).id == t;
                assert(queue[i].id == t);
            }
            if t == last.id {
                assert(queue[queue.len() - 1].id == t);
            }
            assert(crate::scheduler::task::blocked::names(d.blocked, t)
                || !crate::scheduler::task::blocked::names(d.blocked, t));
        }
    }
}

/// Taking in new tasks keeps the invariant; exactly they are added.
pub proof fn lemma_all_joined(c: CoreState, news: Seq<NewTask>)
    requires
        crate::scheduler::state::inv(c),
        news_ok(c, news),
    ensures
        crate::scheduler::state::inv(all_joined(c, news)),
        all_joined(c, news).words.dom() == c.words.dom(),
        all_joined(c, news).core_id == c.core_id,
        forall|k: i32| #[trigger]
            all_joined(c, news).tasks.contains_key(k) <==> (c.tasks.contains_key(k)
                || exists|i: int| 0 <= i < news.len() && (#[trigger] news[i]).tid.0 == k),
    decreases news.len(),
{
    if news.len() > 0 {
        let init = news.drop_last();
        let last = news.last();
        assert(news_ok(c, init)) by {
            assert forall|i: int| 0 <= i < init.len() implies new_ok(c, #[trigger] init[i]) by {
                assert(init[i] == news[i]);
            }
            assert forall|i: int, j: int| 0 <= i < j < init.len() implies (#[trigger] init[i]).tid
                != (#[trigger] init[j]).tid by {
                assert(init[i] == news[i] && init[j] == news[j]);
            }
        }
        lemma_all_joined(c, init);
        let d = all_joined(c, init);
        assert(news[news.len() - 1] == last);
        lemma_join_next(c, news, (news.len() - 1) as int);
        assert(news.take(news.len() - 1) =~= init);
        let words = built(d.words, last);
        assert(words.dom() =~= d.words.dom());
        let task = crate::scheduler::spawn::task_of(last);
        assert(crate::scheduler::spawn::mapped_within(d.words, words)) by {
            assert forall|w: u64| #[trigger] d.words.contains_key(w) implies words.contains_key(
                w,
            ) by {
                assert(words.dom().contains(w));
            }
        }
        crate::scheduler::spawn::lemma_mapped_within(d.words, words);
        crate::scheduler::spawn::lemma_persistent_mapped(last.stacks, words);
        crate::scheduler::spawn::lemma_joined(d, task, words);
        let e = all_joined(c, news);
        assert forall|k: i32| #[trigger] e.tasks.contains_key(k) <==> (c.tasks.contains_key(k)
            || exists|i: int| 0 <= i < news.len() && (#[trigger] news[i]).tid.0 == k) by {
            if exists|i: int| 0 <= i < news.len() && (#[trigger] news[i]).tid.0 == k {
                let i = choose|i: int| 0 <= i < news.len() && (#[trigger] news[i]).tid.0 == k;
                if i < init.len() {
                    assert(init[i].tid.0 == k);
                }
            }
            if exists|i: int| 0 <= i < init.len() && (#[trigger] init[i]).tid.0 == k {
                let i = choose|i: int| 0 <= i < init.len() && (#[trigger] init[i]).tid.0 == k;
                assert(news[i].tid.0 == k);
            }
            if k == last.tid.0 {
                assert(news[news.len() - 1].tid.0 == k);
            }
            assert(d.tasks.contains_key(k) || !d.tasks.contains_key(k));
        }
    }
}

/// After the first new tasks joined, the next one can.
proof fn lemma_join_next(c: CoreState, news: Seq<NewTask>, n: int)
    requires
        crate::scheduler::state::inv(c),
        news_ok(c, news),
        0 <= n < news.len(),
    ensures
        new_ok(all_joined(c, news.take(n)), news[n]),
    decreases news.len(), 0int,
{
    let first = news.take(n);
    assert(news_ok(c, first)) by {
        assert forall|i: int| 0 <= i < first.len() implies new_ok(c, #[trigger] first[i]) by {
            assert(first[i] == news[i]);
        }
        assert forall|i: int, j: int| 0 <= i < j < first.len() implies (#[trigger] first[i]).tid
            != (#[trigger] first[j]).tid by {
            assert(first[i] == news[i] && first[j] == news[j]);
        }
    }
    lemma_all_joined(c, first);
    let d = all_joined(c, first);
    let new = news[n];
    assert(new_ok(c, new));
    assert(!d.tasks.contains_key(new.tid.0)) by {
        if exists|i: int| 0 <= i < first.len() && (#[trigger] first[i]).tid.0 == new.tid.0 {
            let i = choose|i: int| 0 <= i < first.len() && (#[trigger] first[i]).tid.0 == new.tid.0;
            assert(news[i].tid == news[n].tid);
        }
    }
    assert(crate::scheduler::spawn::mapped_within(c.words, d.words)) by {
        assert forall|w: u64| #[trigger] c.words.contains_key(w) implies d.words.contains_key(w) by {
            assert(d.words.dom().contains(w));
        }
    }
    crate::scheduler::spawn::lemma_mapped_within(c.words, d.words);
}

/// Whether what was handed to the core can be taken over.
pub open spec fn input_ok(c: CoreState, input: SchedulerInput) -> bool {
    &&& wakes_ok(c, input.wakeup_tasks@)
    &&& news_ok(c, input.new_tasks@)
}

/// `c` once it took over what was handed to it: the tasks that another core
/// woke become ready first, then the new tasks.
pub open spec fn input_taken(c: CoreState, input: SchedulerInput) -> CoreState {
    all_joined(all_hand_woken(c, input.wakeup_tasks@), input.new_tasks@)
}

/// How a wait for the end of a task goes on.
#[derive(Copy, Clone, Debug, Eq, PartialEq, Structural)]
pub enum JoinStep {
    /// The task has ended.
    Done,
    /// The running task is blocked until the task ends: the scheduler is to run,
    /// and the wait to be tried again.
    Wait,
}

impl PerCoreScheduler {
    /// Takes over what other cores handed to this core.
    pub fn check_input(&mut self, machine: &mut Machine, input: &mut SchedulerInput)
        requires
            old(self).wf(old(machine)),
            input_ok(old(self).state(old(machine)), *old(input)),
        ensures
            final(self).wf(final(machine)),
            final(machine).slots == old(machine).slots,
            final(self).state(final(machine)) == input_taken(
                old(self).state(old(machine)),
                *old(input),
            ),
            final(input).wakeup_tasks@ == Seq::<TaskHandle>::empty(),
            final(input).new_tasks@ == Seq::<NewTask>::empty(),
    {
        let ghost c = self.state(machine);
        let ghost wakes = input.wakeup_tasks@;
        let ghost news = input.new_tasks@;
        self.take_wakes(machine, input);
        let ghost d = self.state(machine);
        proof {
            lemma_all_hand_woken(c, wakes);
            assert(news_ok(d, news)) by {
                assert forall|i: int| 0 <= i < news.len() implies new_ok(d, #[trigger] news[i]) by {
                    assert(new_ok(c, news[i]));
                    if d.tasks.contains_key(news[i].tid.0) {
                        assert(d.tasks.dom().contains(news[i].tid.0));
                        assert(c.tasks.dom().contains(news[i].tid.0));
                    }
                }
            }
        }
        self.take_new(machine, input);
    }

    /// Wakes the tasks that other cores handed over to be woken.
    fn take_wakes(&mut self, machine: &Machine, input: &mut SchedulerInput)
        requires
            old(self).wf(machine),
            wakes_ok(old(self).state(machine), old(input).wakeup_tasks@),
        ensures
            final(self).wf(machine),
            final(self).state(machine) == all_hand_woken(
                old(self).state(machine),
                old(input).wakeup_tasks@,
            ),
            final(input).wakeup_tasks@ == Seq::<TaskHandle>::empty(),
            final(input).new_tasks == old(input).new_tasks,
    {
        let ghost c = self.state(machine);
        let ghost whole = input.wakeup_tasks@;
        let ghost mut done: int = 0;
        assert(whole.take(0) =~= Seq::<TaskHandle>::empty());
        assert(whole.skip(0) =~= whole);
        while input.wakeup_tasks.len() > 0
            invariant
                0 <= done <= whole.len(),
                crate::scheduler::state::inv(c),
                wakes_ok(c, whole),
                self.wf(machine),
                input.wakeup_tasks@ == whole.skip(done),
                input.new_tasks == old(input).new_tasks,
                self.state(machine) == all_hand_woken(c, whole.take(done)),
            decreases whole.len() - done,
        {
            let task: TaskHandle = input.wakeup_tasks.pop_front().unwrap();
            proof {
                let first = whole.take(done);
                let next = whole.take(done + 1);
                assert(task == whole[done]);
                assert(next.drop_last() =~= first);
                assert(next.last() == task);
                assert(wakes_ok(c, first)) by {
                    assert forall|i: int| 0 <= i < first.len() implies
                        crate::scheduler::task::blocked::names(
                        c.blocked,
                        (#[trigger] first[i]).id,
                    ) by {
                        assert(first[i] == whole[i]);
                    }
                    assert forall|i: int, j: int| 0 <= i < j < first.len() implies (
                    #[trigger] first[i]).id != (#[trigger] first[j]).id by {
                        assert(first[i] == whole[i] && first[j] == whole[j]);
                    }
                }
                lemma_all_hand_woken(c, first);
                if exists|i: int| 0 <= i < first.len() && (#[trigger] first[i]).id == task.id {
                    let i = choose|i: int|
                        0 <= i < first.len() && (#[trigger] first[i]).id == task.id;
                    assert(whole[i].id == whole[done].id);
                }
                assert(crate::scheduler::task::blocked::names(self.blocked_tasks@, task.id));
            }
            self.wake_local(machine, task);
            proof {
                done = done + 1;
                assert(input.wakeup_tasks@ =~= whole.skip(done));
            }
        }
        assert(whole.take(done) =~= whole);
        assert(input.wakeup_tasks@ =~= Seq::<TaskHandle>::empty());
    }

    /// Makes the new tasks ready that other cores handed over.
    fn take_new(&mut self, machine: &mut Machine, input: &mut SchedulerInput)
        requires
            old(self).wf(old(machine)),
            news_ok(old(self).state(old(machine)), old(input).new_tasks@),
        ensures
            final(self).wf(final(machine)),
            final(machine).slots == old(machine).slots,
            final(self).state(final(machine)) == all_joined(
                old(self).state(old(machine)),
                old(input).new_tasks@,
            ),
            final(input).new_tasks@ == Seq::<NewTask>::empty(),
            final(input).wakeup_tasks == old(input).wakeup_tasks,
    {
        let ghost c = self.state(machine);
        let ghost whole = input.new_tasks@;
        let ghost mut done: int = 0;
        assert(whole.take(0) =~= Seq::<NewTask>::empty());
        assert(whole.skip(0) =~= whole);
        while input.new_tasks.len() > 0
            invariant
                0 <= done <= whole.len(),
                crate::scheduler::state::inv(c),
                news_ok(c, whole),
                self.wf(machine),
                machine.slots == old(machine).slots,
                input.new_tasks@ == whole.skip(done),
                input.wakeup_tasks == old(input).wakeup_tasks,
                self.state(machine) == all_joined(c, whole.take(done)),
            decreases whole.len() - done,
        {
            let new_task: NewTask = input.new_tasks.pop_front().unwrap();
            let ghost d = self.state(machine);
            proof {
                let next = whole.take(done + 1);
                assert(new_task == whole[done]);
                assert(next.drop_last() =~= whole.take(done));
                assert(next.last() == new_task);
                lemma_join_next(c, whole, done);
            }
            let ghost new = new_task;
            self.join_new(machine, new_task);
            proof {
                assert(machine.memory@ =~= built(d.words, new));
                done = done + 1;
                assert(input.new_tasks@ =~= whole.skip(done));
                assert(self.state(machine) =~= all_joined(c, whole.take(done)));
            }
        }
        assert(whole.take(done) =~= whole);
        assert(input.new_tasks@ =~= Seq::<NewTask>::empty());
    }
}

/// Lets the running task wait for the end of the task `id`: if that task is
/// known, the running task joins its waiters and is blocked without limit.
pub fn join(
    scheduler: &mut PerCoreScheduler,
    machine: &Machine,
    registry: &mut TaskRegistry,
    id: TaskId,
) -> (r: JoinStep)
    requires
        old(scheduler).wf(machine),
        old(registry)@.waiting.contains_key(id.0) ==> old(scheduler).tasks@[old(
            scheduler,
        ).current_task.0].status == TaskStatus::Running,
    ensures
        final(scheduler).wf(machine),
        r == (if old(registry)@.waiting.contains_key(id.0) {
            JoinStep::Wait
        } else {
            JoinStep::Done
        }),
        r is Done ==> final(scheduler).state(machine) == old(scheduler).state(machine)
            && final(registry)@ == old(registry)@,
        r is Wait ==> {
            &&& final(scheduler).state(machine) == crate::scheduler::wake::current_blocked(
                old(scheduler).state(machine),
                None,
            )
            &&& final(registry)@ == (RegistryState {
                waiting: old(registry)@.waiting.insert(
                    id.0,
                    old(registry)@.waiting[id.0].push(
                        old(scheduler).current_handle(),
                    ),
                ),
                ..old(registry)@
            })
        },
{
    proof {
        assert(crate::scheduler::state::task_ok(
            scheduler.state(machine),
            scheduler.current_task.0,
        ));
    }
    let handle: TaskHandle = scheduler.get_current_task_handle(machine);
    if !registry.add_waiting(id, handle) {
        return JoinStep::Done;
    }
    scheduler.block_current_task(machine, None);
    JoinStep::Wait
}

} // verus!
