//! Running futures: who is woken, how long the executor runs, and how a task
//! waits for a future.

use vstd::prelude::*;

use std::task::Waker;

use crate::arch::aarch64::kernel::core_local::CoreLocal;
use crate::arch::aarch64::kernel::interrupts::handlers::Features;
use crate::duration::Duration;

verus! {

/// `std::task::Waker`: wakes a task. Nothing is known of what is in it.
#[verifier::external_type_specification]
#[verifier::external_body]
pub struct ExWaker(std::task::Waker);

/// `std::task::Waker::will_wake`: whether both are known to wake the same
/// task. It may say no even if they do, so nothing is claimed of the answer.
#[verifier::external_body]
fn will_wake(a: &Waker, b: &Waker) -> bool {
    a.will_wake(b)
}

/// The clone of a `std::task::Waker`. What is claimed of it is only that it is
/// a clone.
pub assume_specification[ <std::task::Waker as Clone>::clone ](w: &std::task::Waker) -> (r:
    std::task::Waker)
;

/// `std::task::Waker::wake`: wakes the task. Nothing is claimed of what that
/// does.
#[verifier::external_body]
fn wake_task(w: Waker) {
    w.wake()
}

/// Whether `a` said, when it was asked, that it and `b` wake the same task.
pub closed spec fn found_same_task(a: Waker, b: Waker) -> bool {
    call_ensures(will_wake, (&a, &b), true)
}

/// Whether `w` was told to wake its task.
pub closed spec fn told_to_wake(w: Waker) -> bool {
    call_ensures(wake_task, (w,), ())
}

/// Holds the waker of the task that waits.
pub struct WakerRegistration {
    pub waker: Option<Waker>,
}

/// Whether `held` is there for the task of `w`: it is a clone of `w`, or it said
/// that it wakes the same task.
pub open spec fn stands_for(held: Waker, w: Waker) -> bool {
    cloned(w, held) || found_same_task(held, w)
}

/// What is held once `w` is registered where `before` was held, if that one said
/// by `same_task` whether it wakes the same task: it is kept if it did, and a clone
/// of `w` takes its place otherwise.
pub open spec fn registered(
    before: Option<Waker>,
    w: Waker,
    same_task: bool,
    after: Option<Waker>,
) -> bool {
    if before is Some && same_task {
        after == before
    } else {
        after matches Some(held) && cloned(w, held)
    }
}

/// A call on a registration.
pub enum WakerCall {
    /// A waker is registered.
    Register(Waker),
    /// The task that waits is woken.
    Wake,
}

/// What a call does if `before` is held: what is held then is `after`. A wake tells
/// the waker that is held to wake its task.
pub open spec fn called(before: Option<Waker>, call: WakerCall, after: Option<Waker>) -> bool {
    match call {
        WakerCall::Register(w) => {
            ||| registered(before, w, false, after)
            ||| registered(before, w, true, after) && before is Some && found_same_task(
                before->0,
                w,
            )
        },
        WakerCall::Wake => {
            &&& after is None
            &&& before matches Some(w) ==> told_to_wake(w)
        },
    }
}

/// The waker that was registered last in the first `n` of the calls, unless the
/// task was woken since.
pub open spec fn last_registered(calls: Seq<WakerCall>, n: int) -> Option<Waker> {
    if n <= 0 {
        None
    } else {
        match calls[n - 1] {
            WakerCall::Register(w) => Some(w),
            WakerCall::Wake => None,
        }
    }
}

/// Whether `held` is what is held before each of the calls and after the last, if
/// nothing was held at first.
pub open spec fn history(calls: Seq<WakerCall>, held: Seq<Option<Waker>>) -> bool {
    &&& held.len() == calls.len() + 1
    &&& held[0] is None
    &&& forall|i: int|
        0 <= i < calls.len() ==> called(#[trigger] held[i], calls[i], held[i + 1])
}

/// Whatever calls were made, a waker is held if and only if one was registered
/// since the last wake, and it stands for the one that was registered last. If the
/// next call is a wake, that is the one it tells to wake its task; if none was
/// registered since the last wake, there is none to tell.
pub proof fn lemma_wakes_last_registered(
    calls: Seq<WakerCall>,
    held: Seq<Option<Waker>>,
    n: int,
)
    requires
        history(calls, held),
        0 <= n <= calls.len(),
    ensures
        match last_registered(calls, n) {
            Some(w) => held[n] matches Some(h) && stands_for(h, w),
            None => held[n] is None,
        },
        n < calls.len() && calls[n] is Wake && last_registered(calls, n) is Some
            ==> told_to_wake(held[n]->0),
{
    if n > 0 {
        assert(called(held[n - 1], calls[n - 1], held[n]));
    }
    if n < calls.len() {
        assert(called(held[n], calls[n], held[n + 1]));
    }
}

/// A task is woken once: if nothing is registered in between, a second wake finds
/// no waker to tell.
pub proof fn lemma_woken_once(before: Option<Waker>, between: Option<Waker>, after: Option<Waker>)
    requires
        called(before, WakerCall::Wake, between),
        called(between, WakerCall::Wake, after),
    ensures
        between is None,
        after is None,
{
}

/// A waker stays the one that is held as long as it says of each waker that is
/// registered that it wakes the same task.
pub proof fn lemma_same_task_keeps(wakers: Seq<Waker>, held: Seq<Option<Waker>>, n: int)
    requires
        held.len() == wakers.len() + 1,
        held[0] is Some,
        forall|i: int|
            0 <= i < wakers.len() ==> registered(#[trigger] held[i], wakers[i], true, held[i + 1]),
        0 <= n <= wakers.len(),
    ensures
        held[n] == held[0],
    decreases n,
{
    if n > 0 {
        lemma_same_task_keeps(wakers, held, n - 1);
        assert(registered(held[n - 1], wakers[n - 1], true, held[n]));
    }
}

/// Registering a waker again makes no difference to who is woken: one waker is
/// held that stands for it, and it is the one that was, or a clone of the waker.
pub proof fn lemma_register_again(
    before: Option<Waker>,
    w: Waker,
    once: Option<Waker>,
    twice: Option<Waker>,
)
    requires
        called(before, WakerCall::Register(w), once),
        called(once, WakerCall::Register(w), twice),
    ensures
        once matches Some(h) && stands_for(h, w),
        twice matches Some(h) && stands_for(h, w),
        twice == once || cloned(w, twice->0),
{
}

impl WakerRegistration {
    /// No task waits.
    pub fn new() -> (r: Self)
        ensures
            r.waker is None,
    {
        WakerRegistration { waker: None }
    }

    /// Registers a waker in place of the one that was: what is held then is a
    /// clone of it. One that says that it wakes the same task is kept.
    pub fn register(&mut self, w: &Waker)
        ensures
            called(old(self).waker, WakerCall::Register(*w), final(self).waker),
    {
        let same_task: bool = match &self.waker {
            Some(w2) => will_wake(w2, w),
            None => false,
        };
        self.register_unless(w, same_task);
    }

    /// Registers a waker in place of the one that was, unless that one said by
    /// `same_task` that it wakes the same task.
    pub fn register_unless(&mut self, w: &Waker, same_task: bool)
        ensures
            registered(old(self).waker, *w, same_task, final(self).waker),
    {
        if self.waker.is_none() || !same_task {
            self.waker = Some(w.clone());
        }
    }

    /// Wakes the task that waits, if there is one. It no longer waits.
    pub fn wake(&mut self)
        ensures
            called(old(self).waker, WakerCall::Wake, final(self).waker),
    {
        match self.waker.take() {
            Some(w) => {
                wake_task(w);
            },
            None => {},
        }
    }
}

/// Lets one task sleep until it is woken.
pub struct TaskNotify {
    /// Not zero if a wake came while no task slept.
    futex: u32,
    /// Whether a task sleeps.
    sleeps: bool,
}

/// A task that is to sleep.
#[derive(Copy, Clone, Debug, Eq, PartialEq, Structural)]
pub struct Sleep {
    /// How many microseconds it sleeps at most.
    pub timeout: Option<u64>,
}

/// What a `TaskNotify` is in.
pub struct NotifyView {
    /// Whether a wake came while no task slept.
    pub woken: bool,
    /// Whether a task sleeps.
    pub sleeping: bool,
}

/// What is left when a task waits: a wake that came before is used up,
/// otherwise the task sleeps.
pub open spec fn waited(v: NotifyView) -> NotifyView {
    if v.woken {
        NotifyView { woken: false, ..v }
    } else {
        NotifyView { sleeping: true, ..v }
    }
}

/// What is left when a wake comes: it wakes the task that sleeps, otherwise it
/// is kept.
pub open spec fn notified(v: NotifyView) -> NotifyView {
    if v.sleeping {
        NotifyView { sleeping: false, ..v }
    } else {
        NotifyView { woken: true, ..v }
    }
}

impl View for TaskNotify {
    type V = NotifyView;

    closed spec fn view(&self) -> NotifyView {
        NotifyView { woken: self.futex != 0, sleeping: self.sleeps }
    }
}

impl TaskNotify {
    /// No task sleeps, and no wake came.
    pub fn new() -> (r: Self)
        ensures
            r@ == (NotifyView { woken: false, sleeping: false }),
    {
        TaskNotify { futex: 0, sleeps: false }
    }

    /// Lets the calling task sleep until it is woken or the time is up, unless
    /// a wake came before. Such a wake is used up.
    pub fn wait(&mut self, timeout: Option<u64>) -> (r: Option<Sleep>)
        ensures
            r == (if old(self)@.woken {
                None
            } else {
                Some((Sleep { timeout }))
            }),
            final(self)@ == waited(old(self)@),
    {
        if self.futex != 0 {
            self.futex = 0;
            None
        } else {
            self.sleeps = true;
            Some(Sleep { timeout })
        }
    }

    /// Wakes the task that sleeps. If none does, the next one that would is
    /// kept from it. Returns whether a task was woken.
    pub fn wake_by_ref(&mut self) -> (r: bool)
        ensures
            r == old(self)@.sleeping,
            final(self)@ == notified(old(self)@),
    {
        if self.sleeps {
            self.sleeps = false;
            true
        } else {
            self.futex = u32::MAX;
            false
        }
    }

    /// Notes that the time of the sleeping task is up.
    pub fn time_up(&mut self)
        ensures
            final(self)@ == (NotifyView { sleeping: false, ..old(self)@ }),
    {
        self.sleeps = false;
    }
}

/// No wake is lost: one that comes before a task waits keeps it from sleeping,
/// and one that comes while it sleeps wakes it.
pub proof fn lemma_no_wake_lost(v: NotifyView)
    ensures
        !v.sleeping ==> !waited(notified(v)).sleeping,
        !notified(waited(v)).sleeping || v.woken,
{
}

/// How often the executor may still run a future.
pub struct Drain {
    left: u32,
}

/// How many futures the executor runs at most before it returns.
pub const MAX_TICKS: u32 = 3;

impl Drain {
    /// How often the executor may still run a future.
    pub closed spec fn left(&self) -> int {
        self.left as int
    }

    /// Begins to run the executor. It never runs while an interrupt is handled,
    /// which is known where interrupts nest.
    pub fn run(core: &CoreLocal, features: Features) -> (r: Option<Drain>)
        ensures
            r is None == (features.pmr_band && core.in_irq),
            r matches Some(d) ==> d.left() == MAX_TICKS,
    {
        if features.pmr_band && core.in_irq {
            return None;
        }
        Some(Drain { left: MAX_TICKS })
    }

    /// Whether the executor is to run another future. `ticked` says whether it
    /// ran one just now; at the beginning it did.
    pub fn goes_on(&mut self, ticked: bool) -> (r: bool)
        ensures
            r == (ticked && old(self).left() > 0),
            final(self).left() == (if r {
                old(self).left() - 1
            } else {
                old(self).left()
            }),
    {
        if ticked && self.left > 0 {
            self.left = self.left - 1;
            true
        } else {
            false
        }
    }
}

/// A part of the kernel that runs on the executor.
#[derive(Copy, Clone, Debug, Eq, PartialEq, Structural)]
pub enum Service {
    Network,
    Vsock,
    AllocStats,
}

/// The parts that are started.
pub open spec fn services(net: bool, vsock: bool, alloc_stats: bool) -> Seq<Service> {
    let none = Seq::<Service>::empty();
    (if net {
        none.push(Service::Network)
    } else {
        none
    }) + (if vsock {
        none.push(Service::Vsock)
    } else {
        none
    }) + (if alloc_stats {
        none.push(Service::AllocStats)
    } else {
        none
    })
}

/// The parts that the executor is to start, in this order.
pub fn init(net: bool, vsock: bool, alloc_stats: bool) -> (r: Vec<Service>)
    ensures
        r@ == services(net, vsock, alloc_stats),
{
    let mut list: Vec<Service> = Vec::new();
    if net {
        list.push(Service::Network);
    }
    if vsock {
        list.push(Service::Vsock);
    }
    if alloc_stats {
        list.push(Service::AllocStats);
    }
    assert(list@ =~= services(net, vsock, alloc_stats));
    list
}

/// What a task that waits for a future does next.
#[derive(Copy, Clone, Debug, Eq, PartialEq, Structural)]
pub enum BlockStep {
    /// The future is done: return what it gave.
    Return,
    /// The time is up: return an error.
    TimedOut,
    /// Let other tasks run until the future is woken, for that many
    /// microseconds at most.
    Park { wakeup_time: Option<u64> },
    /// Wait a little and poll again.
    Snooze,
}

/// A task that waits for a future.
pub struct BlockOn {
    /// When it began to wait, in microseconds.
    pub start: u64,
    /// How long it waits at most.
    pub timeout: Option<Duration>,
}

impl BlockOn {
    /// Whether the time is up at `now`.
    pub open spec fn elapsed(&self, now: u64) -> bool {
        self.timeout matches Some(duration) && (now - self.start) * 1_000 >= duration@
    }

    /// What the task does after the future was polled. `ready` says whether the
    /// future is done, `backoff_done` whether there was enough waiting in
    /// between.
    pub fn step(&self, ready: bool, now: u64, backoff_done: bool) -> (r: BlockStep)
        requires
            self.timeout matches Some(duration) ==> duration.wf(),
            !ready && self.timeout is Some ==> self.start <= now,
            !ready && !self.elapsed(now) && backoff_done ==> (self.timeout matches Some(duration)
                ==> duration@ / 1_000 <= u64::MAX),
        ensures
            r == (if ready {
                BlockStep::Return
            } else if self.elapsed(now) {
                BlockStep::TimedOut
            } else if backoff_done {
                BlockStep::Park {
                    wakeup_time: match self.timeout {
                        Some(duration) => Some((duration@ / 1_000) as u64),
                        None => None,
                    },
                }
            } else {
                BlockStep::Snooze
            }),
    {
        if ready {
            return BlockStep::Return;
        }
        match &self.timeout {
            Some(duration) => {
                let waited: Duration = Duration::from_micros(now - self.start);
                if !waited.shorter_than(duration) {
                    return BlockStep::TimedOut;
                }
            },
            None => {},
        }
        if backoff_done {
            let wakeup_time: Option<u64> = match &self.timeout {
                Some(duration) => Some(duration.as_micros() as u64),
                None => None,
            };
            BlockStep::Park { wakeup_time }
        } else {
            BlockStep::Snooze
        }
    }
}

/// A wake keeps exactly one task from sleeping, and no more than one wake is kept: waiting
/// uses it up, so that waiting twice sleeps. A task that waits without one sleeps, and a wake
/// that finds it sleeping is not kept besides.
pub proof fn lemma_wait_effect(v: NotifyView)
    ensures
        v.woken ==> !waited(v).woken && waited(v).sleeping == v.sleeping,
        !v.woken ==> waited(v).sleeping && !waited(v).woken,
        v.sleeping ==> !notified(v).sleeping && notified(v).woken == v.woken,
        !v.sleeping ==> notified(v).woken && !notified(v).sleeping,
        !v.sleeping ==> waited(waited(notified(v))).sleeping,
        notified(notified(NotifyView { woken: false, sleeping: false })).woken,
{
}

/// Registering keeps the waker that is held if it said that it wakes the same task, and holds
/// a clone of the new one otherwise.
pub proof fn lemma_registered_effect(
    before: Option<Waker>,
    w: Waker,
    same_task: bool,
    after: Option<Waker>,
)
    requires
        registered(before, w, same_task, after),
    ensures
        after is Some,
        before is Some && same_task ==> after == before,
        before is None || !same_task ==> cloned(w, after->0),
{
}

/// The parts that are started are those that are asked for, each once: first the network, then
/// the sockets of virtual machines, then the statistics.
pub proof fn lemma_services_effect(net: bool, vsock: bool, stats: bool)
    ensures
        ({
            let s = services(net, vsock, stats);
            let n: int = if net {
                1
            } else {
                0
            };
            let v: int = if vsock {
                1
            } else {
                0
            };
            &&& s.len() == n + v + (if stats {
                1int
            } else {
                0
            })
            &&& net ==> s[0] is Network
            &&& vsock ==> s[n] is Vsock
            &&& stats ==> s[n + v] is AllocStats
        }),
{
}

/// The time of a task that waits for a future is up once it waited as long as it was to, to
/// the nanosecond, and stays up; it is never up without a limit.
pub proof fn lemma_elapsed_effect(b: BlockOn, now: u64, later: u64)
    requires
        b.start <= now <= later,
    ensures
        b.timeout is None ==> !b.elapsed(now),
        b.timeout matches Some(d) ==> {
            &&& b.elapsed(now) <==> b.start * 1_000 + d@ <= now * 1_000
            &&& b.elapsed(now) ==> b.elapsed(later)
        },
{
}

/// A task that waits for a future returns exactly if the future is done. Otherwise its time is
/// up exactly if it waited as long as it was to, and it lets other tasks run, for at most as many
/// whole microseconds as it may wait, once there was enough waiting in between.
pub proof fn lemma_step_effect(b: BlockOn, ready: bool, now: u64, waited: bool, r: BlockStep)
    requires
        call_requires(BlockOn::step, (&b, ready, now, waited)),
        call_ensures(BlockOn::step, (&b, ready, now, waited), r),
        b.timeout matches Some(d) ==> d@ / 1_000 <= u64::MAX,
    ensures
        r is Return <==> ready,
        r is TimedOut <==> !ready && (b.timeout matches Some(d) && b.start * 1_000 + d@ <= now
            * 1_000),
        r is Snooze ==> !waited,
        r matches BlockStep::Park { wakeup_time } ==> waited && match wakeup_time {
            None => b.timeout is None,
            Some(t) => b.timeout matches Some(d) && t * 1_000 <= d@ < t * 1_000 + 1_000,
        },
{
}

/// The executor does not run while an interrupt is handled where interrupts nest, and runs three
/// futures at most: one less is left for each, and none once a future did not run.
pub proof fn lemma_drain_effect(
    core: CoreLocal,
    features: Features,
    r: Option<Drain>,
    d: &mut Drain,
    ticked: bool,
    on: bool,
)
    requires
        call_ensures(Drain::run, (&core, features), r),
        call_ensures(Drain::goes_on, (d, ticked), on),
    ensures
        r is None <==> features.pmr_band && core.in_irq,
        r matches Some(s) ==> s.left() == 3,
        on <==> ticked && old(d).left() > 0,
        on ==> final(d).left() == old(d).left() - 1,
        !on ==> final(d).left() == old(d).left(),
{
}

/// A task sleeps exactly if no wake came before, for as long as it asked for. A wake finds out
/// whether a task sleeps.
pub proof fn lemma_notify_effect(
    n: &mut TaskNotify,
    timeout: Option<u64>,
    r: Option<Sleep>,
    m: &mut TaskNotify,
    woke: bool,
)
    requires
        call_ensures(TaskNotify::wait, (n, timeout), r),
        call_ensures(TaskNotify::wake_by_ref, (m,), woke),
    ensures
        r is None <==> old(n)@.woken,
        r matches Some(s) ==> s.timeout == timeout && final(n)@.sleeping,
        !final(n)@.woken,
        woke == old(m)@.sleeping,
        !final(m)@.sleeping,
        !woke ==> final(m)@.woken,
{
}

} // verus!
