//! Handling interrupts.

use vstd::prelude::*;

use crate::arch::aarch64::kernel::core_local::CoreLocal;
use crate::arch::aarch64::kernel::interrupts::frame_dump::{FrameDump, FrameDumps};
use crate::arch::aarch64::kernel::interrupts::handlers::{Features, Handler, InterruptHandlers};
use crate::arch::aarch64::kernel::interrupts::ids::{SGI_PMRTEST_HI, SGI_PMRTEST_LO};
use crate::memory::Memory;
use crate::scheduler::per_core::{Machine, PerCoreScheduler, Rescheduled};
use crate::scheduler::task::TaskId;

verus! {

/// What comes first when an interrupt is handled.
pub enum IrqStart {
    /// There was none to acknowledge.
    Spurious,
    /// A test interrupt, which is handled apart.
    Test { vector: u8 },
    /// The handlers are to run, one after the other.
    Handle { vector: u8, handlers: Vec<Handler> },
}

/// What came of beginning to handle an interrupt.
pub struct IrqEntry {
    /// What the dump of the frame found, if it was dumped.
    pub dump: Option<FrameDump>,
    /// The general registers with which the watched task goes on, if one of
    /// them is corrupted.
    pub resume: Option<Vec<u64>>,
    /// What comes first.
    pub start: IrqStart,
}

/// How an interrupt is ended.
#[derive(Copy, Clone, Debug, Eq, PartialEq, Structural)]
pub enum EndOfInterrupt {
    /// In one step.
    Combined { intid: u32 },
    /// Its priority is dropped, then it is deactivated.
    Split { intid: u32 },
}

/// What comes last when an interrupt was handled.
pub struct IrqEnd {
    /// How the interrupt is ended.
    pub end: EndOfInterrupt,
    /// What came of running the scheduler, if it ran.
    pub rescheduled: Option<Rescheduled>,
}

/// How many interrupts are being handled once another one is taken. They are
/// counted only where interrupts nest.
pub open spec fn depth_entered(depth: u32, features: Features) -> int {
    if features.pmr_band {
        depth + 1
    } else {
        depth as int
    }
}

/// How many interrupts are being handled once the innermost is done.
pub open spec fn depth_left(depth: u32, features: Features) -> int {
    if features.pmr_band {
        depth - 1
    } else {
        depth as int
    }
}

/// How many interrupts are to be ended once another one is acknowledged. They
/// are counted only where an interrupt ends in two steps.
pub open spec fn inflight_entered(inflight: u32, features: Features) -> int {
    if features.pmr_coop_net {
        inflight + 1
    } else {
        inflight as int
    }
}

/// How many interrupts are to be ended once another one is.
pub open spec fn inflight_left(inflight: u32, features: Features) -> int {
    if features.pmr_coop_net {
        inflight - 1
    } else {
        inflight as int
    }
}

/// What the core has of its own once an interrupt is taken.
pub open spec fn core_entered(core: CoreLocal, features: Features) -> CoreLocal {
    CoreLocal {
        rt_nest_depth: depth_entered(core.rt_nest_depth, features) as u32,
        in_irq: features.pmr_band || core.in_irq,
        eoi_inflight: inflight_entered(core.eoi_inflight, features) as u32,
        ..core
    }
}

/// What the core has of its own once an interrupt was handled.
pub open spec fn core_left(core: CoreLocal, features: Features) -> CoreLocal {
    CoreLocal {
        rt_nest_depth: depth_left(core.rt_nest_depth, features) as u32,
        in_irq: !features.pmr_band && core.in_irq,
        eoi_inflight: inflight_left(core.eoi_inflight, features) as u32,
        ..core
    }
}

/// Whether another interrupt can be taken: the counters have room.
pub open spec fn can_enter(core: CoreLocal, features: Features) -> bool {
    &&& depth_entered(core.rt_nest_depth, features) <= u32::MAX
    &&& inflight_entered(core.eoi_inflight, features) <= u32::MAX
}

/// Whether an interrupt is being handled.
pub open spec fn can_leave(core: CoreLocal, features: Features) -> bool {
    &&& depth_left(core.rt_nest_depth, features) >= 0
    &&& inflight_left(core.eoi_inflight, features) >= 0
}

/// How the interrupt `intid` is ended.
pub open spec fn end_of(intid: u32, features: Features) -> EndOfInterrupt {
    if features.pmr_coop_net {
        EndOfInterrupt::Split { intid }
    } else {
        EndOfInterrupt::Combined { intid }
    }
}

/// Whether `vector` is one of the test interrupts.
pub open spec fn is_test(vector: u32, features: Features) -> bool {
    features.pmr_preempt_spike && (vector == SGI_PMRTEST_LO || vector == SGI_PMRTEST_HI)
}

/// The handlers of the interrupt `vector`: none before they are installed.
pub open spec fn handlers_of(handlers: Option<&InterruptHandlers>, vector: u8) -> Seq<Handler> {
    match handlers {
        Some(h) => if h@.contains_key(vector) {
            h@[vector]
        } else {
            Seq::empty()
        },
        None => Seq::empty(),
    }
}

/// Notes that an interrupt is being handled.
pub fn irq_enter(core: &mut CoreLocal, features: Features)
    requires
        depth_entered(old(core).rt_nest_depth, features) <= u32::MAX,
    ensures
        *final(core) == (CoreLocal {
            rt_nest_depth: depth_entered(old(core).rt_nest_depth, features) as u32,
            in_irq: features.pmr_band || old(core).in_irq,
            ..*old(core)
        }),
{
    if features.pmr_band {
        core.rt_nest_depth = core.rt_nest_depth + 1;
        core.in_irq = true;
    }
}

/// Notes that the innermost interrupt is done.
pub fn irq_exit(core: &mut CoreLocal, features: Features)
    requires
        depth_left(old(core).rt_nest_depth, features) >= 0,
    ensures
        *final(core) == (CoreLocal {
            rt_nest_depth: depth_left(old(core).rt_nest_depth, features) as u32,
            in_irq: !features.pmr_band && old(core).in_irq,
            ..*old(core)
        }),
{
    if features.pmr_band {
        core.in_irq = false;
        core.rt_nest_depth = core.rt_nest_depth - 1;
    }
}

/// Ends an interrupt: in one step, or in two where it is counted until then.
pub fn eoi_complete(core: &mut CoreLocal, features: Features, intid: u32) -> (r: EndOfInterrupt)
    requires
        inflight_left(old(core).eoi_inflight, features) >= 0,
    ensures
        r == end_of(intid, features),
        *final(core) == (CoreLocal {
            eoi_inflight: inflight_left(old(core).eoi_inflight, features) as u32,
            ..*old(core)
        }),
{
    if features.pmr_coop_net {
        core.eoi_inflight = core.eoi_inflight - 1;
        EndOfInterrupt::Split { intid }
    } else {
        EndOfInterrupt::Combined { intid }
    }
}

fn collect(handlers: Option<&InterruptHandlers>, vector: u8) -> (r: Vec<Handler>)
    requires
        handlers matches Some(h) ==> h.wf(),
    ensures
        r@ == handlers_of(handlers, vector),
{
    match handlers {
        Some(h) => h.get(vector),
        None => Vec::new(),
    }
}

/// Begins to handle an interrupt, whose frame lies at `frame`: `acked` is the
/// one that was acknowledged. It is counted, and its handlers are given in the
/// order in which they run. A test interrupt is neither counted nor has it
/// handlers. Before all that the frame is looked at; `current` is the running
/// task, if the scheduler is there already.
pub fn do_irq(
    core: &mut CoreLocal,
    dumps: &mut FrameDumps,
    current: Option<TaskId>,
    memory: &Memory,
    frame: u64,
    acked: Option<u32>,
    handlers: Option<&InterruptHandlers>,
    features: Features,
) -> (r: IrqEntry)
    requires
        old(core).wf(),
        crate::memory::frame_mapped(memory@, frame as int),
        crate::arch::aarch64::kernel::interrupts::frame_dump::dumped(
            old(dumps).count,
            current,
            memory@,
            frame,
        ) ==> crate::arch::aarch64::kernel::interrupts::frame_dump::regions_mapped(memory@, frame),
        can_enter(*old(core), features),
        acked matches Some(irqid) ==> irqid <= 255,
        handlers matches Some(h) ==> h.wf(),
    ensures
        final(core).wf(),
        crate::arch::aarch64::kernel::interrupts::frame_dump::is_dump(
            old(dumps).count,
            current,
            memory@,
            frame,
            r.dump,
            final(dumps).count,
        ),
        crate::arch::aarch64::kernel::interrupts::frame_dump::is_resume_check(
            current,
            memory@,
            frame,
            r.resume,
        ),
        irq_started(*old(core), acked, handlers, features, r.start, *final(core)),
{
    let dump: Option<FrameDump> = dumps.dump_frame_once(current, memory, frame);
    let resume: Option<Vec<u64>> =
        crate::arch::aarch64::kernel::interrupts::frame_dump::check_resume_x0(
        current,
        memory,
        frame,
    );
    let start: IrqStart = start_irq(core, acked, handlers, features);
    IrqEntry { dump, resume, start }
}

/// Whether `start` is what comes first when the interrupt `acked` is handled,
/// and `after` is what the core has of its own then.
pub open spec fn irq_started(
    before: CoreLocal,
    acked: Option<u32>,
    handlers: Option<&InterruptHandlers>,
    features: Features,
    start: IrqStart,
    after: CoreLocal,
) -> bool {
    match acked {
        None => start == IrqStart::Spurious && after == before,
        Some(irqid) => if is_test(irqid, features) {
            &&& start == (IrqStart::Test { vector: irqid as u8 })
            &&& after == core_entered(before, features)
        } else {
            &&& start matches IrqStart::Handle { vector, handlers: run } && vector == irqid && run@
                == handlers_of(handlers, irqid as u8)
            &&& counted(before, after, irqid as u8, features)
        },
    }
}

fn start_irq(
    core: &mut CoreLocal,
    acked: Option<u32>,
    handlers: Option<&InterruptHandlers>,
    features: Features,
) -> (r: IrqStart)
    requires
        old(core).wf(),
        can_enter(*old(core), features),
        acked matches Some(irqid) ==> irqid <= 255,
        handlers matches Some(h) ==> h.wf(),
    ensures
        final(core).wf(),
        irq_started(*old(core), acked, handlers, features, r, *final(core)),
{
    let irqid: u32 = match acked {
        Some(irqid) => irqid,
        None => {
            return IrqStart::Spurious;
        },
    };
    if features.pmr_coop_net {
        core.eoi_inflight = core.eoi_inflight + 1;
    }
    let vector: u8 = irqid as u8;
    irq_enter(core, features);
    if features.pmr_preempt_spike && (vector == SGI_PMRTEST_LO || vector == SGI_PMRTEST_HI) {
        return IrqStart::Test { vector };
    }
    core.increment_irq_counter(vector);
    IrqStart::Handle { vector, handlers: collect(handlers, vector) }
}

/// Whether `after` is what the core has of its own once the interrupt `vector`
/// was taken and counted.
pub open spec fn counted(
    before: CoreLocal,
    after: CoreLocal,
    vector: u8,
    features: Features,
) -> bool {
    &&& after == (CoreLocal {
        irq_statistics: after.irq_statistics,
        ..core_entered(before, features)
    })
    &&& after.irq_statistics@ == before.irq_statistics@.update(
        vector as int,
        crate::arch::aarch64::kernel::interrupts::statistics::wrapping_inc(
            before.irq_statistics@[vector as int],
        ),
    )
}

/// Begins to handle a fast interrupt. There are no test interrupts among them.
pub fn do_fiq(
    core: &mut CoreLocal,
    acked: Option<u32>,
    handlers: Option<&InterruptHandlers>,
    features: Features,
) -> (r: IrqStart)
    requires
        old(core).wf(),
        can_enter(*old(core), features),
        acked matches Some(irqid) ==> irqid <= 255,
        handlers matches Some(h) ==> h.wf(),
    ensures
        final(core).wf(),
        match acked {
            None => r == IrqStart::Spurious && *final(core) == *old(core),
            Some(irqid) => {
                &&& r matches IrqStart::Handle { vector, handlers: run } && vector == irqid && run@
                    == handlers_of(handlers, irqid as u8)
                &&& counted(*old(core), *final(core), irqid as u8, features)
            },
        },
{
    let irqid: u32 = match acked {
        Some(irqid) => irqid,
        None => {
            return IrqStart::Spurious;
        },
    };
    if features.pmr_coop_net {
        core.eoi_inflight = core.eoi_inflight + 1;
    }
    let vector: u8 = irqid as u8;
    irq_enter(core, features);
    core.increment_irq_counter(vector);
    IrqStart::Handle { vector, handlers: collect(handlers, vector) }
}

/// Ends a test interrupt. The scheduler does not run.
pub fn finish_test(core: &mut CoreLocal, features: Features, vector: u8) -> (r: EndOfInterrupt)
    requires
        can_leave(*old(core), features),
    ensures
        r == end_of(vector as u32, features),
        *final(core) == core_left(*old(core), features),
{
    let end: EndOfInterrupt = eoi_complete(core, features, vector as u32);
    irq_exit(core, features);
    end
}

/// Ends an interrupt whose handlers ran: the tasks whose time has elapsed at
/// `time` wake up, and the scheduler runs at `now`, unless this interrupt came
/// while another one was handled. Switching tasks then would take the stack
/// away from the outer handler.
pub fn finish_irq(
    core: &mut CoreLocal,
    scheduler: &mut PerCoreScheduler,
    machine: &mut Machine,
    features: Features,
    vector: u8,
    time: u64,
    now: u64,
) -> (r: IrqEnd)
    requires
        can_leave(*old(core), features),
        old(scheduler).wf(old(machine)),
    ensures
        final(scheduler).wf(final(machine)),
        r.end == end_of(vector as u32, features),
        *final(core) == core_left(*old(core), features),
        r.rescheduled is Some == (depth_left(old(core).rt_nest_depth, features) == 0),
        old(scheduler).became(
            old(machine),
            interrupted(
                old(scheduler).state(old(machine)),
                time,
                now,
                depth_left(old(core).rt_nest_depth, features) == 0,
            ),
            final(scheduler),
            final(machine),
        ),
        r.rescheduled matches Some(s) ==> {
            let woken = crate::scheduler::wake::elapsed_woken(
                old(scheduler).state(old(machine)),
                time,
            );
            &&& s.previous == (if final(scheduler).current_task == old(scheduler).current_task {
                None
            } else {
                Some(old(scheduler).current_task)
            })
            &&& s.reaped@ == woken.finished.map_values(|t: TaskId| woken.tasks[t.0])
            &&& s.poke_reactor == (s.reaped@.len() > 0 && woken.core_id == 0)
        },
{
    let ghost c = scheduler.state(machine);
    let ghost pool = machine.slots;
    proof {
        assert(pool.all_owners() =~= pool.all_owners().update(
            crate::arch::aarch64::kernel::slot_pool::owner_index(scheduler.core_id),
            c.owners,
        ));
    }
    scheduler.wake_pending_tasks(machine, time);
    let end: EndOfInterrupt = eoi_complete(core, features, vector as u32);
    irq_exit(core, features);
    let rescheduled: Option<Rescheduled> = if core.rt_nest_depth == 0 {
        Some(scheduler.scheduler(machine, now))
    } else {
        None
    };
    IrqEnd { end, rescheduled }
}

/// The scheduler's state once an interrupt was handled: the tasks whose time
/// has elapsed are awake, and the next task runs if this was the outermost
/// interrupt.
pub open spec fn interrupted(
    c: crate::scheduler::state::CoreState,
    time: u64,
    now: u64,
    outermost: bool,
) -> crate::scheduler::state::CoreState {
    let woken = crate::scheduler::wake::elapsed_woken(c, time);
    if outermost {
        crate::scheduler::state::scheduled(woken, now)
    } else {
        woken
    }
}

/// Handling an interrupt from beginning to end leaves the counters of nested
/// and of pending interrupts as they were.
pub proof fn lemma_irq_balanced(before: CoreLocal, entered: CoreLocal, features: Features)
    requires
        can_enter(before, features),
        entered == (CoreLocal {
            irq_statistics: entered.irq_statistics,
            ..core_entered(before, features)
        }),
    ensures
        can_leave(entered, features),
        core_left(entered, features).rt_nest_depth == before.rt_nest_depth,
        core_left(entered, features).eoi_inflight == before.eoi_inflight,
{
}

/// An interrupt that comes while another one is handled does not switch tasks,
/// and one that comes alone does, provided that interrupts are counted.
pub proof fn lemma_only_outermost_switches(
    before: CoreLocal,
    entered: CoreLocal,
    features: Features,
)
    requires
        features.pmr_band,
        can_enter(before, features),
        entered.rt_nest_depth == core_entered(before, features).rt_nest_depth,
    ensures
        depth_left(entered.rt_nest_depth, features) == 0 <==> before.rt_nest_depth == 0,
{
}

} // verus!
