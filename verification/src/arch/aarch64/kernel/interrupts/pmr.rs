//! Priority bands: which interrupts may come while others are handled.

use vstd::prelude::*;

use crate::arch::aarch64::kernel::interrupts::ids::{
    RT_BRIDGE_PRIORITY, SGI_COOP_WAKE, SGI_PMRTEST_HI, SGI_PMRTEST_LO, SGI_RT_BRIDGE,
};

verus! {

/// A core's priority mask. An interrupt comes only if its priority is
/// numerically below the mask.
pub struct PriorityMask {
    pub mask: u8,
}

/// Whether an interrupt of the priority comes under the mask.
pub open spec fn admits(mask: u8, priority: u8) -> bool {
    priority < mask
}

/// A raised ceiling, which holds until it is dropped.
pub struct PmrCeiling {
    saved: u8,
}

impl PmrCeiling {
    /// The mask before the ceiling was raised.
    pub closed spec fn before(&self) -> u8 {
        self.saved
    }

    /// Raises the ceiling to `new_ceiling`. It can only be raised, which makes
    /// the mask numerically smaller.
    pub fn raise(pmr: &mut PriorityMask, new_ceiling: u8) -> (r: PmrCeiling)
        requires
            new_ceiling <= old(pmr).mask,
        ensures
            r.before() == old(pmr).mask,
            final(pmr).mask == new_ceiling,
    {
        let cur: u8 = pmr.mask;
        pmr.mask = new_ceiling;
        PmrCeiling { saved: cur }
    }

    /// Drops the ceiling: the mask is again what it was.
    pub fn release(self, pmr: &mut PriorityMask)
        ensures
            final(pmr).mask == self.before(),
    {
        pmr.mask = self.saved;
    }
}

/// Raising the ceiling lets no interrupt come that did not come before.
pub proof fn lemma_raise_admits_less(mask: u8, new_ceiling: u8, priority: u8)
    requires
        new_ceiling <= mask,
        admits(new_ceiling, priority),
    ensures
        admits(mask, priority),
{
}

/// Under a mask of 0 no interrupt comes, whatever its priority.
pub proof fn lemma_zero_admits_nothing(priority: u8)
    ensures
        !admits(0, priority),
{
}

/// What the bands tell each other.
pub struct CoopBand {
    /// An interrupt of the cooperative band came.
    pub wake_pending: bool,
    /// The real-time band woke the cooperative band.
    pub triggered: bool,
    /// Whether a future of the cooperative band waits to be woken.
    pub waker: bool,
}

/// What is to be done to wake the cooperative band.
#[derive(Copy, Clone, Debug, Eq, PartialEq, Structural)]
pub struct CoopWakeup {
    /// The value that sends the band's interrupt.
    pub sgi: u64,
    /// Whether the waker of the waiting future is called.
    pub wake: bool,
}

impl CoopBand {
    /// Notes that an interrupt of the cooperative band came. The executor is
    /// drained later, outside the handler.
    pub fn coop_wake_handler(&mut self)
        ensures
            *final(self) == (CoopBand { wake_pending: true, ..*old(self) }),
    {
        self.wake_pending = true;
    }

    /// Wakes the future of the cooperative band, which is woken at most once,
    /// and sends the interrupt of that band and of no other.
    pub fn wake_coop_future(&mut self) -> (r: CoopWakeup)
        ensures
            *final(self) == (CoopBand { waker: false, ..*old(self) }),
            r.sgi == crate::arch::aarch64::kernel::interrupts::ids::spec_sgi_value(
                SGI_COOP_WAKE,
                0,
            ),
            r.wake == old(self).waker,
    {
        let sgi: u64 = crate::arch::aarch64::kernel::interrupts::ids::pend_sgi_to_self(
            SGI_COOP_WAKE,
        );
        let wake: bool = self.waker;
        self.waker = false;
        CoopWakeup { sgi, wake }
    }

    /// Handles the interrupt by which the real-time band wakes the cooperative
    /// band. The ceiling is raised while it does so.
    pub fn rt_bridge_handler(&mut self, pmr: &mut PriorityMask) -> (r: CoopWakeup)
        requires
            RT_BRIDGE_PRIORITY <= old(pmr).mask,
        ensures
            final(pmr).mask == old(pmr).mask,
            *final(self) == (CoopBand { triggered: true, waker: false, ..*old(self) }),
            r.sgi == crate::arch::aarch64::kernel::interrupts::ids::spec_sgi_value(
                SGI_COOP_WAKE,
                0,
            ),
            r.wake == old(self).waker,
    {
        let ceiling = PmrCeiling::raise(pmr, RT_BRIDGE_PRIORITY);
        self.triggered = true;
        let wakeup: CoopWakeup = self.wake_coop_future();
        ceiling.release(pmr);
        wakeup
    }

    /// Polls the future of the cooperative band: it is done once the real-time
    /// band woke the cooperative band. Either way it can be woken from now on.
    pub fn poll(&mut self) -> (r: bool)
        ensures
            r == old(self).triggered,
            *final(self) == (CoopBand { waker: true, ..*old(self) }),
    {
        self.waker = true;
        self.triggered
    }
}

/// What the trial of the bands has come to.
pub struct BandHarness {
    pub done: bool,
}

impl BandHarness {
    /// Whether the trial of the bands begins now: once, on core 0. The value
    /// sends the interrupt of the real-time band.
    pub fn pmr_band_maybe_trigger(&mut self, core_id: u32) -> (r: Option<u64>)
        ensures
            final(self).done == (old(self).done || core_id == 0),
            r == (if core_id == 0 && !old(self).done {
                Some(
                    crate::arch::aarch64::kernel::interrupts::ids::spec_sgi_value(
                        SGI_RT_BRIDGE,
                        0,
                    ),
                )
            } else {
                None
            }),
    {
        if core_id != 0 {
            return None;
        }
        if self.done {
            return None;
        }
        self.done = true;
        Some(crate::arch::aarch64::kernel::interrupts::ids::pend_sgi_to_self(SGI_RT_BRIDGE))
    }
}

/// What the trial of the network on the cooperative band has come to.
pub struct CoopNetHarness {
    /// It began.
    pub armed: bool,
    /// The executor polled its future.
    pub probe_polled: bool,
    /// It was reported as passed.
    pub pass_emitted: bool,
}

/// What the trial of the network on the cooperative band does next.
#[derive(Copy, Clone, Debug, Eq, PartialEq, Structural)]
pub enum CoopNetStep {
    /// Nothing.
    Wait,
    /// Start the future and wake the network.
    Arm,
    /// Report that it passed.
    Pass,
}

impl CoopNetHarness {
    /// The next step of the trial: it begins once, on core 0. It passes, once,
    /// when the interrupt of the band came, the future was polled, and no
    /// interrupt is left to be ended.
    pub fn pmr_coop_net_maybe_trigger(
        &mut self,
        core_id: u32,
        wake_pending: bool,
        eoi_inflight: u32,
    ) -> (r: CoopNetStep)
        ensures
            r == (if core_id != 0 {
                CoopNetStep::Wait
            } else if !old(self).armed {
                CoopNetStep::Arm
            } else if !old(self).pass_emitted && wake_pending && old(self).probe_polled
                && eoi_inflight == 0 {
                CoopNetStep::Pass
            } else {
                CoopNetStep::Wait
            }),
            *final(self) == (CoopNetHarness {
                armed: old(self).armed || r == CoopNetStep::Arm,
                pass_emitted: old(self).pass_emitted || r == CoopNetStep::Pass,
                ..*old(self)
            }),
    {
        if core_id != 0 {
            return CoopNetStep::Wait;
        }
        if !self.armed {
            self.armed = true;
            return CoopNetStep::Arm;
        }
        if !self.pass_emitted && wake_pending && self.probe_polled && eoi_inflight == 0 {
            self.pass_emitted = true;
            return CoopNetStep::Pass;
        }
        CoopNetStep::Wait
    }
}

/// A step of the test of nested preemption.
#[derive(Copy, Clone, Debug, Eq, PartialEq, Structural)]
pub enum SpikeStep {
    /// Set the flag that tells whether the interrupt of the highest priority
    /// came.
    SetFlag { came: bool },
    /// Set the priority mask.
    SetMask { mask: u8 },
    /// Let interrupts come.
    EnableIrqs,
    /// Keep interrupts from coming.
    DisableIrqs,
    /// Send the interrupt of the highest priority.
    Pend { sgi: u64 },
    /// Wait until the flag is set, at most so many rounds.
    Spin { rounds: u32 },
    /// Note whether the interrupt came in spite of the mask.
    Report { blocked_expected: bool },
}

/// How many rounds the test waits.
pub const SPIKE_ROUNDS: u32 = 1_000_000;

/// The steps of one half of the test, under the given mask. The mask is in
/// place before interrupts are let in, and interrupts are kept out before it is
/// taken back.
pub open spec fn spike_half(mask: u8, blocked_expected: bool) -> Seq<SpikeStep> {
    seq![
        SpikeStep::SetFlag { came: false },
        SpikeStep::SetMask { mask },
        SpikeStep::EnableIrqs,
        SpikeStep::Pend {
            sgi: crate::arch::aarch64::kernel::interrupts::ids::spec_sgi_value(SGI_PMRTEST_HI, 0),
        },
        SpikeStep::Spin { rounds: SPIKE_ROUNDS },
        SpikeStep::DisableIrqs,
        SpikeStep::SetMask { mask: 0xff },
        SpikeStep::Report { blocked_expected },
    ]
}

/// The steps for a test interrupt. The lower one tries first a mask that lets
/// the higher one come, then one that lets none come; the higher one sets the
/// flag.
pub open spec fn spike_steps(vector: u8) -> Seq<SpikeStep> {
    if vector == SGI_PMRTEST_HI {
        seq![SpikeStep::SetFlag { came: true }]
    } else if vector == SGI_PMRTEST_LO {
        spike_half(0x40, false) + spike_half(0, true)
    } else {
        Seq::empty()
    }
}

fn push_half(steps: &mut Vec<SpikeStep>, mask: u8, blocked_expected: bool)
    ensures
        final(steps)@ == old(steps)@ + spike_half(mask, blocked_expected),
{
    steps.push(SpikeStep::SetFlag { came: false });
    steps.push(SpikeStep::SetMask { mask });
    steps.push(SpikeStep::EnableIrqs);
    steps.push(
        SpikeStep::Pend {
            sgi: crate::arch::aarch64::kernel::interrupts::ids::pend_sgi_to_self(SGI_PMRTEST_HI),
        },
    );
    steps.push(SpikeStep::Spin { rounds: SPIKE_ROUNDS });
    steps.push(SpikeStep::DisableIrqs);
    steps.push(SpikeStep::SetMask { mask: 0xff });
    steps.push(SpikeStep::Report { blocked_expected });
    assert(steps@ =~= old(steps)@ + spike_half(mask, blocked_expected));
}

/// The steps for a test interrupt.
pub fn pmr_spike_dispatch(vector: u8) -> (r: Vec<SpikeStep>)
    ensures
        r@ == spike_steps(vector),
{
    let mut steps: Vec<SpikeStep> = Vec::new();
    if vector == SGI_PMRTEST_HI {
        steps.push(SpikeStep::SetFlag { came: true });
    } else if vector == SGI_PMRTEST_LO {
        push_half(&mut steps, 0x40, false);
        push_half(&mut steps, 0x00, true);
    }
    assert(steps@ =~= spike_steps(vector));
    steps
}

/// The value that sends the test interrupt of lower priority.
pub fn pmr_spike_trigger() -> (r: u64)
    ensures
        r == crate::arch::aarch64::kernel::interrupts::ids::spec_sgi_value(SGI_PMRTEST_LO, 0),
{
    crate::arch::aarch64::kernel::interrupts::ids::pend_sgi_to_self(SGI_PMRTEST_LO)
}

/// The mask in place before step `i` of a test that began with all interrupts
/// admitted.
pub open spec fn mask_before(steps: Seq<SpikeStep>, i: int) -> u8
    decreases i,
{
    if i <= 0 {
        0xff
    } else {
        match steps[i - 1] {
            SpikeStep::SetMask { mask } => mask,
            _ => mask_before(steps, i - 1),
        }
    }
}

/// Whether interrupts may come before step `i` of a test that began with
/// interrupts kept out.
pub open spec fn irqs_before(steps: Seq<SpikeStep>, i: int) -> bool
    decreases i,
{
    if i <= 0 {
        false
    } else {
        match steps[i - 1] {
            SpikeStep::EnableIrqs => true,
            SpikeStep::DisableIrqs => false,
            _ => irqs_before(steps, i - 1),
        }
    }
}

/// While interrupts may come during the test, the mask is at the ceiling of the
/// lower test interrupt or above it; afterwards interrupts are kept out and the
/// mask admits all.
pub proof fn lemma_spike_ceiling(i: int)
    requires
        0 <= i <= spike_steps(SGI_PMRTEST_LO).len(),
    ensures
        irqs_before(spike_steps(SGI_PMRTEST_LO), i) ==> mask_before(spike_steps(SGI_PMRTEST_LO), i)
            <= 0x40,
        i == spike_steps(SGI_PMRTEST_LO).len() ==> !irqs_before(spike_steps(SGI_PMRTEST_LO), i)
            && mask_before(spike_steps(SGI_PMRTEST_LO), i) == 0xff,
{
    reveal_with_fuel(mask_before, 17);
    reveal_with_fuel(irqs_before, 17);
    let s = spike_steps(SGI_PMRTEST_LO);
    assert(s.len() == 16);
    assert(s[0] is SetFlag && s[1] == SpikeStep::SetMask { mask: 0x40 } && s[2] is EnableIrqs);
    assert(s[3] is Pend && s[4] is Spin && s[5] is DisableIrqs);
    assert(s[6] == SpikeStep::SetMask { mask: 0xff } && s[7] is Report);
    assert(s[8] is SetFlag && s[9] == SpikeStep::SetMask { mask: 0 } && s[10] is EnableIrqs);
    assert(s[11] is Pend && s[12] is Spin && s[13] is DisableIrqs);
    assert(s[14] == SpikeStep::SetMask { mask: 0xff } && s[15] is Report);
}

} // verus!
