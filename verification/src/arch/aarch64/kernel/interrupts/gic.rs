//! Setting up the interrupt controller.

use vstd::prelude::*;

use crate::arch::aarch64::kernel::interrupts::handlers::Features;
use crate::arch::aarch64::kernel::interrupts::ids::{
    IrqKind, COOP_WAKE_PRIORITY, PPI_START, RT_BRIDGE_PRIORITY, SGI_CONT_WAKE, SGI_COOP_WAKE,
    SGI_PMRTEST_HI, SGI_PMRTEST_LO, SGI_RESCHED, SGI_RT_BRIDGE, SPI_START,
};
use crate::arch::aarch64::kernel::interrupts::statistics::IrqNames;
use crate::device_tree::{NodeInfo, TreeError};
use crate::pages::BASE_PAGE_SIZE;

verus! {

/// How a device signals an interrupt.
#[derive(Copy, Clone, Debug, Eq, PartialEq, Structural)]
pub enum Trigger {
    Edge,
    Level,
}

/// An interrupt as the device tree describes it.
#[derive(Copy, Clone, Debug, Eq, PartialEq, Structural)]
pub struct InterruptSpec {
    pub kind: IrqKind,
    pub irq: u32,
    pub trigger: Trigger,
}

/// The kind that the device tree encodes as `t`.
pub open spec fn kind_of(t: int) -> Option<IrqKind> {
    if t == 1 {
        Some(IrqKind::Ppi)
    } else if t == 0 {
        Some(IrqKind::Spi)
    } else {
        None
    }
}

/// The way of signalling that the device tree encodes in the low bits of
/// `flags`.
pub open spec fn trigger_of(flags: u32) -> Option<Trigger> {
    let sense = flags & 0xf;
    if sense == 4 || sense == 8 {
        Some(Trigger::Level)
    } else if sense == 2 || sense == 1 {
        Some(Trigger::Edge)
    } else {
        None
    }
}

/// The interrupt that entry `n` of an `interrupts` property describes: three
/// numbers, its kind, its number and its flags.
pub open spec fn interrupt_at(bytes: Seq<u8>, n: int) -> Option<InterruptSpec> {
    let at = 12 * n;
    if bytes.len() < at + 12 {
        None
    } else {
        let irq = crate::device_tree::be32(bytes, at + 4) as u32;
        match (kind_of(crate::device_tree::be32(bytes, at)), trigger_of(
            crate::device_tree::be32(bytes, at + 8) as u32,
        )) {
            (Some(kind), Some(trigger)) => if crate::arch::aarch64::kernel::interrupts::ids::irq_exists(
            kind, irq) {
                Some(InterruptSpec { kind, irq, trigger })
            } else {
                None
            },
            _ => None,
        }
    }
}

/// Reads entry `n` of an `interrupts` property. There is none if the property
/// is too short or the entry describes no interrupt that can be.
pub fn parse_interrupt(bytes: &[u8], n: usize) -> (r: Option<InterruptSpec>)
    requires
        n <= 0xffff,
    ensures
        r == interrupt_at(bytes@, n as int),
{
    let at: usize = 12 * n;
    if bytes.len() < at + 12 {
        return None;
    }
    let irqtype: u32 = crate::device_tree::read_be32(bytes, at);
    let irq: u32 = crate::device_tree::read_be32(bytes, at + 4);
    let irqflags: u32 = crate::device_tree::read_be32(bytes, at + 8);
    let kind: IrqKind = if irqtype == 1 {
        IrqKind::Ppi
    } else if irqtype == 0 {
        IrqKind::Spi
    } else {
        return None;
    };
    let sense: u32 = irqflags & 0xf;
    let trigger: Trigger = if sense == 4 || sense == 8 {
        Trigger::Level
    } else if sense == 2 || sense == 1 {
        Trigger::Edge
    } else {
        return None;
    };
    let exists: bool = match kind {
        IrqKind::Ppi => irq < 16,
        IrqKind::Spi => irq < 988,
    };
    if exists {
        Some(InterruptSpec { kind, irq, trigger })
    } else {
        None
    }
}

/// The entry of the timer's `interrupts` property that is used: the second
/// one, which is that of the non-secure physical timer.
pub const TIMER_ENTRY: usize = 1;

/// The entry of the serial port's `interrupts` property that is used.
pub const UART_ENTRY: usize = 0;

/// A step of setting up the interrupt controller.
#[derive(Copy, Clone, Debug, Eq, PartialEq, Structural)]
pub enum GicOp {
    /// Let the core take interrupts of the group in use.
    EnableGroup1,
    /// Set the core's priority mask.
    SetPriorityMask { mask: u8 },
    /// Let the core drop the priority of an interrupt and deactivate it in two
    /// steps.
    SplitEnd,
    /// Set the priority of an interrupt on a core.
    SetPriority { intid: u32, cpu: usize, priority: u8 },
    /// Set how an interrupt is signalled on a core.
    SetTrigger { intid: u32, cpu: usize, trigger: Trigger },
    /// Enable an interrupt on a core.
    Enable { intid: u32, cpu: usize },
}

/// The steps for a device's interrupt: highest priority, its way of
/// signalling, enabled.
pub open spec fn device_ops(device: InterruptSpec, cpu: usize) -> Seq<GicOp> {
    let intid = crate::arch::aarch64::kernel::interrupts::ids::irq_id(device.kind, device.irq) as u32;
    seq![
        GicOp::SetPriority { intid, cpu, priority: 0 },
        GicOp::SetTrigger { intid, cpu, trigger: device.trigger },
        GicOp::Enable { intid, cpu },
    ]
}

/// The steps for a software-generated interrupt: its priority, enabled.
pub open spec fn sgi_ops(sgi: u8, cpu: usize, priority: u8) -> Seq<GicOp> {
    seq![
        GicOp::SetPriority { intid: sgi as u32, cpu, priority },
        GicOp::Enable { intid: sgi as u32, cpu },
    ]
}

/// The steps for a device's interrupt, if there is the device.
pub open spec fn optional_device_ops(device: Option<InterruptSpec>, cpu: usize) -> Seq<GicOp> {
    match device {
        Some(d) => device_ops(d, cpu),
        None => Seq::empty(),
    }
}

/// The steps for the software-generated interrupts of the optional parts.
pub open spec fn feature_ops(features: Features, cpu: usize) -> Seq<GicOp> {
    let none = Seq::<GicOp>::empty();
    let cont = if features.continuations {
        sgi_ops(SGI_CONT_WAKE, cpu, COOP_WAKE_PRIORITY)
    } else {
        none
    };
    let spike = if features.pmr_preempt_spike {
        sgi_ops(SGI_PMRTEST_LO, cpu, 0x40) + sgi_ops(SGI_PMRTEST_HI, cpu, 0)
    } else {
        none
    };
    let coop = if features.pmr_band || features.pmr_coop_net {
        sgi_ops(SGI_COOP_WAKE, cpu, COOP_WAKE_PRIORITY)
    } else {
        none
    };
    let rt = if features.pmr_band {
        sgi_ops(SGI_RT_BRIDGE, cpu, RT_BRIDGE_PRIORITY)
    } else {
        none
    };
    cont + spike + coop + rt
}

/// The steps that come first on a core: nothing is masked, and interrupts end
/// in two steps where the network runs in the cooperative band.
pub open spec fn starting_ops(features: Features) -> Seq<GicOp> {
    if features.pmr_coop_net {
        seq![GicOp::SetPriorityMask { mask: 0xff }, GicOp::SplitEnd]
    } else {
        seq![GicOp::SetPriorityMask { mask: 0xff }]
    }
}

/// The steps on the core that boots: timer, serial port, rescheduling, and the
/// optional parts.
pub open spec fn init_ops(
    cpu: usize,
    timer: Option<InterruptSpec>,
    uart: Option<InterruptSpec>,
    features: Features,
) -> Seq<GicOp> {
    starting_ops(features) + optional_device_ops(timer, cpu) + optional_device_ops(uart, cpu)
        + sgi_ops(SGI_RESCHED, cpu, 1) + feature_ops(features, cpu)
}

/// The steps on another core: timer, rescheduling, and the optional parts.
pub open spec fn init_cpu_ops(
    cpu: usize,
    timer: Option<InterruptSpec>,
    features: Features,
) -> Seq<GicOp> {
    seq![GicOp::EnableGroup1] + starting_ops(features) + optional_device_ops(timer, cpu) + sgi_ops(
        SGI_RESCHED,
        cpu,
        1,
    ) + feature_ops(features, cpu)
}

/// The names of the optional parts' interrupts, added to `names`.
pub open spec fn feature_names(names: Map<u8, Seq<char>>, features: Features) -> Map<u8, Seq<char>> {
    let a = if features.continuations {
        names.insert(SGI_CONT_WAKE, "ContWake"@)
    } else {
        names
    };
    let b = if features.pmr_preempt_spike {
        a.insert(SGI_PMRTEST_LO, "PmrTestLo"@).insert(SGI_PMRTEST_HI, "PmrTestHi"@)
    } else {
        a
    };
    let c = if features.pmr_band || features.pmr_coop_net {
        b.insert(SGI_COOP_WAKE, "CoopWake"@)
    } else {
        b
    };
    if features.pmr_band {
        c.insert(SGI_RT_BRIDGE, "RtBridge"@)
    } else {
        c
    }
}

/// The names of all interrupts that are set up on the core that boots, added
/// to `names`.
pub open spec fn init_names(
    names: Map<u8, Seq<char>>,
    timer: Option<InterruptSpec>,
    uart: Option<InterruptSpec>,
    features: Features,
) -> Map<u8, Seq<char>> {
    let a = match timer {
        Some(t) => names.insert((t.irq + PPI_START) as u8, "Timer"@),
        None => names,
    };
    let b = match uart {
        Some(u) => a.insert((u.irq + SPI_START) as u8, "UART"@),
        None => a,
    };
    feature_names(b.insert(SGI_RESCHED, "Reschedule"@), features)
}

fn push_start(ops: &mut Vec<GicOp>, features: Features)
    ensures
        final(ops)@ == old(ops)@ + starting_ops(features),
{
    ops.push(GicOp::SetPriorityMask { mask: 0xff });
    if features.pmr_coop_net {
        ops.push(GicOp::SplitEnd);
    }
    assert(ops@ =~= old(ops)@ + starting_ops(features));
}

fn push_device(ops: &mut Vec<GicOp>, device: InterruptSpec, cpu: usize)
    requires
        crate::arch::aarch64::kernel::interrupts::ids::irq_exists(device.kind, device.irq),
    ensures
        final(ops)@ == old(ops)@ + device_ops(device, cpu),
{
    let intid: u32 = crate::arch::aarch64::kernel::interrupts::ids::peripheral(
        device.kind,
        device.irq,
    );
    ops.push(GicOp::SetPriority { intid, cpu, priority: 0 });
    ops.push(GicOp::SetTrigger { intid, cpu, trigger: device.trigger });
    ops.push(GicOp::Enable { intid, cpu });
    assert(ops@ =~= old(ops)@ + device_ops(device, cpu));
}

fn push_sgi(ops: &mut Vec<GicOp>, sgi: u8, cpu: usize, priority: u8)
    requires
        sgi < 16,
    ensures
        final(ops)@ == old(ops)@ + sgi_ops(sgi, cpu, priority),
{
    let intid: u32 = crate::arch::aarch64::kernel::interrupts::ids::sgi(sgi);
    ops.push(GicOp::SetPriority { intid, cpu, priority });
    ops.push(GicOp::Enable { intid, cpu });
    assert(ops@ =~= old(ops)@ + sgi_ops(sgi, cpu, priority));
}

/// Adds the steps and the names for the optional parts.
fn push_features(ops: &mut Vec<GicOp>, names: &mut IrqNames, features: Features, cpu: usize)
    requires
        old(names).wf(),
    ensures
        final(names).wf(),
        final(ops)@ == old(ops)@ + feature_ops(features, cpu),
        final(names)@ == feature_names(old(names)@, features),
{
    let ghost start = ops@;
    if features.continuations {
        push_sgi(ops, SGI_CONT_WAKE, cpu, COOP_WAKE_PRIORITY);
        names.insert(SGI_CONT_WAKE, "ContWake");
    }
    if features.pmr_preempt_spike {
        push_sgi(ops, SGI_PMRTEST_LO, cpu, 0x40);
        names.insert(SGI_PMRTEST_LO, "PmrTestLo");
        push_sgi(ops, SGI_PMRTEST_HI, cpu, 0x00);
        names.insert(SGI_PMRTEST_HI, "PmrTestHi");
    }
    if features.pmr_band || features.pmr_coop_net {
        push_sgi(ops, SGI_COOP_WAKE, cpu, COOP_WAKE_PRIORITY);
        names.insert(SGI_COOP_WAKE, "CoopWake");
    }
    if features.pmr_band {
        push_sgi(ops, SGI_RT_BRIDGE, cpu, RT_BRIDGE_PRIORITY);
        names.insert(SGI_RT_BRIDGE, "RtBridge");
    }
    assert(ops@ =~= start + feature_ops(features, cpu));
}

/// What setting up the interrupt controller comes to.
pub struct InterruptPlan {
    /// The steps, in order.
    pub ops: Vec<GicOp>,
    /// The number of the timer's interrupt, 0 if there is no timer.
    pub timer_interrupt: u32,
    /// The number of the serial port's interrupt, 0 if there is none.
    pub uart_interrupt: u32,
}

/// The number of a device's interrupt, 0 if there is no device.
pub open spec fn device_irq(device: Option<InterruptSpec>) -> u32 {
    match device {
        Some(d) => d.irq,
        None => 0,
    }
}

/// Plans setting up the interrupt controller on the core that boots, and names
/// the interrupts. The real-time band stays on core 0.
pub fn init(
    cpu_id: usize,
    timer: Option<InterruptSpec>,
    uart: Option<InterruptSpec>,
    features: Features,
    names: &mut IrqNames,
) -> (r: InterruptPlan)
    requires
        old(names).wf(),
        timer matches Some(t) ==> crate::arch::aarch64::kernel::interrupts::ids::irq_exists(
            t.kind,
            t.irq,
        ) && t.irq + PPI_START <= 255,
        uart matches Some(u) ==> crate::arch::aarch64::kernel::interrupts::ids::irq_exists(
            u.kind,
            u.irq,
        ) && u.irq + SPI_START <= 255,
        features.pmr_band ==> cpu_id == 0,
    ensures
        final(names).wf(),
        r.ops@ == init_ops(cpu_id, timer, uart, features),
        r.timer_interrupt == device_irq(timer),
        r.uart_interrupt == device_irq(uart),
        final(names)@ == init_names(old(names)@, timer, uart, features),
{
    let mut ops: Vec<GicOp> = Vec::new();
    push_start(&mut ops, features);
    let mut timer_interrupt: u32 = 0;
    let mut uart_interrupt: u32 = 0;
    match timer {
        Some(t) => {
            timer_interrupt = t.irq;
            names.insert(t.irq as u8 + PPI_START, "Timer");
            push_device(&mut ops, t, cpu_id);
        },
        None => {},
    }
    match uart {
        Some(u) => {
            uart_interrupt = u.irq;
            names.insert(u.irq as u8 + SPI_START, "UART");
            push_device(&mut ops, u, cpu_id);
        },
        None => {},
    }
    push_sgi(&mut ops, SGI_RESCHED, cpu_id, 0x01);
    names.insert(SGI_RESCHED, "Reschedule");
    push_features(&mut ops, names, features, cpu_id);
    assert(ops@ =~= init_ops(cpu_id, timer, uart, features));
    InterruptPlan { ops, timer_interrupt, uart_interrupt }
}

/// Plans setting up the interrupt controller on another core. There is nothing
/// to do as long as the controller itself is not set up.
pub fn init_cpu(
    cpu_id: usize,
    gic_ready: bool,
    timer: Option<InterruptSpec>,
    features: Features,
    names: &mut IrqNames,
) -> (r: Option<Vec<GicOp>>)
    requires
        old(names).wf(),
        timer matches Some(t) ==> crate::arch::aarch64::kernel::interrupts::ids::irq_exists(
            t.kind,
            t.irq,
        ),
        features.pmr_band ==> cpu_id == 0,
    ensures
        final(names).wf(),
        match r {
            None => !gic_ready && final(names)@ == old(names)@,
            Some(ops) => gic_ready && ops@ == init_cpu_ops(cpu_id, timer, features)
                && final(names)@ == feature_names(old(names)@, features),
        },
{
    if !gic_ready {
        return None;
    }
    let mut ops: Vec<GicOp> = Vec::new();
    ops.push(GicOp::EnableGroup1);
    push_start(&mut ops, features);
    match timer {
        Some(t) => {
            push_device(&mut ops, t, cpu_id);
        },
        None => {},
    }
    push_sgi(&mut ops, SGI_RESCHED, cpu_id, 0x01);
    push_features(&mut ops, names, features, cpu_id);
    assert(ops@ =~= init_cpu_ops(cpu_id, timer, features));
    Some(ops)
}

/// Whether `step` sets the priority of the interrupt that `enable` enables, on
/// the same core.
pub open spec fn prepares(step: GicOp, enable: GicOp) -> bool {
    match (step, enable) {
        (
            GicOp::SetPriority { intid: a, cpu: c, .. },
            GicOp::Enable { intid: b, cpu: d },
        ) => a == b && c == d,
        _ => false,
    }
}

/// Whether the interrupt that step `i` enables got its priority before.
pub open spec fn prepared(ops: Seq<GicOp>, i: int) -> bool {
    exists|j: int| 0 <= j < i && #[trigger] prepares(ops[j], ops[i])
}

/// Whether no interrupt is enabled before its priority is set.
pub open spec fn priority_first(ops: Seq<GicOp>) -> bool {
    forall|i: int| 0 <= i < ops.len() && ops[i] is Enable ==> #[trigger] prepared(ops, i)
}

proof fn lemma_concat_priority_first(a: Seq<GicOp>, b: Seq<GicOp>)
    requires
        priority_first(a),
        priority_first(b),
    ensures
        priority_first(a + b),
{
    assert forall|i: int| 0 <= i < (a + b).len() && (a + b)[i] is Enable implies #[trigger] prepared(
        a + b,
        i,
    ) by {
        if i < a.len() {
            assert(prepared(a, i));
            let j = choose|j: int| 0 <= j < i && #[trigger] prepares(a[j], a[i]);
            assert(prepares((a + b)[j], (a + b)[i]));
        } else {
            let k = i - a.len();
            assert(prepared(b, k));
            let j = choose|j: int| 0 <= j < k && #[trigger] prepares(b[j], b[k]);
            assert(prepares((a + b)[j + a.len()], (a + b)[i]));
        }
    }
}

proof fn lemma_parts_priority_first(device: InterruptSpec, sgi: u8, cpu: usize, priority: u8)
    ensures
        priority_first(device_ops(device, cpu)),
        priority_first(sgi_ops(sgi, cpu, priority)),
        priority_first(Seq::<GicOp>::empty()),
{
    let d = device_ops(device, cpu);
    assert(prepares(d[0], d[2]));
    let s = sgi_ops(sgi, cpu, priority);
    assert(prepares(s[0], s[1]));
}

proof fn lemma_features_priority_first(features: Features, cpu: usize)
    ensures
        priority_first(feature_ops(features, cpu)),
{
    let any = InterruptSpec { kind: IrqKind::Ppi, irq: 0, trigger: Trigger::Edge };
    let none = Seq::<GicOp>::empty();
    lemma_parts_priority_first(any, SGI_CONT_WAKE, cpu, COOP_WAKE_PRIORITY);
    lemma_parts_priority_first(any, SGI_PMRTEST_LO, cpu, 0x40);
    lemma_parts_priority_first(any, SGI_PMRTEST_HI, cpu, 0);
    lemma_parts_priority_first(any, SGI_COOP_WAKE, cpu, COOP_WAKE_PRIORITY);
    lemma_parts_priority_first(any, SGI_RT_BRIDGE, cpu, RT_BRIDGE_PRIORITY);
    lemma_concat_priority_first(
        sgi_ops(SGI_PMRTEST_LO, cpu, 0x40),
        sgi_ops(SGI_PMRTEST_HI, cpu, 0),
    );
    let cont = if features.continuations {
        sgi_ops(SGI_CONT_WAKE, cpu, COOP_WAKE_PRIORITY)
    } else {
        none
    };
    let spike = if features.pmr_preempt_spike {
        sgi_ops(SGI_PMRTEST_LO, cpu, 0x40) + sgi_ops(SGI_PMRTEST_HI, cpu, 0)
    } else {
        none
    };
    let coop = if features.pmr_band || features.pmr_coop_net {
        sgi_ops(SGI_COOP_WAKE, cpu, COOP_WAKE_PRIORITY)
    } else {
        none
    };
    let rt = if features.pmr_band {
        sgi_ops(SGI_RT_BRIDGE, cpu, RT_BRIDGE_PRIORITY)
    } else {
        none
    };
    lemma_concat_priority_first(cont, spike);
    lemma_concat_priority_first(cont + spike, coop);
    lemma_concat_priority_first(cont + spike + coop, rt);
}

/// On every core, no interrupt is enabled before its priority is set.
pub proof fn lemma_priority_first(
    cpu: usize,
    timer: Option<InterruptSpec>,
    uart: Option<InterruptSpec>,
    features: Features,
)
    ensures
        priority_first(init_ops(cpu, timer, uart, features)),
        priority_first(init_cpu_ops(cpu, timer, features)),
{
    let any = InterruptSpec { kind: IrqKind::Ppi, irq: 0, trigger: Trigger::Edge };
    let t = optional_device_ops(timer, cpu);
    let u = optional_device_ops(uart, cpu);
    let r = sgi_ops(SGI_RESCHED, cpu, 1);
    let f = feature_ops(features, cpu);
    lemma_parts_priority_first(any, SGI_RESCHED, cpu, 1);
    if let Some(d) = timer {
        lemma_parts_priority_first(d, SGI_RESCHED, cpu, 1);
    }
    if let Some(d) = uart {
        lemma_parts_priority_first(d, SGI_RESCHED, cpu, 1);
    }
    lemma_features_priority_first(features, cpu);
    let start = starting_ops(features);
    assert(priority_first(start));
    lemma_concat_priority_first(start, t);
    lemma_concat_priority_first(start + t, u);
    lemma_concat_priority_first(start + t + u, r);
    lemma_concat_priority_first(start + t + u + r, f);
    let group = seq![GicOp::EnableGroup1];
    assert(priority_first(group));
    lemma_concat_priority_first(group, start);
    lemma_concat_priority_first(group + start, t);
    lemma_concat_priority_first(group + start + t, r);
    lemma_concat_priority_first(group + start + t + r, f);
}

/// A version of the interrupt controller.
#[derive(Copy, Clone, Debug, Eq, PartialEq, Structural)]
pub enum GicVersion {
    V3,
    V4,
}

/// What the device tree says of the interrupt controller.
pub struct IntcNode {
    /// Where the distributor lies.
    pub gicd_start: u64,
    /// Size of the distributor's registers.
    pub gicd_size: usize,
    /// Where the redistributors lie.
    pub gicr_start: u64,
    /// Size of the redistributors' registers.
    pub gicr_size: usize,
    /// The first name under `compatible`, if there is one.
    pub compatible: Option<Vec<u8>>,
}

/// Memory to be allocated and mapped for registers.
#[derive(Copy, Clone, Debug, Eq, PartialEq, Structural)]
pub struct RegisterRegion {
    pub phys_addr: u64,
    pub size: usize,
    pub align: usize,
    pub pages: usize,
}

/// Alignment of the memory for the controller's registers.
pub const GIC_ALIGN: usize = 0x10000;

/// What is to be known of the interrupt controller before it is set up.
#[derive(Copy, Clone, Debug, Eq, PartialEq, Structural)]
pub struct GicSetup {
    pub version: GicVersion,
    pub gicd: RegisterRegion,
    pub gicr: RegisterRegion,
}

/// The name of version 3 of the controller.
pub open spec fn gic_v3_name() -> Seq<u8> {
    seq![97u8, 114, 109, 44, 103, 105, 99, 45, 118, 51]
}

/// The name of version 4 of the controller.
pub open spec fn gic_v4_name() -> Seq<u8> {
    seq![97u8, 114, 109, 44, 103, 105, 99, 45, 118, 52]
}

/// The version that a name stands for.
pub open spec fn version_of(compatible: Option<Vec<u8>>) -> Option<GicVersion> {
    match compatible {
        Some(name) => if name@ == gic_v4_name() {
            Some(GicVersion::V4)
        } else if name@ == gic_v3_name() {
            Some(GicVersion::V3)
        } else {
            None
        },
        None => None,
    }
}

/// Whether there can be a region of `size` bytes for the controller's
/// registers.
pub open spec fn region_fits(size: usize) -> bool {
    size % 4096 == 0 && ((size + 0xffff) / 0x10000) * 0x10000 <= isize::MAX
}

fn names_equal(a: &Vec<u8>, b: &Vec<u8>) -> (r: bool)
    ensures
        r == (a@ == b@),
{
    if a.len() != b.len() {
        return false;
    }
    let mut i: usize = 0;
    while i < a.len()
        invariant
            a@.len() == b@.len(),
            i <= a@.len(),
            forall|j: int| 0 <= j < i ==> a@[j] == b@[j],
        decreases a@.len() - i,
    {
        if a[i] != b[i] {
            return false;
        }
        i += 1;
    }
    assert(a@ =~= b@);
    true
}

fn region(phys_addr: u64, size: usize) -> (r: Option<RegisterRegion>)
    ensures
        r == (if region_fits(size) {
            Some(
                (RegisterRegion {
                    phys_addr,
                    size,
                    align: GIC_ALIGN,
                    pages: size / BASE_PAGE_SIZE,
                }),
            )
        } else {
            None
        }),
{
    assert(0x10000usize & 0xffffusize == 0) by (bit_vector);
    match crate::pages::aligned_layout(size, GIC_ALIGN) {
        Some((size, align)) => Some(
            RegisterRegion { phys_addr, size, align, pages: size / BASE_PAGE_SIZE },
        ),
        None => None,
    }
}

/// What is to be known of the interrupt controller before it is set up. There
/// is nothing if its version is not supported or its registers cannot be
/// mapped.
pub fn gic_setup(intc: &IntcNode) -> (r: Option<GicSetup>)
    ensures
        r == (if version_of(intc.compatible) is Some && region_fits(intc.gicd_size) && region_fits(
            intc.gicr_size,
        ) {
            Some(
                (GicSetup {
                    version: version_of(intc.compatible)->0,
                    gicd: (RegisterRegion {
                        phys_addr: intc.gicd_start,
                        size: intc.gicd_size,
                        align: GIC_ALIGN,
                        pages: intc.gicd_size / BASE_PAGE_SIZE,
                    }),
                    gicr: (RegisterRegion {
                        phys_addr: intc.gicr_start,
                        size: intc.gicr_size,
                        align: GIC_ALIGN,
                        pages: intc.gicr_size / BASE_PAGE_SIZE,
                    }),
                }),
            )
        } else {
            None
        }),
{
    let v4: Vec<u8> = vec![97u8, 114, 109, 44, 103, 105, 99, 45, 118, 52];
    let v3: Vec<u8> = vec![97u8, 114, 109, 44, 103, 105, 99, 45, 118, 51];
    assert(v4@ =~= gic_v4_name());
    assert(v3@ =~= gic_v3_name());
    let version: GicVersion = match &intc.compatible {
        None => {
            return None;
        },
        Some(name) => if names_equal(name, &v4) {
            GicVersion::V4
        } else if names_equal(name, &v3) {
            GicVersion::V3
        } else {
            return None;
        },
    };
    match (region(intc.gicd_start, intc.gicd_size), region(intc.gicr_start, intc.gicr_size)) {
        (Some(gicd), Some(gicr)) => Some(GicSetup { version, gicd, gicr }),
        _ => None,
    }
}

/// The control register of the core's interface with which an interrupt ends in
/// two steps: bit 1 is set.
pub fn set_eoi_mode_1(ctlr: u64) -> (r: u64)
    ensures
        r == ctlr | 2,
{
    ctlr | 2
}

/// Number of the bits of `mask` below bit `n` that are set.
pub open spec fn ones_below(mask: u8, n: int) -> int
    decreases n,
{
    if n <= 0 {
        0
    } else {
        ones_below(mask, n - 1) + (if (mask >> ((n - 1) as u8)) & 1 == 1 {
            1int
        } else {
            0int
        })
    }
}

/// What the implemented bits of a priority allow.
#[derive(Copy, Clone, Debug, Eq, PartialEq, Structural)]
pub enum PriorityBits {
    /// Too few for any band.
    TooFew,
    /// Enough, though the bands lie closer than planned.
    Tight,
    /// As many as planned.
    Enough,
}

/// Number of priority bits that are implemented, seen from what the priority
/// mask reads back after all bits were written, and what they allow.
pub fn probe_priority_bits(readback: u8) -> (r: (u8, PriorityBits))
    ensures
        r.0 == ones_below(readback, 8),
        r.1 == (if r.0 < 4 {
            PriorityBits::TooFew
        } else if r.0 < 5 {
            PriorityBits::Tight
        } else {
            PriorityBits::Enough
        }),
{
    let mut bits: u8 = 0;
    let mut i: u8 = 0;
    while i < 8
        invariant
            i <= 8,
            bits <= i,
            bits == ones_below(readback, i as int),
        decreases 8 - i,
    {
        if (readback >> i) & 1 == 1 {
            bits += 1;
        }
        i += 1;
    }
    let enough: PriorityBits = if bits < 4 {
        PriorityBits::TooFew
    } else if bits < 5 {
        PriorityBits::Tight
    } else {
        PriorityBits::Enough
    };
    (bits, enough)
}

/// The interrupt of the first device that is compatible with `a` or with `b`,
/// as entry `n` of its `interrupts` has it: nothing if there is no such device.
pub open spec fn interrupt_of(dtb: Seq<u8>, a: Seq<char>, b: Seq<char>, n: int) -> Result<
    Option<InterruptSpec>,
    TreeError,
> {
    match crate::device_tree::device_value(dtb, a, b, "interrupts"@) {
        Err(e) => Err(e),
        Ok(None) => Ok(None),
        Ok(Some(value)) => match interrupt_at(value, n) {
            Some(spec) => Ok(Some(spec)),
            None => Err(TreeError::BadValue),
        },
    }
}

/// The interrupt of the timer.
pub open spec fn timer_of(dtb: Seq<u8>) -> Result<Option<InterruptSpec>, TreeError> {
    interrupt_of(dtb, "arm,armv8-timer"@, "arm,armv7-timer"@, TIMER_ENTRY as int)
}

/// The interrupt of the serial port.
pub open spec fn uart_of(dtb: Seq<u8>) -> Result<Option<InterruptSpec>, TreeError> {
    interrupt_of(dtb, "arm,pl011"@, "arm,pl011"@, UART_ENTRY as int)
}

fn device_interrupt(dtb: &[u8], a: &str, b: &str, n: usize) -> (r: Result<
    Option<InterruptSpec>,
    TreeError,
>)
    requires
        n <= 0xffff,
    ensures
        r == interrupt_of(dtb@, a@, b@, n as int),
{
    match crate::device_tree::find_device_value(dtb, a, b, "interrupts") {
        Err(e) => Err(e),
        Ok(None) => Ok(None),
        Ok(Some(value)) => match parse_interrupt(value.as_slice(), n) {
            Some(spec) => Ok(Some(spec)),
            None => Err(TreeError::BadValue),
        },
    }
}

/// Looks up the interrupt of the timer in the device tree.
pub fn timer_interrupt(dtb: &[u8]) -> (r: Result<Option<InterruptSpec>, TreeError>)
    ensures
        r == timer_of(dtb@),
{
    device_interrupt(dtb, "arm,armv8-timer", "arm,armv7-timer", TIMER_ENTRY)
}

/// Looks up the interrupt of the serial port in the device tree.
pub fn uart_interrupt(dtb: &[u8]) -> (r: Result<Option<InterruptSpec>, TreeError>)
    ensures
        r == uart_of(dtb@),
{
    device_interrupt(dtb, "arm,pl011", "arm,pl011", UART_ENTRY)
}

/// The registers of the controller as the device tree has them: where the
/// distributor and the redistributors lie, with their sizes.
pub open spec fn registers_of(dtb: Seq<u8>) -> Option<(u64, u64, u64, u64)> {
    if !crate::device_tree::regions_readable(dtb, "/intc"@) || !crate::device_tree::node_found(
        dtb,
        "/intc"@,
    ) {
        None
    } else {
        match crate::device_tree::node_regions(dtb, "/intc"@, usize::BITS) {
            None => None,
            Some(regions) => if regions.len() < 2 {
                None
            } else {
                match (regions[0].1, regions[1].1) {
                    (Some(d), Some(r)) => if d <= usize::MAX && r <= usize::MAX {
                        Some((regions[0].0, d, regions[1].0, r))
                    } else {
                        None
                    },
                    _ => None,
                }
            },
        }
    }
}

/// Looks up the interrupt controller in the device tree.
pub fn intc_node(dtb: &[u8]) -> (r: Option<IntcNode>)
    ensures
        match r {
            Some(node) => {
                &&& registers_of(dtb@) == Some(
                    (node.gicd_start, node.gicd_size as u64, node.gicr_start, node.gicr_size as u64),
                )
                &&& crate::device_tree::node_compatible(dtb@, "/intc"@)
                    == crate::device_tree::list_of(node.compatible)
            },
            None => registers_of(dtb@) is None,
        },
{
    let info: NodeInfo = match crate::device_tree::node_info(dtb, "/intc") {
        Ok(info) => info,
        Err(_) => {
            return None;
        },
    };
    if info.regions.len() < 2 {
        return None;
    }
    let (gicd_start, gicd_size) = info.regions[0];
    let (gicr_start, gicr_size) = info.regions[1];
    match (gicd_size, gicr_size) {
        (Some(d), Some(r)) => {
            if d > usize::MAX as u64 || r > usize::MAX as u64 {
                return None;
            }
            Some(
                IntcNode {
                    gicd_start,
                    gicd_size: d as usize,
                    gicr_start,
                    gicr_size: r as usize,
                    compatible: info.compatible,
                },
            )
        },
        _ => None,
    }
}

/// The version of the controller that the device tree names.
pub open spec fn tree_version(dtb: Seq<u8>) -> Option<GicVersion> {
    match crate::device_tree::node_compatible(dtb, "/intc"@) {
        Some(name) => if name == gic_v4_name() {
            Some(GicVersion::V4)
        } else if name == gic_v3_name() {
            Some(GicVersion::V3)
        } else {
            None
        },
        None => None,
    }
}

/// Whether the device tree says all that is needed to set up the controller,
/// and it is supported.
pub open spec fn tree_suffices(dtb: Seq<u8>) -> bool {
    &&& registers_of(dtb) matches Some((_, d, _, r)) && region_fits(d as usize) && region_fits(
        r as usize,
    )
    &&& tree_version(dtb) is Some
    &&& crate::device_tree::cpu_count_of(dtb) is Ok
    &&& timer_of(dtb) is Ok
    &&& timer_of(dtb) matches Ok(Some(t)) ==> t.irq + PPI_START <= 255
    &&& uart_of(dtb) is Ok
    &&& uart_of(dtb) matches Ok(Some(u)) ==> u.irq + SPI_START <= 255
}

/// What setting up the controller from the device tree comes to.
pub struct TreeSetup {
    pub gic: GicSetup,
    pub num_cpus: u32,
    pub plan: InterruptPlan,
}

/// An interrupt that the device tree describes exists.
proof fn lemma_interrupt_exists(dtb: Seq<u8>, a: Seq<char>, b: Seq<char>, n: int)
    ensures
        interrupt_of(dtb, a, b, n) matches Ok(Some(spec))
            ==> crate::arch::aarch64::kernel::interrupts::ids::irq_exists(spec.kind, spec.irq),
{
}

/// Plans setting up the interrupt controller on the core that boots, from what
/// the device tree says, and names the interrupts.
pub fn init_from_tree(dtb: &[u8], cpu_id: usize, features: Features, names: &mut IrqNames) -> (r:
    Option<TreeSetup>)
    requires
        old(names).wf(),
        features.pmr_band ==> cpu_id == 0,
    ensures
        final(names).wf(),
        r is Some == tree_suffices(dtb@),
        match r {
            None => final(names)@ == old(names)@,
            Some(t) => {
                let timer = timer_of(dtb@)->Ok_0;
                let uart = uart_of(dtb@)->Ok_0;
                let (d_start, d_size, r_start, r_size) = registers_of(dtb@)->0;
                &&& Some(t.gic.version) == tree_version(dtb@)
                &&& t.gic.gicd == (RegisterRegion {
                    phys_addr: d_start,
                    size: d_size as usize,
                    align: GIC_ALIGN,
                    pages: d_size as usize / BASE_PAGE_SIZE,
                })
                &&& t.gic.gicr == (RegisterRegion {
                    phys_addr: r_start,
                    size: r_size as usize,
                    align: GIC_ALIGN,
                    pages: r_size as usize / BASE_PAGE_SIZE,
                })
                &&& crate::device_tree::cpu_count_of(dtb@) == Ok::<nat, TreeError>(
                    t.num_cpus as nat,
                )
                &&& t.plan.ops@ == init_ops(cpu_id, timer, uart, features)
                &&& t.plan.timer_interrupt == device_irq(timer)
                &&& t.plan.uart_interrupt == device_irq(uart)
                &&& final(names)@ == init_names(old(names)@, timer, uart, features)
            },
        },
{
    proof {
        lemma_interrupt_exists(
            dtb@,
            "arm,armv8-timer"@,
            "arm,armv7-timer"@,
            TIMER_ENTRY as int,
        );
        lemma_interrupt_exists(dtb@, "arm,pl011"@, "arm,pl011"@, UART_ENTRY as int);
    }
    let intc: IntcNode = match intc_node(dtb) {
        Some(intc) => intc,
        None => {
            return None;
        },
    };
    let num_cpus: u32 = match crate::device_tree::cpu_count(dtb) {
        Ok(n) => n,
        Err(_) => {
            return None;
        },
    };
    let gic: GicSetup = match gic_setup(&intc) {
        Some(gic) => gic,
        None => {
            return None;
        },
    };
    let timer: Option<InterruptSpec> = match timer_interrupt(dtb) {
        Ok(timer) => timer,
        Err(_) => {
            return None;
        },
    };
    let uart: Option<InterruptSpec> = match uart_interrupt(dtb) {
        Ok(uart) => uart,
        Err(_) => {
            return None;
        },
    };
    match timer {
        Some(t) => {
            if t.irq > 239 {
                return None;
            }
        },
        None => {},
    }
    match uart {
        Some(u) => {
            if u.irq > 223 {
                return None;
            }
        },
        None => {},
    }
    let plan: InterruptPlan = init(cpu_id, timer, uart, features, names);
    Some(TreeSetup { gic, num_cpus, plan })
}

} // verus!
