//! What setting up the interrupt controller does: which interrupts are enabled, with which
//! priority, under which name.

use vstd::prelude::*;

use crate::arch::aarch64::kernel::interrupts::gic;
use crate::arch::aarch64::kernel::interrupts::gic::{
    GicOp, GicSetup, GicVersion, IntcNode, InterruptPlan, InterruptSpec,
};
use crate::arch::aarch64::kernel::interrupts::handlers::Features;
use crate::arch::aarch64::kernel::interrupts::statistics::IrqNames;
use crate::device_tree;
use crate::device_tree::TreeError;

verus! {

/// An entry of an `interrupts` property is three big-endian words: 1 or 0 for a private or a
/// shared interrupt, its number, and flags whose low four bits are 1 or 2 for an edge and 4 or
/// 8 for a level. The interrupt must exist.
pub proof fn lemma_interrupt_entry(bytes: Seq<u8>, n: int)
    requires
        0 <= n,
    ensures
        gic::interrupt_at(bytes, n) matches Some(spec) ==> {
            let at = 12 * n;
            &&& at + 12 <= bytes.len()
            &&& bytes[at] == 0 && bytes[at + 1] == 0 && bytes[at + 2] == 0
            &&& spec.kind is Ppi <==> bytes[at + 3] == 1
            &&& spec.kind is Spi <==> bytes[at + 3] == 0
            &&& spec.irq == bytes[at + 4] * 0x100_0000 + bytes[at + 5] * 0x1_0000 + bytes[at + 6]
                * 0x100 + bytes[at + 7]
            &&& spec.kind is Ppi ==> spec.irq < 16
            &&& spec.kind is Spi ==> spec.irq < 988
            &&& spec.trigger is Edge <==> bytes[at + 11] % 16 == 1 || bytes[at + 11] % 16 == 2
            &&& spec.trigger is Level <==> bytes[at + 11] % 16 == 4 || bytes[at + 11] % 16 == 8
        },
{
    let at = 12 * n;
    if at + 12 <= bytes.len() {
        let flags = device_tree::be32(bytes, at + 8) as u32;
        assert((flags & 0xf) == flags % 16) by (bit_vector);
    }
}

/// An entry that is well formed gives an interrupt.
pub proof fn lemma_interrupt_entry_given(bytes: Seq<u8>, n: int)
    requires
        0 <= n,
        12 * n + 12 <= bytes.len(),
        bytes[12 * n] == 0,
        bytes[12 * n + 1] == 0,
        bytes[12 * n + 2] == 0,
        bytes[12 * n + 3] <= 1,
        bytes[12 * n + 4] == 0,
        bytes[12 * n + 5] == 0,
        bytes[12 * n + 6] == 0,
        bytes[12 * n + 7] < 16,
        bytes[12 * n + 11] % 16 == 1 || bytes[12 * n + 11] % 16 == 2 || bytes[12 * n + 11] % 16
            == 4 || bytes[12 * n + 11] % 16 == 8,
    ensures
        gic::interrupt_at(bytes, n) is Some,
{
    let flags = device_tree::be32(bytes, 12 * n + 8) as u32;
    assert((flags & 0xf) == flags % 16) by (bit_vector);
}

/// The number that the controller has for a device's interrupt: private ones from 16, shared
/// ones from 32 on.
pub open spec fn number(device: InterruptSpec) -> int {
    device.irq + (if device.kind is Ppi {
        16int
    } else {
        32
    })
}

/// Whether `op` is one of the three steps for the interrupt of a device that is there: its
/// priority is the highest, 0, it is signalled as the device does, and it is enabled.
pub open spec fn for_device(op: GicOp, device: Option<InterruptSpec>, cpu: usize) -> bool {
    device matches Some(d) && match op {
        GicOp::SetPriority { intid, cpu: c, priority } => intid == number(d) && c == cpu
            && priority == 0,
        GicOp::SetTrigger { intid, cpu: c, trigger } => intid == number(d) && c == cpu && trigger
            == d.trigger,
        GicOp::Enable { intid, cpu: c } => intid == number(d) && c == cpu,
        _ => false,
    }
}

/// Whether `op` is one of the two steps for a software-generated interrupt.
pub open spec fn for_sgi(op: GicOp, sgi: u32, cpu: usize, prio: u8) -> bool {
    match op {
        GicOp::SetPriority { intid, cpu: c, priority } => intid == sgi && c == cpu && priority
            == prio,
        GicOp::Enable { intid, cpu: c } => intid == sgi && c == cpu,
        _ => false,
    }
}

/// Whether `op` is a step for an optional part: continuations are woken by interrupt 11, the
/// test uses 14 and 15, the cooperative band 13 and the real-time band 12.
pub open spec fn for_feature(op: GicOp, features: Features, cpu: usize) -> bool {
    ||| features.continuations && for_sgi(op, 11, cpu, 0x60)
    ||| features.pmr_preempt_spike && for_sgi(op, 14, cpu, 0x40)
    ||| features.pmr_preempt_spike && for_sgi(op, 15, cpu, 0)
    ||| (features.pmr_band || features.pmr_coop_net) && for_sgi(op, 13, cpu, 0x60)
    ||| features.pmr_band && for_sgi(op, 12, cpu, 0x20)
}

/// Whether `op` is one of the first steps: nothing is masked, and interrupts end in two steps
/// where the network runs in the cooperative band.
pub open spec fn for_start(op: GicOp, features: Features) -> bool {
    ||| op == (GicOp::SetPriorityMask { mask: 0xff })
    ||| features.pmr_coop_net && op is SplitEnd
}

proof fn lemma_device_ops(op: GicOp, device: Option<InterruptSpec>, cpu: usize)
    requires
        device matches Some(d) ==> d.irq + 32 <= u32::MAX,
    ensures
        gic::optional_device_ops(device, cpu).contains(op) <==> for_device(op, device, cpu),
{
    if let Some(d) = device {
        let ops = gic::device_ops(d, cpu);
        assert(ops.len() == 3);
        assert(ops[0] is SetPriority && ops[1] is SetTrigger && ops[2] is Enable);
        if for_device(op, device, cpu) {
            match op {
                GicOp::SetPriority { .. } => {
                    assert(ops[0] == op);
                },
                GicOp::SetTrigger { .. } => {
                    assert(ops[1] == op);
                },
                GicOp::Enable { .. } => {
                    assert(ops[2] == op);
                },
                _ => {},
            }
        }
    }
}

proof fn lemma_sgi_ops(op: GicOp, sgi: u8, cpu: usize, priority: u8)
    ensures
        gic::sgi_ops(sgi, cpu, priority).contains(op) <==> for_sgi(op, sgi as u32, cpu, priority),
{
    let ops = gic::sgi_ops(sgi, cpu, priority);
    assert(ops.len() == 2);
    assert(ops[0] is SetPriority && ops[1] is Enable);
    if for_sgi(op, sgi as u32, cpu, priority) {
        match op {
            GicOp::SetPriority { .. } => {
                assert(ops[0] == op);
            },
            GicOp::Enable { .. } => {
                assert(ops[1] == op);
            },
            _ => {},
        }
    }
}

proof fn lemma_start_ops(op: GicOp, features: Features)
    ensures
        gic::starting_ops(features).contains(op) <==> for_start(op, features),
{
    let ops = gic::starting_ops(features);
    assert(ops[0] == (GicOp::SetPriorityMask { mask: 0xff }));
    if features.pmr_coop_net {
        assert(ops[1] is SplitEnd);
    }
}

proof fn lemma_contains_concat(a: Seq<GicOp>, b: Seq<GicOp>, op: GicOp)
    ensures
        (a + b).contains(op) <==> a.contains(op) || b.contains(op),
{
    if a.contains(op) {
        let i = choose|i: int| 0 <= i < a.len() && a[i] == op;
        assert((a + b)[i] == op);
    }
    if b.contains(op) {
        let i = choose|i: int| 0 <= i < b.len() && b[i] == op;
        assert((a + b)[a.len() + i] == op);
    }
    if (a + b).contains(op) {
        let i = choose|i: int| 0 <= i < (a + b).len() && (a + b)[i] == op;
        if i < a.len() {
            assert(a[i] == op);
        } else {
            assert(b[i - a.len()] == op);
        }
    }
}

proof fn lemma_feature_ops(op: GicOp, features: Features, cpu: usize)
    ensures
        gic::feature_ops(features, cpu).contains(op) <==> for_feature(op, features, cpu),
{
    let none = Seq::<GicOp>::empty();
    let cont = if features.continuations {
        gic::sgi_ops(11, cpu, 0x60)
    } else {
        none
    };
    let spike = if features.pmr_preempt_spike {
        gic::sgi_ops(14, cpu, 0x40) + gic::sgi_ops(15, cpu, 0)
    } else {
        none
    };
    let coop = if features.pmr_band || features.pmr_coop_net {
        gic::sgi_ops(13, cpu, 0x60)
    } else {
        none
    };
    let rt = if features.pmr_band {
        gic::sgi_ops(12, cpu, 0x20)
    } else {
        none
    };
    lemma_sgi_ops(op, 11, cpu, 0x60);
    lemma_sgi_ops(op, 14, cpu, 0x40);
    lemma_sgi_ops(op, 15, cpu, 0);
    lemma_sgi_ops(op, 13, cpu, 0x60);
    lemma_sgi_ops(op, 12, cpu, 0x20);
    lemma_contains_concat(gic::sgi_ops(14, cpu, 0x40), gic::sgi_ops(15, cpu, 0), op);
    lemma_contains_concat(cont, spike, op);
    lemma_contains_concat(cont + spike, coop, op);
    lemma_contains_concat(cont + spike + coop, rt, op);
    assert(gic::feature_ops(features, cpu) == cont + spike + coop + rt);
}

/// The core that boots takes exactly these steps, and the mask comes first: the timer's and the
/// serial port's interrupts and interrupt 1, by which the scheduler is run, are set up, and those
/// of the optional parts.
pub proof fn lemma_init_effect(
    op: GicOp,
    cpu: usize,
    timer: Option<InterruptSpec>,
    uart: Option<InterruptSpec>,
    features: Features,
)
    requires
        timer matches Some(t) ==> t.irq + 32 <= u32::MAX,
        uart matches Some(u) ==> u.irq + 32 <= u32::MAX,
    ensures
        gic::init_ops(cpu, timer, uart, features)[0] == (GicOp::SetPriorityMask { mask: 0xff }),
        gic::init_ops(cpu, timer, uart, features).contains(op) <==> for_start(op, features)
            || for_device(op, timer, cpu) || for_device(op, uart, cpu) || for_sgi(op, 1, cpu, 1)
            || for_feature(op, features, cpu),
{
    let s = gic::starting_ops(features);
    let t = gic::optional_device_ops(timer, cpu);
    let u = gic::optional_device_ops(uart, cpu);
    let r = gic::sgi_ops(1, cpu, 1);
    let f = gic::feature_ops(features, cpu);
    lemma_start_ops(op, features);
    lemma_device_ops(op, timer, cpu);
    lemma_device_ops(op, uart, cpu);
    lemma_sgi_ops(op, 1, cpu, 1);
    lemma_feature_ops(op, features, cpu);
    lemma_contains_concat(s, t, op);
    lemma_contains_concat(s + t, u, op);
    lemma_contains_concat(s + t + u, r, op);
    lemma_contains_concat(s + t + u + r, f, op);
    assert(gic::init_ops(cpu, timer, uart, features) == s + t + u + r + f);
}

/// Another core takes exactly these steps: it first lets interrupts of the group in use come,
/// and sets up all but the serial port.
pub proof fn lemma_init_cpu_effect(
    op: GicOp,
    cpu: usize,
    timer: Option<InterruptSpec>,
    features: Features,
)
    requires
        timer matches Some(t) ==> t.irq + 32 <= u32::MAX,
    ensures
        gic::init_cpu_ops(cpu, timer, features)[0] is EnableGroup1,
        gic::init_cpu_ops(cpu, timer, features)[1] == (GicOp::SetPriorityMask { mask: 0xff }),
        gic::init_cpu_ops(cpu, timer, features).contains(op) <==> op is EnableGroup1 || for_start(
            op,
            features,
        ) || for_device(op, timer, cpu) || for_sgi(op, 1, cpu, 1) || for_feature(
            op,
            features,
            cpu,
        ),
{
    let g = seq![GicOp::EnableGroup1];
    let s = gic::starting_ops(features);
    let t = gic::optional_device_ops(timer, cpu);
    let r = gic::sgi_ops(1, cpu, 1);
    let f = gic::feature_ops(features, cpu);
    assert(g.contains(op) <==> op is EnableGroup1) by {
        assert(g[0] is EnableGroup1);
    }
    lemma_start_ops(op, features);
    lemma_device_ops(op, timer, cpu);
    lemma_sgi_ops(op, 1, cpu, 1);
    lemma_feature_ops(op, features, cpu);
    lemma_contains_concat(g, s, op);
    lemma_contains_concat(g + s, t, op);
    lemma_contains_concat(g + s + t, r, op);
    lemma_contains_concat(g + s + t + r, f, op);
    assert(gic::init_cpu_ops(cpu, timer, features) == g + s + t + r + f);
}

/// Interrupts get names: the software-generated ones of the optional parts their own, and all
/// others keep theirs.
pub proof fn lemma_feature_names_effect(names: Map<u8, Seq<char>>, features: Features, k: u8)
    ensures
        ({
            let all = gic::feature_names(names, features);
            let name = if k == 11 && features.continuations {
                Some("ContWake"@)
            } else if k == 14 && features.pmr_preempt_spike {
                Some("PmrTestLo"@)
            } else if k == 15 && features.pmr_preempt_spike {
                Some("PmrTestHi"@)
            } else if k == 13 && (features.pmr_band || features.pmr_coop_net) {
                Some("CoopWake"@)
            } else if k == 12 && features.pmr_band {
                Some("RtBridge"@)
            } else {
                None::<Seq<char>>
            };
            &&& name matches Some(n) ==> all.contains_key(k) && all[k] == n
            &&& name is None ==> all.contains_key(k) == names.contains_key(k) && all[k] == names[k]
        }),
{
}

/// On the core that boots interrupt 1 is named for rescheduling, the timer's and the serial
/// port's after them, where none of the optional parts has the number.
pub proof fn lemma_init_names_effect(
    names: Map<u8, Seq<char>>,
    timer: Option<InterruptSpec>,
    uart: Option<InterruptSpec>,
    features: Features,
    k: u8,
)
    requires
        timer matches Some(t) ==> t.irq + 16 <= 255,
        uart matches Some(u) ==> u.irq + 32 <= 255,
        k < 11 || k > 15,
    ensures
        ({
            let all = gic::init_names(names, timer, uart, features);
            let is_uart = uart matches Some(u) && k == u.irq + 32;
            let is_timer = timer matches Some(t) && k == t.irq + 16;
            &&& k == 1 ==> all.contains_key(k) && all[k] == "Reschedule"@
            &&& k != 1 && is_uart ==> all.contains_key(k) && all[k] == "UART"@
            &&& k != 1 && !is_uart && is_timer ==> all.contains_key(k) && all[k] == "Timer"@
            &&& k != 1 && !is_uart && !is_timer ==> all.contains_key(k) == names.contains_key(k)
                && all[k] == names[k]
        }),
{
    let a = match timer {
        Some(t) => names.insert((t.irq + 16) as u8, "Timer"@),
        None => names,
    };
    let b = match uart {
        Some(u) => a.insert((u.irq + 32) as u8, "UART"@),
        None => a,
    };
    lemma_feature_names_effect(b.insert(1, "Reschedule"@), features, k);
}

/// The number of a device's interrupt is the one that the device tree has; 0 stands for none.
pub proof fn lemma_device_irq_effect(device: Option<InterruptSpec>)
    ensures
        device is None ==> gic::device_irq(device) == 0,
        device matches Some(d) ==> gic::device_irq(device) == d.irq,
{
}

/// The controller is of version 3 or 4 exactly if its first compatible name is `arm,gic-v3` or
/// `arm,gic-v4`.
pub proof fn lemma_version_effect(dtb: Seq<u8>, name: Vec<u8>)
    ensures
        gic::version_of(Some(name)) == Some(GicVersion::V3) <==> name@ == seq![
            0x61u8, 0x72, 0x6d, 0x2c, 0x67, 0x69, 0x63, 0x2d, 0x76, 0x33,
        ],
        gic::version_of(Some(name)) == Some(GicVersion::V4) <==> name@ == seq![
            0x61u8, 0x72, 0x6d, 0x2c, 0x67, 0x69, 0x63, 0x2d, 0x76, 0x34,
        ],
        gic::version_of(None) is None,
        device_tree::node_compatible(dtb, "/intc"@) == Some(name@) ==> gic::tree_version(dtb)
            == gic::version_of(Some(name)),
        device_tree::node_compatible(dtb, "/intc"@) is None ==> gic::tree_version(dtb) is None,
{
    assert(gic::gic_v3_name()[9] == 0x33);
    assert(gic::gic_v4_name()[9] == 0x34);
}

/// The registers of the controller are the first two regions of `/intc`: the distributor's and
/// the redistributors', each with its size.
pub proof fn lemma_registers_effect(dtb: Seq<u8>)
    ensures
        gic::registers_of(dtb) matches Some((d, d_size, r, r_size)) ==> {
            &&& device_tree::node_found(dtb, "/intc"@)
            &&& device_tree::node_regions(dtb, "/intc"@, usize::BITS) matches Some(regions)
                && regions.len() >= 2 && regions[0] == (d, Some(d_size)) && regions[1] == (
                r,
                Some(r_size),
            )
        },
{
}

/// The timer's interrupt is the second entry of the timer's `interrupts`, the serial port's is
/// the first entry of its own. A device that is not there has none.
pub proof fn lemma_device_interrupts_effect(dtb: Seq<u8>)
    ensures
        ({
            let value = device_tree::device_value(
                dtb,
                "arm,armv8-timer"@,
                "arm,armv7-timer"@,
                "interrupts"@,
            );
            &&& value matches Ok(Some(bytes)) ==> gic::timer_of(dtb) == (match gic::interrupt_at(
                bytes,
                1,
            ) {
                Some(spec) => Ok(Some(spec)),
                None => Err(TreeError::BadValue),
            })
            &&& value matches Ok(None) ==> gic::timer_of(dtb) == Ok::<
                Option<InterruptSpec>,
                TreeError,
            >(None)
            &&& value matches Err(e) ==> gic::timer_of(dtb) == Err::<
                Option<InterruptSpec>,
                TreeError,
            >(e)
        }),
        ({
            let value = device_tree::device_value(
                dtb,
                "arm,pl011"@,
                "arm,pl011"@,
                "interrupts"@,
            );
            &&& value matches Ok(Some(bytes)) ==> gic::uart_of(dtb) == (match gic::interrupt_at(
                bytes,
                0,
            ) {
                Some(spec) => Ok(Some(spec)),
                None => Err(TreeError::BadValue),
            })
            &&& value matches Ok(None) ==> gic::uart_of(dtb) == Ok::<
                Option<InterruptSpec>,
                TreeError,
            >(None)
            &&& value matches Err(e) ==> gic::uart_of(dtb) == Err::<
                Option<InterruptSpec>,
                TreeError,
            >(e)
        }),
{
}

/// A region for the controller's registers has whole pages, and any whole number of pages has
/// one unless it comes near the end of what a size can be.
pub proof fn lemma_region_effect(size: usize)
    ensures
        gic::region_fits(size) ==> size % 4096 == 0 && size <= isize::MAX,
        size % 4096 == 0 && size + 0xffff <= isize::MAX ==> gic::region_fits(size),
{
}

/// The number of priority bits is the number of ones that are read back.
pub proof fn lemma_priority_bits_effect(mask: u8)
    ensures
        gic::ones_below(mask, 8) == mask % 2 + (mask / 2) % 2 + (mask / 4) % 2 + (mask / 8) % 2 + (
        mask / 16) % 2 + (mask / 32) % 2 + (mask / 64) % 2 + (mask / 128) % 2,
{
    reveal_with_fuel(gic::ones_below, 9);
    assert((mask >> 0u8) & 1 == mask % 2 && (mask >> 1u8) & 1 == (mask / 2) % 2 && (mask >> 2u8) & 1
        == (mask / 4) % 2 && (mask >> 3u8) & 1 == (mask / 8) % 2 && (mask >> 4u8) & 1 == (mask / 16)
        % 2 && (mask >> 5u8) & 1 == (mask / 32) % 2 && (mask >> 6u8) & 1 == (mask / 64) % 2 && (mask
        >> 7u8) & 1 == (mask / 128) % 2) by (bit_vector);
}

/// Setting up the controller on a core enables the interrupt by which the scheduler is run, and
/// the timer's if there is one, on that core. The core that boots knows the timer's number then.
pub proof fn lemma_init_results(
    cpu: usize,
    timer: Option<InterruptSpec>,
    uart: Option<InterruptSpec>,
    features: Features,
    names: &mut IrqNames,
    r: InterruptPlan,
    ready: bool,
    more: &mut IrqNames,
    q: Option<Vec<GicOp>>,
)
    requires
        timer matches Some(t) ==> t.irq + 32 <= 255,
        uart matches Some(u) ==> u.irq + 32 <= 255,
        call_ensures(gic::init, (cpu, timer, uart, features, names), r),
        call_ensures(gic::init_cpu, (cpu, ready, timer, features, more), q),
    ensures
        r.ops@.contains(GicOp::Enable { intid: 1, cpu }),
        r.ops@.contains(GicOp::SetPriority { intid: 1, cpu, priority: 1 }),
        timer matches Some(t) ==> r.timer_interrupt == t.irq && r.ops@.contains(
            GicOp::Enable { intid: number(t) as u32, cpu },
        ) && r.ops@.contains(
            GicOp::SetTrigger { intid: number(t) as u32, cpu, trigger: t.trigger },
        ),
        uart matches Some(u) ==> r.uart_interrupt == u.irq && r.ops@.contains(
            GicOp::Enable { intid: number(u) as u32, cpu },
        ),
        final(names)@.contains_key(1),
        final(names)@[1] == "Reschedule"@,
        q is Some <==> ready,
        q matches Some(ops) ==> ops@.contains(GicOp::Enable { intid: 1, cpu }),
        q is None ==> final(more)@ == old(more)@,
{
    lemma_init_effect(GicOp::Enable { intid: 1, cpu }, cpu, timer, uart, features);
    lemma_init_effect(
        GicOp::SetPriority { intid: 1, cpu, priority: 1 },
        cpu,
        timer,
        uart,
        features,
    );
    lemma_init_cpu_effect(GicOp::Enable { intid: 1, cpu }, cpu, timer, features);
    if let Some(t) = timer {
        lemma_init_effect(
            GicOp::Enable { intid: number(t) as u32, cpu },
            cpu,
            timer,
            uart,
            features,
        );
        lemma_init_effect(
            GicOp::SetTrigger { intid: number(t) as u32, cpu, trigger: t.trigger },
            cpu,
            timer,
            uart,
            features,
        );
    }
    if let Some(u) = uart {
        lemma_init_effect(
            GicOp::Enable { intid: number(u) as u32, cpu },
            cpu,
            timer,
            uart,
            features,
        );
    }
    lemma_init_names_effect(old(names)@, timer, uart, features, 1);
}

/// The registers of the controller are mapped where the device tree has them, whole pages of
/// them, at 64 KiB boundaries.
pub proof fn lemma_gic_setup_result(intc: IntcNode, r: Option<GicSetup>)
    requires
        call_ensures(gic::gic_setup, (&intc,), r),
    ensures
        r matches Some(s) ==> {
            &&& gic::version_of(intc.compatible) == Some(s.version)
            &&& s.gicd.phys_addr == intc.gicd_start
            &&& s.gicd.size == intc.gicd_size
            &&& s.gicd.pages * 4096 == intc.gicd_size
            &&& s.gicd.align == 0x1_0000
            &&& s.gicr.phys_addr == intc.gicr_start
            &&& s.gicr.size == intc.gicr_size
            &&& s.gicr.pages * 4096 == intc.gicr_size
            &&& s.gicr.align == 0x1_0000
        },
        r is None ==> gic::version_of(intc.compatible) is None || intc.gicd_size % 4096 != 0
            || intc.gicr_size % 4096 != 0 || intc.gicd_size + 0xffff > isize::MAX || intc.gicr_size
            + 0xffff > isize::MAX,
{
    lemma_region_effect(intc.gicd_size);
    lemma_region_effect(intc.gicr_size);
}

} // verus!
