use hermit::arch::aarch64::kernel::core_local::CoreLocal;
use hermit::arch::aarch64::kernel::interrupts::double_fault::{do_double_fault, DfAction, DfFlavor};
use hermit::arch::aarch64::kernel::interrupts::fault_report::{
    data_fault_report, frame_chain, slot_place, stack_report, DataFault, ReturnTrace, SLOT_BASE,
};
use hermit::arch::aarch64::kernel::interrupts::frame_dump::{check_resume_x0, FrameDumps, Hit};
use hermit::arch::aarch64::kernel::interrupts::gic::{
    gic_setup, init, init_cpu, parse_interrupt, probe_priority_bits, set_eoi_mode_1, GicOp,
    GicVersion, IntcNode, InterruptSpec, PriorityBits, Trigger,
};
use hermit::arch::aarch64::kernel::interrupts::handlers::{
    install_handlers, Features, Handler, InterruptHandlers,
};
use hermit::arch::aarch64::kernel::interrupts::ids::{
    peripheral, pend_sgi_to_self, sgi, sgi_value, wakeup_core, IrqKind, SGI_COOP_WAKE,
    SGI_PMRTEST_HI, SGI_PMRTEST_LO, SGI_RESCHED,
};
use hermit::arch::aarch64::kernel::interrupts::irq::{
    do_fiq, do_irq, finish_test, EndOfInterrupt, IrqStart,
};
use hermit::arch::aarch64::kernel::interrupts::pmr::{
    pmr_spike_dispatch, pmr_spike_trigger, BandHarness, CoopBand, CoopNetHarness, CoopNetStep,
    PmrCeiling, PriorityMask, SpikeStep,
};
use hermit::arch::aarch64::kernel::interrupts::statistics::{IrqCounters, IrqNames, IrqStatistics};
use hermit::arch::aarch64::kernel::interrupts::sync::{
    check_slot, do_error, FatalAction, SlotFault,
};
use hermit::arch::aarch64::kernel::interrupts::syndrome::{classify, SyncKind};
use hermit::arch::aarch64::kernel::print_statistics;
use hermit::memory::Memory;
use hermit::scheduler::task::{FrameLocation, TaskId};

fn features(band: bool, coop: bool, spike: bool) -> Features {
    Features {
        pmr_preempt_spike: spike,
        pmr_band: band,
        pmr_coop_net: coop,
        continuations: false,
    }
}

fn first_core() -> CoreLocal {
    CoreLocal::install(0, 0x10_0000, 0x1000, 0x100_0000)
}

#[test]
fn identifiers_of_interrupts() {
    assert_eq!(sgi(SGI_RESCHED), 1);
    assert_eq!(peripheral(IrqKind::Ppi, 14), 30);
    assert_eq!(peripheral(IrqKind::Spi, 1), 33);
}

#[test]
fn values_that_send_interrupts() {
    assert_eq!(wakeup_core(3), (1 << 24) | 8);
    assert_eq!(pend_sgi_to_self(SGI_COOP_WAKE), (13 << 24) | 1);
    assert_eq!(sgi_value(11, 0), 0x0b00_0001);
}

#[test]
fn double_faults() {
    assert_eq!(do_double_fault(0), DfAction::FailStop);
    assert_eq!(do_double_fault(1), DfAction::FailStop);
    assert_eq!(do_double_fault(2), DfAction::KillTask);
    assert_eq!(do_double_fault(3), DfAction::KillTask);
    assert_eq!(do_double_fault(77), DfAction::FailStop);
    assert_eq!(DfFlavor::from_u64(77), DfFlavor::El1hSync);
}

#[test]
fn names_and_statistics() {
    let mut names = IrqNames::new();
    names.insert(1, "Reschedule");
    names.add_irq_name(1, "UART");
    assert_eq!(names.get_irq_name(33), Some("UART"));
    assert_eq!(names.get_irq_name(2), None);
    let mut first = IrqStatistics::new();
    let mut second = IrqStatistics::new();
    first.inc(33);
    first.inc(33);
    second.inc(7);
    let mut counters = IrqCounters::new();
    counters.add_irq_counter(1, &second);
    counters.add_irq_counter(0, &first);
    let lines = print_statistics(&counters, &names);
    assert_eq!(lines.len(), 2);
    assert_eq!((lines[0].core_id, lines[0].irq, lines[0].counter), (0, 33, 2));
    assert_eq!(lines[0].name, Some("UART"));
    assert_eq!((lines[1].core_id, lines[1].irq, lines[1].counter), (1, 7, 1));
    assert_eq!(lines[1].name, None);
}

#[test]
fn a_core_has_one_place_in_the_statistics() {
    let names = IrqNames::new();
    let empty = IrqStatistics::new();
    let mut full = IrqStatistics::new();
    full.inc(5);
    let mut counters = IrqCounters::new();
    counters.add_irq_counter(4, &full);
    counters.add_irq_counter(4, &empty);
    assert_eq!(print_statistics(&counters, &names).len(), 0);
}

#[test]
fn handlers_are_installed() {
    let old = vec![(1u8, vec![70u64, 71]), (5, vec![80])];
    let all = Features {
        pmr_preempt_spike: true,
        pmr_band: true,
        pmr_coop_net: true,
        continuations: true,
    };
    let h: InterruptHandlers = install_handlers(&old, 14, 1, all);
    assert_eq!(h.get(30), vec![Handler::Timer]);
    assert_eq!(h.get(33), vec![Handler::Driver(70), Handler::Driver(71), Handler::Uart]);
    assert_eq!(h.get(37), vec![Handler::Driver(80)]);
    assert_eq!(h.get(13), vec![Handler::CoopWake]);
    assert_eq!(h.get(12), vec![Handler::RtBridge]);
    assert_eq!(h.get(11), vec![Handler::ContWake]);
    assert_eq!(h.get(99), vec![]);
    let h = install_handlers(&old, 14, 1, features(false, false, false));
    assert_eq!(h.get(13), vec![]);
}

#[test]
fn interrupts_nest() {
    let f = features(true, true, false);
    let mut core = first_core();
    assert!(matches!(take_irq(&mut core, None, None, f), IrqStart::Spurious));
    assert_eq!(core.rt_nest_depth, 0);
    let h = install_handlers(&vec![], 14, 1, f);
    match take_irq(&mut core, Some(30), Some(&h), f) {
        IrqStart::Handle { vector, handlers } => {
            assert_eq!(vector, 30);
            assert_eq!(handlers, vec![Handler::Timer]);
        }
        _ => panic!("not handled"),
    }
    assert_eq!((core.rt_nest_depth, core.eoi_inflight, core.in_irq), (1, 1, true));
    match do_fiq(&mut core, Some(13), Some(&h), f) {
        IrqStart::Handle { vector, handlers } => {
            assert_eq!(vector, 13);
            assert_eq!(handlers, vec![Handler::CoopWake]);
        }
        _ => panic!("not handled"),
    }
    assert_eq!((core.rt_nest_depth, core.eoi_inflight), (2, 2));
    assert_eq!(finish_test(&mut core, f, 13), EndOfInterrupt::Split { intid: 13 });
    assert_eq!((core.rt_nest_depth, core.eoi_inflight, core.in_irq), (1, 1, false));
}

#[test]
fn test_interrupts_are_handled_apart() {
    let f = features(false, false, true);
    let mut core = first_core();
    match take_irq(&mut core, Some(15), None, f) {
        IrqStart::Test { vector } => assert_eq!(vector, 15),
        _ => panic!("no test interrupt"),
    }
    assert_eq!(finish_test(&mut core, f, 15), EndOfInterrupt::Combined { intid: 15 });
    let off = features(false, false, false);
    assert!(matches!(take_irq(&mut core, Some(15), None, off), IrqStart::Handle { .. }));
    assert!(matches!(do_fiq(&mut core, Some(15), None, f), IrqStart::Handle { .. }));
}

fn take_irq(
    core_local: &mut CoreLocal,
    acked: Option<u32>,
    handlers: Option<&InterruptHandlers>,
    f: Features,
) -> IrqStart {
    let mut memory = Memory::new();
    memory.map_zeroed(0x4000, 36);
    let mut dumps = FrameDumps { count: 0 };
    let entry =
        do_irq(core_local, &mut dumps, Some(TaskId(2)), &memory, 0x4000, acked, handlers, f);
    assert_eq!(entry.dump, None);
    assert_eq!(entry.resume, None);
    entry.start
}

#[test]
fn an_interrupt_reports_a_corrupted_frame() {
    let mut memory = Memory::new();
    memory.map_zeroed(0x4000, 36);
    memory.write(0x4000, 1);
    memory.write(0x4000 + 8 * 7, 0x6000_0207);
    let mut dumps = FrameDumps { count: 0 };
    let f = features(false, false, false);
    let entry = do_irq(
        &mut first_core(),
        &mut dumps,
        Some(TaskId(1)),
        &memory,
        0x4000,
        None,
        None,
        f,
    );
    assert_eq!(entry.dump, None);
    assert_eq!(entry.resume.unwrap()[2], 0x6000_0207);
    assert_eq!(dumps.count, 0);
}

#[test]
fn a_ceiling_is_dropped_again() {
    let mut pmr = PriorityMask { mask: 0xff };
    let outer = PmrCeiling::raise(&mut pmr, 0x60);
    let inner = PmrCeiling::raise(&mut pmr, 0x20);
    assert_eq!(pmr.mask, 0x20);
    inner.release(&mut pmr);
    assert_eq!(pmr.mask, 0x60);
    outer.release(&mut pmr);
    assert_eq!(pmr.mask, 0xff);
}

#[test]
fn the_bands_wake_each_other() {
    let mut band = CoopBand { wake_pending: false, triggered: false, waker: false };
    let mut pmr = PriorityMask { mask: 0xff };
    assert!(!band.poll());
    let wakeup = band.rt_bridge_handler(&mut pmr);
    assert_eq!(wakeup.sgi, (13 << 24) | 1);
    assert!(wakeup.wake);
    assert_eq!(pmr.mask, 0xff);
    assert!(!band.wake_coop_future().wake);
    band.coop_wake_handler();
    assert!(band.wake_pending);
    assert!(band.poll());
}

#[test]
fn the_trials_run_once() {
    let mut band = BandHarness { done: false };
    assert_eq!(band.pmr_band_maybe_trigger(1), None);
    assert_eq!(band.pmr_band_maybe_trigger(0), Some((12 << 24) | 1));
    assert_eq!(band.pmr_band_maybe_trigger(0), None);
    let mut net = CoopNetHarness { armed: false, probe_polled: false, pass_emitted: false };
    assert_eq!(net.pmr_coop_net_maybe_trigger(2, true, 0), CoopNetStep::Wait);
    assert_eq!(net.pmr_coop_net_maybe_trigger(0, true, 0), CoopNetStep::Arm);
    assert_eq!(net.pmr_coop_net_maybe_trigger(0, true, 0), CoopNetStep::Wait);
    net.probe_polled = true;
    assert_eq!(net.pmr_coop_net_maybe_trigger(0, true, 1), CoopNetStep::Wait);
    assert_eq!(net.pmr_coop_net_maybe_trigger(0, true, 0), CoopNetStep::Pass);
    assert_eq!(net.pmr_coop_net_maybe_trigger(0, true, 0), CoopNetStep::Wait);
}

#[test]
fn the_test_of_nested_preemption() {
    assert_eq!(pmr_spike_trigger(), (14 << 24) | 1);
    assert_eq!(pmr_spike_dispatch(SGI_PMRTEST_HI), vec![SpikeStep::SetFlag { came: true }]);
    assert_eq!(pmr_spike_dispatch(3), vec![]);
    let steps = pmr_spike_dispatch(SGI_PMRTEST_LO);
    assert_eq!(steps.len(), 16);
    assert_eq!(steps[1], SpikeStep::SetMask { mask: 0x40 });
    assert_eq!(steps[9], SpikeStep::SetMask { mask: 0 });
    assert_eq!(steps[15], SpikeStep::Report { blocked_expected: true });
}

#[test]
fn interrupts_of_the_device_tree() {
    let timer = [0, 0, 0, 1, 0, 0, 0, 13, 0, 0, 0, 4, 0, 0, 0, 1, 0, 0, 0, 14, 0, 0, 1, 4];
    assert_eq!(
        parse_interrupt(&timer, 1),
        Some(InterruptSpec { kind: IrqKind::Ppi, irq: 14, trigger: Trigger::Level })
    );
    let uart = [0, 0, 0, 0, 0, 0, 0, 1, 0, 0, 0, 1];
    assert_eq!(
        parse_interrupt(&uart, 0),
        Some(InterruptSpec { kind: IrqKind::Spi, irq: 1, trigger: Trigger::Edge })
    );
    assert_eq!(parse_interrupt(&uart, 1), None);
    assert_eq!(parse_interrupt(&[0, 0, 0, 2, 0, 0, 0, 1, 0, 0, 0, 1], 0), None);
    assert_eq!(parse_interrupt(&[0, 0, 0, 0, 0, 0, 0, 1, 0, 0, 0, 3], 0), None);
    assert_eq!(parse_interrupt(&[0, 0, 0, 1, 0, 0, 0, 16, 0, 0, 0, 1], 0), None);
}

#[test]
fn the_controller_is_set_up() {
    let timer = Some(InterruptSpec { kind: IrqKind::Ppi, irq: 14, trigger: Trigger::Level });
    let uart = Some(InterruptSpec { kind: IrqKind::Spi, irq: 1, trigger: Trigger::Edge });
    let mut names = IrqNames::new();
    let plan = init(0, timer, uart, features(false, false, false), &mut names);
    assert_eq!((plan.timer_interrupt, plan.uart_interrupt), (14, 1));
    assert_eq!(
        plan.ops,
        vec![
            GicOp::SetPriorityMask { mask: 0xff },
            GicOp::SetPriority { intid: 30, cpu: 0, priority: 0 },
            GicOp::SetTrigger { intid: 30, cpu: 0, trigger: Trigger::Level },
            GicOp::Enable { intid: 30, cpu: 0 },
            GicOp::SetPriority { intid: 33, cpu: 0, priority: 0 },
            GicOp::SetTrigger { intid: 33, cpu: 0, trigger: Trigger::Edge },
            GicOp::Enable { intid: 33, cpu: 0 },
            GicOp::SetPriority { intid: 1, cpu: 0, priority: 1 },
            GicOp::Enable { intid: 1, cpu: 0 },
        ]
    );
    assert_eq!(names.get_irq_name(30), Some("Timer"));
    assert_eq!(names.get_irq_name(33), Some("UART"));
    assert_eq!(names.get_irq_name(1), Some("Reschedule"));
    let mut names = IrqNames::new();
    assert_eq!(init_cpu(1, false, timer, features(false, true, false), &mut names), None);
    let ops = init_cpu(1, true, None, features(false, true, false), &mut names).unwrap();
    assert_eq!(
        ops,
        vec![
            GicOp::EnableGroup1,
            GicOp::SetPriorityMask { mask: 0xff },
            GicOp::SplitEnd,
            GicOp::SetPriority { intid: 1, cpu: 1, priority: 1 },
            GicOp::Enable { intid: 1, cpu: 1 },
            GicOp::SetPriority { intid: 13, cpu: 1, priority: 0x60 },
            GicOp::Enable { intid: 13, cpu: 1 },
        ]
    );
    assert_eq!(names.get_irq_name(13), Some("CoopWake"));
    assert_eq!(set_eoi_mode_1(5), 7);
}

#[test]
fn versions_of_the_controller() {
    let node = |name: Option<&str>, size: usize| IntcNode {
        gicd_start: 0x800_0000,
        gicd_size: size,
        gicr_start: 0x80a_0000,
        gicr_size: 0xf6_0000,
        compatible: name.map(|n| n.as_bytes().to_vec()),
    };
    let setup = gic_setup(&node(Some("arm,gic-v3"), 0x10000)).unwrap();
    assert_eq!(setup.version, GicVersion::V3);
    assert_eq!((setup.gicd.pages, setup.gicr.pages), (16, 0xf60));
    assert_eq!(setup.gicd.align, 0x10000);
    let setup = gic_setup(&node(Some("arm,gic-v4"), 0x10000)).unwrap();
    assert_eq!(setup.version, GicVersion::V4);
    assert_eq!(gic_setup(&node(Some("arm,gic-400"), 0x10000)), None);
    assert_eq!(gic_setup(&node(None, 0x10000)), None);
    assert_eq!(gic_setup(&node(Some("arm,gic-v3"), 0x10001)), None);
}

#[test]
fn priority_bits_are_probed() {
    assert_eq!(probe_priority_bits(0xf8), (5, PriorityBits::Enough));
    assert_eq!(probe_priority_bits(0xf0), (4, PriorityBits::Tight));
    assert_eq!(probe_priority_bits(0xe0), (3, PriorityBits::TooFew));
    assert_eq!(probe_priority_bits(0xff), (8, PriorityBits::Enough));
}

#[test]
fn syndromes() {
    assert_eq!(classify(0x25 << 26), Some(SyncKind::PageFault));
    assert_eq!(classify(0x24 << 26 | 0x7), Some(SyncKind::PageFault));
    assert_eq!(classify(0x25 << 26 | 0x400), Some(SyncKind::UnknownAbort));
    assert_eq!(classify(0x3c << 26), Some(SyncKind::DebugTrap));
    assert_eq!(classify(0x20 << 26), Some(SyncKind::InstructionAbort));
    assert_eq!(classify(0x21 << 26), Some(SyncKind::InstructionAbort));
    assert_eq!(classify(0x07 << 26), Some(SyncKind::FloatingPoint));
    assert_eq!(classify(0), Some(SyncKind::Unsupported));
    assert_eq!(classify(0x15 << 26), Some(SyncKind::Unsupported));
    assert_eq!(classify(0x02 << 26), None);
    assert_eq!(classify(0x3f << 26), None);
    assert_eq!(classify(1 << 25 | 0x25 << 26), Some(SyncKind::PageFault));
}

#[test]
fn every_class_of_exceptions() {
    let known = [
        0x00, 0x01, 0x03, 0x04, 0x05, 0x06, 0x07, 0x0a, 0x0c, 0x0d, 0x0e, 0x11, 0x14, 0x15, 0x16,
        0x17, 0x18, 0x19, 0x1b, 0x1c, 0x1d, 0x20, 0x21, 0x22, 0x24, 0x25, 0x26, 0x27, 0x28, 0x2c,
        0x2d, 0x2f, 0x30, 0x31, 0x32, 0x33, 0x34, 0x35, 0x38, 0x3c, 0x3d,
    ];
    for ec in 0..64u64 {
        assert_eq!(classify(ec << 26).is_some(), known.contains(&ec), "class {ec}");
    }
}

#[test]
fn frames_lie_in_their_slots() {
    assert_eq!(check_slot(0x3e4, 0x5000, 0x5000, FrameLocation::InSlot), Ok(()));
    assert_eq!(
        check_slot(0x3e4, 0x5000, 0x6000, FrameLocation::InSlot),
        Err(SlotFault::WrongStack)
    );
    assert_eq!(
        check_slot(0x3e4, 0x5000, 0x5000, FrameLocation::Evicted),
        Err(SlotFault::NotInSlot)
    );
    assert_eq!(check_slot(0x3e5, 1, 2, FrameLocation::Evicted), Ok(()));
    assert_eq!(do_error(0x3e5, 1, 2, FrameLocation::Evicted), FatalAction::EndTask);
    assert_eq!(
        do_error(0x3e4, 1, 2, FrameLocation::InSlot),
        FatalAction::Stop { fault: SlotFault::WrongStack }
    );
}

#[test]
fn places_among_the_slots() {
    assert_eq!(slot_place(SLOT_BASE - 0x11001), None);
    assert_eq!(slot_place(SLOT_BASE + 3 * 0x11000), None);
    let p = slot_place(SLOT_BASE - 0x10).unwrap();
    assert_eq!((p.offset, p.underflow, p.slot_idx, p.within), (-0x10, true, 0, -0x10));
    let p = slot_place(SLOT_BASE - 0x11000).unwrap();
    assert_eq!((p.slot_idx, p.within, p.in_guard), (-1, 0, false));
    let p = slot_place(SLOT_BASE + 0x11000 + 0x10008).unwrap();
    assert_eq!((p.slot_idx, p.within, p.in_guard, p.underflow), (1, 0x10008, true, false));
}

fn memory(base: u64, n: u64) -> Memory {
    let mut memory = Memory::new();
    memory.map_zeroed(base, n);
    memory
}

#[test]
fn reports_of_data_faults() {
    let mut m = memory(0x9000, 16);
    m.write(0x9008, 42);
    let fault = DataFault {
        far: SLOT_BASE,
        pc: 0x10,
        sp_el0: 0x9000,
        kernel_stack_top: 0x9000,
        image_start: 0x20,
        trace: ReturnTrace { spsr: 0x3c5, resume_sp: 1, scratch_slot: 2 },
    };
    let report = data_fault_report(&fault, &m);
    assert_eq!(report.link_pc, u64::MAX - 15);
    assert!(report.sp_at_top && !report.far_at_top && !report.sp_at_far);
    assert!(report.to_kernel && report.clobbered);
    assert_eq!(report.place.unwrap().offset, 0);
    let stack = report.user_stack.unwrap();
    assert_eq!(stack.len(), 16);
    assert_eq!(stack[1], 42);
    let fault = DataFault { far: 0x9000, sp_el0: 0x9001, ..fault };
    let report = data_fault_report(&fault, &m);
    assert!(report.place.is_none() && report.user_stack.is_none());
    let fault = DataFault {
        trace: ReturnTrace { spsr: 0x3c4, resume_sp: 1, scratch_slot: 2 },
        ..fault
    };
    assert!(!data_fault_report(&fault, &m).clobbered);
}

#[test]
fn reports_of_stacks() {
    let mut m = memory(0x8ff0, 8);
    for i in 0..8u64 {
        let a = 0x8ff0 + 8 * i;
        m.write(a, 0x5eed_0000_0000_0000 | a);
    }
    let report = stack_report(0x9000, 0x9010, &m).unwrap();
    assert_eq!(report.lo, 0x8ff0);
    assert_eq!(report.words.len(), 6);
    assert_eq!((report.broken, report.span), (0, None));
    m.write(0x8ff8, 7);
    m.write(0x9008, 0);
    let report = stack_report(0x9000, 0x9010, &m).unwrap();
    assert_eq!((report.broken, report.span), (2, Some((0x8ff8, 0x9008, 0x18))));
    assert!(stack_report(0, 0x9010, &m).is_none());
    assert!(stack_report(0x9000, 0x9f00, &m).is_none());
}

#[test]
fn frame_chains() {
    let mut m = memory(0x9000, 4);
    m.write(0x9018, 5);
    assert_eq!(frame_chain(0x9000, 0x8000, &m), Some(vec![0, 0, 0, 5]));
    assert_eq!(frame_chain(0, 0, &m), None);
    assert_eq!(frame_chain(0x7000, 0x8000, &m), None);
    assert_eq!(frame_chain(0x8000_15d9_2000, 0x8000, &m), None);
}

#[test]
fn registers_that_a_task_resumes_with() {
    let mut m = memory(0x4000, 36);
    assert_eq!(check_resume_x0(Some(TaskId(1)), &m, 0x4000), None);
    m.write(0x4000 + 8 * 5, 0x6000_0207);
    m.write(0x4000 + 8 * 35, 3);
    let vals = check_resume_x0(Some(TaskId(1)), &m, 0x4000).unwrap();
    assert_eq!((vals.len(), vals[0], vals[30]), (31, 0x6000_0207, 3));
    assert_eq!(check_resume_x0(Some(TaskId(2)), &m, 0x4000), None);
    assert_eq!(check_resume_x0(None, &m, 0x4000), None);
}

#[test]
fn frames_are_dumped_a_few_times() {
    let mut m = memory(0x4000, 36);
    let sp: u64 = 0x8000_15dd_7000;
    m.map_zeroed(0x6000, 0x80);
    m.map_zeroed(0x8000_15dd_6000, 0x240);
    m.map_zeroed(0x8000_0001_8b00, 0x2402);
    m.map_zeroed(0x8000_0002_d160, 0x2402);
    m.write(0x4000 + 24, sp);
    m.write(0x4000 + 32, 0x6000);
    m.write(0x6008, 0x6000_0207);
    m.write(0x8000_15dd_6010, 0x7fff_ffff_f8a0);
    let mut dumps = FrameDumps { count: 0 };
    assert_eq!(dumps.dump_frame_once(None, &m, 0x4000), None);
    assert_eq!(dumps.dump_frame_once(Some(TaskId(3)), &m, 0x4000), None);
    let dump = dumps.dump_frame_once(Some(TaskId(1)), &m, 0x4000).unwrap();
    assert_eq!((dump.index, dump.hit_x), (0, false));
    assert_eq!(dump.tls, Hit::At { addr: 0x6008, value: 0x6000_0207 });
    assert_eq!(dump.stack, Hit::At { addr: 0x8000_15dd_6010, value: 0x7fff_ffff_f8a0 });
    assert_eq!((dump.heap0, dump.heap1), (Hit::Nothing, Hit::Nothing));
    for i in 1..6 {
        assert_eq!(dumps.dump_frame_once(Some(TaskId(1)), &m, 0x4000).unwrap().index, i);
    }
    assert_eq!(dumps.dump_frame_once(Some(TaskId(1)), &m, 0x4000), None);
    m.write(0x4000, 1);
    let mut dumps = FrameDumps { count: 0 };
    assert_eq!(dumps.dump_frame_once(Some(TaskId(1)), &m, 0x4000), None);
}
