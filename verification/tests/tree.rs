use hermit::arch::aarch64::kernel::interrupts::gic::{
    init_from_tree, intc_node, timer_interrupt, uart_interrupt, GicOp, GicVersion, InterruptSpec,
    Trigger,
};
use hermit::arch::aarch64::kernel::interrupts::handlers::Features;
use hermit::arch::aarch64::kernel::interrupts::ids::IrqKind;
use hermit::arch::aarch64::kernel::interrupts::statistics::IrqNames;
use hermit::arch::aarch64::kernel::{
    boot_next_processor, get_possible_cpus, Conduit, NextProcessor, Processors, WakeCore,
};
use hermit::device_tree::{
    check, check_device, cpu_count, find_device_value, node_info, number, psci, read_be32, text,
    Lookup, TreeError,
};

struct Tree {
    structs: Vec<u8>,
    strings: Vec<u8>,
}

fn word(n: u32) -> [u8; 4] {
    n.to_be_bytes()
}

fn cells(list: &[u32]) -> Vec<u8> {
    list.iter().flat_map(|n| word(*n)).collect()
}

impl Tree {
    fn new() -> Tree {
        Tree { structs: Vec::new(), strings: Vec::new() }
    }

    fn pad(&mut self) {
        while self.structs.len() % 4 != 0 {
            self.structs.push(0);
        }
    }

    fn begin(&mut self, name: &str) {
        self.structs.extend(word(1));
        self.structs.extend(name.as_bytes());
        self.structs.push(0);
        self.pad();
    }

    fn prop(&mut self, name: &str, value: &[u8]) {
        self.structs.extend(word(3));
        self.structs.extend(word(value.len() as u32));
        self.structs.extend(word(self.strings.len() as u32));
        self.structs.extend(value);
        self.pad();
        self.strings.extend(name.as_bytes());
        self.strings.push(0);
    }

    fn nop(&mut self) {
        self.structs.extend(word(4));
    }

    fn end(&mut self) {
        self.structs.extend(word(2));
    }

    fn finish(mut self) -> Vec<u8> {
        self.structs.extend(word(5));
        let structs_at: u32 = 56;
        let strings_at: u32 = structs_at + self.structs.len() as u32;
        let total: u32 = strings_at + self.strings.len() as u32;
        let mut out: Vec<u8> = Vec::new();
        for n in [
            0xd00d_feed,
            total,
            structs_at,
            strings_at,
            40,
            17,
            16,
            0,
            self.strings.len() as u32,
            self.structs.len() as u32,
        ] {
            out.extend(word(n));
        }
        out.extend([0u8; 16]);
        out.extend(self.structs);
        out.extend(self.strings);
        out
    }
}

fn machine(method: &[u8], cpu_on: Option<&[u8]>) -> Vec<u8> {
    let mut t = Tree::new();
    t.begin("");
    t.prop("#address-cells", &word(2));
    t.prop("#size-cells", &word(2));
    t.begin("cpus");
    t.prop("#address-cells", &word(1));
    t.prop("#size-cells", &word(0));
    for i in 0..3u32 {
        t.begin(&format!("cpu@{i}"));
        t.prop("device_type", b"cpu\0");
        t.prop("reg", &word(i));
        t.end();
    }
    t.end();
    t.begin("psci");
    t.prop("compatible", b"arm,psci-1.0\0");
    t.prop("method", method);
    if let Some(value) = cpu_on {
        t.prop("cpu_on", value);
    }
    t.end();
    t.begin("timer");
    t.prop("compatible", b"arm,armv8-timer\0");
    t.prop(
        "interrupts",
        &cells(&[1, 13, 0x104, 1, 14, 0x104, 1, 11, 0x104, 1, 10, 0x104]),
    );
    t.end();
    t.begin("pl011");
    t.prop("compatible", b"arm,pl011\0arm,primecell\0");
    t.prop("interrupts", &cells(&[0, 1, 1]));
    t.end();
    t.begin("intc");
    t.prop("compatible", b"arm,gic-v3\0");
    t.prop(
        "reg",
        &cells(&[0, 0x0800_0000, 0, 0x1_0000, 0, 0x080a_0000, 0, 0xf6_0000]),
    );
    t.end();
    t.end();
    t.finish()
}

fn usual() -> Vec<u8> {
    machine(b"hvc\0", Some(&word(0xc400_0003)))
}

fn no_features() -> Features {
    Features {
        pmr_preempt_spike: false,
        pmr_band: false,
        pmr_coop_net: false,
        continuations: false,
    }
}

#[test]
fn words_are_big_endian() {
    assert_eq!(read_be32(&[0xd0, 0x0d, 0xfe, 0xed], 0), 0xd00d_feed);
    assert_eq!(read_be32(&[9, 0, 0, 1, 2], 1), 0x102);
}

#[test]
fn a_whole_tree_is_told_from_others() {
    let dtb = usual();
    let whole = |tree: &[u8]| {
        let found = check(tree, "/psci", Lookup::Node);
        assert_eq!(found, check_device(tree, "arm,pl011", "arm,pl011"));
        found
    };
    assert!(whole(&dtb));
    assert!(!whole(&[]));
    assert!(!whole(&dtb[..39]));
    assert!(!whole(&dtb[..dtb.len() - 1]));
    let mut bad = dtb.clone();
    bad[0] = 0;
    assert!(!whole(&bad));
    assert!(check(&dtb, "/cpus", Lookup::Children));
    assert!(check(&dtb, "/intc", Lookup::Regions));
    assert!(check(&dtb, "/cpus/cpu", Lookup::Regions));
    assert!(check(&dtb, "/cpu@0", Lookup::Node));
    assert!(check(&dtb, "/", Lookup::Properties));
    assert!(check(&dtb, "intc", Lookup::Node));
}

#[test]
fn nodes_are_found_by_their_paths() {
    let dtb = usual();
    for path in ["/cpus/cpu", "/cpus/cpu@0", "/cpus/cpu/"] {
        assert_eq!(node_info(&dtb, path).unwrap().regions, vec![(0, None)]);
    }
    assert_eq!(node_info(&dtb, "/cpus/cpu@2").unwrap().regions, vec![(2, None)]);
    for path in ["/cpu@0", "intc", "/cpus/cpu@3", "/cpus/cpu@0/x", "/psci/x", "//intc"] {
        assert!(matches!(node_info(&dtb, path), Err(TreeError::NoNode)));
    }
    assert!(matches!(node_info(&dtb, "/"), Err(TreeError::NoProperty)));
}

fn aliased(list: &[(&str, &[u8])]) -> Vec<u8> {
    let mut t = Tree::new();
    t.begin("");
    t.prop("#address-cells", &word(1));
    t.prop("#size-cells", &word(1));
    t.begin("other");
    t.prop("/intc", b"/nowhere\0");
    t.end();
    t.begin("aliases");
    for (name, value) in list {
        t.prop(name, value);
    }
    t.end();
    t.begin("soc");
    t.prop("#address-cells", &word(1));
    t.prop("#size-cells", &word(1));
    t.begin("intc@10");
    t.prop("reg", &cells(&[1, 2]));
    t.end();
    t.begin("intc@20");
    t.prop("reg", &cells(&[3, 4]));
    t.end();
    t.end();
    t.end();
    t.finish()
}

#[test]
fn aliases_are_followed() {
    let none = aliased(&[("intc", b"/soc/intc\0")]);
    assert!(matches!(node_info(&none, "/intc"), Err(TreeError::NoNode)));
    assert_eq!(node_info(&none, "intc").unwrap().regions, vec![(1, Some(2))]);
    let direct = aliased(&[("/intc", b"/soc/intc@20\0")]);
    assert_eq!(node_info(&direct, "/intc").unwrap().regions, vec![(3, Some(4))]);
    let chain = aliased(&[("a", b"/soc/intc"), ("b", b"a\0\0"), ("/intc", b"b\0")]);
    assert_eq!(node_info(&chain, "/intc").unwrap().regions, vec![(1, Some(2))]);
    let lost = aliased(&[("/intc", b"/soc/uart\0")]);
    assert!(matches!(node_info(&lost, "/intc"), Err(TreeError::NoNode)));
    let no_text = aliased(&[("/intc", &[0xff, 0]), ("/intc", b"/soc/intc\0")]);
    assert!(matches!(node_info(&no_text, "/intc"), Err(TreeError::NoNode)));
    let circle = aliased(&[("/intc", b"b\0"), ("b", b"/intc\0")]);
    assert!(matches!(node_info(&circle, "/intc"), Err(TreeError::Malformed)));
    assert_eq!(node_info(&circle, "/soc/intc").unwrap().regions, vec![(1, Some(2))]);
}

#[test]
fn names_are_texts() {
    let mut t = Tree::new();
    t.begin("");
    t.begin("m\u{fc}hle");
    t.prop("gr\u{f6}\u{df}e\u{20ac}\u{1f600}", &word(1));
    t.begin("\u{20ac}@1");
    t.end();
    t.end();
    t.begin("psci");
    t.prop("cpu_on", &word(3));
    t.end();
    t.begin("serial");
    t.prop("compatible", "\u{e9}\0arm,pl011\0".as_bytes());
    t.prop("interrupts", &word(9));
    t.end();
    t.end();
    let dtb = t.finish();
    assert_eq!(psci(&dtb).unwrap().cpu_on, 3);
    assert_eq!(
        find_device_value(&dtb, "arm,pl011", "arm,pl011", "interrupts"),
        Ok(Some(word(9).to_vec()))
    );
    let at = dtb.windows(2).position(|w| w == [0xc3, 0xbc]).unwrap();
    for broken in [[0xc3, b'x'], [0xc0, 0x80], [0xff, 0xff], [0xe0, 0x80], [0x80, b'x']] {
        let mut bad = dtb.clone();
        bad[at] = broken[0];
        bad[at + 1] = broken[1];
        assert!(matches!(psci(&bad), Err(TreeError::NoNode)));
        assert_eq!(
            find_device_value(&bad, "arm,pl011", "arm,pl011", "interrupts"),
            Err(TreeError::Malformed)
        );
    }
    for (old, new) in [
        ([0xe2, 0x82, 0xac], [0xed, 0xa0, 0x80]),
        ([0xe2, 0x82, 0xac], [0xe0, 0x9f, 0xbf]),
        ([0x9f, 0x98, 0x80], [0x8f, 0xbf, 0xbf]),
    ] {
        let at = dtb.windows(3).rposition(|w| w == old).unwrap();
        let mut bad = dtb.clone();
        bad[at..at + 3].copy_from_slice(&new);
        assert!(matches!(psci(&bad), Err(TreeError::Malformed)));
    }
}

#[test]
fn a_search_for_a_device_ends_early() {
    let mut t = Tree::new();
    t.begin("");
    t.begin("a");
    t.end();
    t.nop();
    t.end();
    t.structs.extend(word(1));
    t.structs.extend([0xff, 0, 0, 0]);
    let dtb = t.finish();
    assert_eq!(find_device_value(&dtb, "arm,pl011", "arm,pl011", "interrupts"), Ok(None));
    let mut t = Tree::new();
    t.begin("");
    t.prop("x", &[]);
    t.nop();
    t.prop("compatible", b"arm,pl011\0");
    t.prop("interrupts", &word(9));
    t.begin("broken");
    t.structs.extend(word(3));
    let dtb = t.finish();
    assert_eq!(
        find_device_value(&dtb, "arm,pl011", "arm,pl011", "interrupts"),
        Ok(Some(word(9).to_vec()))
    );
    assert_eq!(find_device_value(&dtb, "arm,none", "arm,none", "interrupts"), Ok(None));
}

#[test]
fn names_of_properties_may_be_out_of_reach() {
    let mut t = Tree::new();
    t.begin("");
    t.begin("cpus");
    t.begin("cpu@0");
    t.end();
    t.end();
    t.end();
    let mut dtb = t.finish();
    dtb[32] = 0xff;
    assert_eq!(cpu_count(&dtb), Ok(1));
    let mut dtb = usual();
    dtb[32] = 0xff;
    assert_eq!(cpu_count(&dtb), Err(TreeError::Malformed));
}

#[test]
fn nothing_may_stand_between_nodes() {
    let mut t = Tree::new();
    t.nop();
    t.begin("");
    t.nop();
    t.prop("#address-cells", &word(1));
    t.prop("#size-cells", &word(1));
    t.begin("intc@8000000");
    t.nop();
    t.prop("compatible", b"arm,gic-v4\0");
    t.nop();
    t.prop("reg", &cells(&[1, 2, 3, 4]));
    t.prop("interrupts", &cells(&[1, 2, 4]));
    t.nop();
    t.end();
    t.end();
    let dtb = t.finish();
    let info = node_info(&dtb, "/intc").unwrap();
    assert_eq!(info.regions, vec![(1, Some(2)), (3, Some(4))]);
    assert_eq!(info.compatible, Some(b"arm,gic-v4".to_vec()));
    assert_eq!(
        find_device_value(&dtb, "arm,gic-v4", "arm,gic-v3", "interrupts"),
        Ok(Some(cells(&[1, 2, 4])))
    );
}

#[test]
fn what_is_not_looked_up_may_be_damaged() {
    let mut t = Tree::new();
    t.begin("");
    t.begin("odd");
    t.prop("compatible", &[]);
    t.begin("other");
    t.prop("compatible", &[0xff, 0]);
    t.end();
    for i in 0..70 {
        t.begin(&format!("deep{i}"));
    }
    for _ in 0..70 {
        t.end();
    }
    t.end();
    t.begin("psci");
    t.prop("cpu_on", &word(3));
    t.prop("method", b"smc\0");
    t.structs.extend(word(3));
    t.structs.extend(word(0));
    t.structs.extend(word(0xffff));
    let dtb = t.finish();
    let found = psci(&dtb).unwrap();
    assert_eq!(found.cpu_on, 3);
    assert_eq!(found.method, Some(b"smc".to_vec()));
    assert_eq!(cpu_count(&dtb), Err(TreeError::Malformed));
    assert_eq!(
        find_device_value(&dtb, "arm,pl011", "arm,pl011", "interrupts"),
        Err(TreeError::Malformed)
    );
    let mut t = Tree::new();
    t.begin("");
    t.begin("odd");
    t.prop("compatible", &[]);
    t.end();
    t.begin("uart");
    t.prop("compatible", b"none\0arm,pl011");
    t.prop("interrupts", &word(9));
    t.begin("inner");
    t.prop("broken", &[]);
    t.strings.clear();
    t.strings.extend(b"compatible\0compatible\0interrupts\0");
    let dtb = t.finish();
    assert_eq!(
        find_device_value(&dtb, "arm,pl011", "arm,pl011", "interrupts"),
        Ok(Some(word(9).to_vec()))
    );
}

#[test]
fn damaged_trees_are_answered() {
    let dtb = usual();
    for i in 0..dtb.len() {
        for value in [0, 1, 2, 3, 4, 5, 47, 64, 97, 255] {
            let mut bad = dtb.clone();
            bad[i] = value;
            let _ = cpu_count(&bad);
            let _ = psci(&bad);
            let _ = node_info(&bad, "/intc");
            let _ = find_device_value(&bad, "arm,armv8-timer", "arm,pl011", "interrupts");
        }
    }
    let dtb = aliased(&[("a", b"/soc/intc"), ("b", b"a\0\0"), ("/intc", b"b\0")]);
    for i in 0..dtb.len() {
        for value in [0, 1, 2, 3, 4, 5, 47, 64, 97, 0xc3, 255] {
            let mut bad = dtb.clone();
            bad[i] = value;
            let _ = node_info(&bad, "/intc");
            let _ = node_info(&bad, "/soc/intc@20");
            let _ = cpu_count(&bad);
        }
    }
}

#[test]
fn processors_are_counted() {
    assert_eq!(cpu_count(&usual()), Ok(3));
    assert_eq!(get_possible_cpus(&usual()), Ok(3));
    assert_eq!(cpu_count(&[]), Err(TreeError::Malformed));
    let mut t = Tree::new();
    t.begin("");
    t.end();
    assert_eq!(cpu_count(&t.finish()), Err(TreeError::NoNode));
}

#[test]
fn nodes_tell_their_regions_and_names() {
    let info = node_info(&usual(), "/intc").unwrap();
    assert_eq!(
        info.regions,
        vec![(0x0800_0000, Some(0x1_0000)), (0x080a_0000, Some(0xf6_0000))]
    );
    assert_eq!(info.compatible, Some(b"arm,gic-v3".to_vec()));
    assert!(matches!(node_info(&usual(), "/none"), Err(TreeError::NoNode)));
    assert!(matches!(node_info(&usual(), "/psci"), Err(TreeError::NoProperty)));
    assert!(matches!(node_info(&[0; 50], "/psci"), Err(TreeError::Malformed)));
}

#[test]
fn devices_are_found_by_compatible_names() {
    let dtb = usual();
    assert_eq!(
        find_device_value(&dtb, "arm,none", "arm,pl011", "interrupts"),
        Ok(Some(cells(&[0, 1, 1])))
    );
    assert_eq!(find_device_value(&dtb, "arm,none", "arm,also-none", "interrupts"), Ok(None));
    assert_eq!(
        find_device_value(&dtb, "arm,pl011", "arm,pl011", "clocks"),
        Err(TreeError::NoProperty)
    );
    assert_eq!(
        find_device_value(&[], "arm,pl011", "arm,pl011", "clocks"),
        Err(TreeError::Malformed)
    );
}

#[test]
fn numbers_and_texts() {
    assert_eq!(number(&word(7)), Some(7));
    assert_eq!(number(&[0, 0, 0, 1, 0, 0, 0, 2]), Some(0x1_0000_0002));
    assert_eq!(number(&[1, 2]), None);
    assert_eq!(text(b"hvc\0".to_vec()), b"hvc".to_vec());
    assert_eq!(text(b"hvc".to_vec()), b"hvc".to_vec());
}

#[test]
fn the_power_interface_is_read() {
    let found = psci(&usual()).unwrap();
    assert_eq!(found.cpu_on, 0xc400_0003);
    assert_eq!(found.method, Some(b"hvc".to_vec()));
    assert!(matches!(psci(&machine(b"hvc\0", None)), Err(TreeError::NoProperty)));
    assert!(matches!(psci(&machine(b"hvc\0", Some(&[1]))), Err(TreeError::BadValue)));
    assert!(matches!(
        psci(&machine(b"hvc\0", Some(&[0, 0, 0, 1, 0, 0, 0, 0]))),
        Err(TreeError::BadValue)
    ));
    assert!(matches!(psci(&[]), Err(TreeError::Malformed)));
    let mut t = Tree::new();
    t.begin("");
    t.end();
    assert!(matches!(psci(&t.finish()), Err(TreeError::NoNode)));
}

#[test]
fn the_other_cores_are_woken() {
    let mut processors = Processors {
        smp: true,
        possible: 3,
        exception_stacks: 4 * 0x2_1000,
        online: 0,
        boot_stack: 0,
        current_stack: 0,
    };
    let r = boot_next_processor(&mut processors, false, &usual(), 0x4008_0000);
    assert_eq!(processors.online, 1);
    match r {
        NextProcessor::Wake(calls) => {
            assert_eq!(
                calls,
                vec![
                    WakeCore {
                        conduit: Conduit::Hvc,
                        cpu_on: 0xc400_0003,
                        cpu_id: 1,
                        entry: 0x4008_0000,
                        wait_for: 2,
                    },
                    WakeCore {
                        conduit: Conduit::Hvc,
                        cpu_on: 0xc400_0003,
                        cpu_id: 2,
                        entry: 0x4008_0000,
                        wait_for: 3,
                    },
                ]
            );
        }
        _ => panic!("no cores were woken"),
    }
    let r = boot_next_processor(&mut processors, false, &usual(), 0x4008_0000);
    assert!(matches!(r, NextProcessor::Done));
    processors.online = 0;
    let r = boot_next_processor(&mut processors, true, &usual(), 0);
    assert!(matches!(r, NextProcessor::Done));
    processors.online = 0;
    let other = machine(b"hyp\0", Some(&word(1)));
    let r = boot_next_processor(&mut processors, false, &other, 0);
    assert!(matches!(r, NextProcessor::Unsupported));
    processors.online = 0;
    let r = boot_next_processor(&mut processors, false, &machine(b"smc\0", None), 0);
    assert!(matches!(r, NextProcessor::Unknown));
}

#[test]
fn interrupts_of_devices_are_read() {
    let dtb = usual();
    assert_eq!(
        timer_interrupt(&dtb),
        Ok(Some(InterruptSpec { kind: IrqKind::Ppi, irq: 14, trigger: Trigger::Level }))
    );
    assert_eq!(
        uart_interrupt(&dtb),
        Ok(Some(InterruptSpec { kind: IrqKind::Spi, irq: 1, trigger: Trigger::Edge }))
    );
    let mut t = Tree::new();
    t.begin("");
    t.end();
    let empty = t.finish();
    assert_eq!(timer_interrupt(&empty), Ok(None));
    assert_eq!(uart_interrupt(&[]), Err(TreeError::Malformed));
}

#[test]
fn the_controller_is_planned_from_the_tree() {
    let dtb = usual();
    let node = intc_node(&dtb).unwrap();
    assert_eq!((node.gicd_start, node.gicd_size), (0x0800_0000, 0x1_0000));
    assert_eq!((node.gicr_start, node.gicr_size), (0x080a_0000, 0xf6_0000));
    let mut names = IrqNames::new();
    let setup = init_from_tree(&dtb, 0, no_features(), &mut names).unwrap();
    assert_eq!(setup.gic.version, GicVersion::V3);
    assert_eq!(setup.gic.gicd.phys_addr, 0x0800_0000);
    assert_eq!(setup.gic.gicd.pages, 16);
    assert_eq!(setup.num_cpus, 3);
    assert_eq!(setup.plan.timer_interrupt, 14);
    assert_eq!(setup.plan.uart_interrupt, 1);
    assert!(setup.plan.ops.contains(&GicOp::Enable { intid: 30, cpu: 0 }));
    assert!(setup.plan.ops.contains(&GicOp::Enable { intid: 33, cpu: 0 }));
    assert!(init_from_tree(&[], 0, no_features(), &mut names).is_none());
}
