//! The kernel's architecture-specific parts: bringing up the cores, and what
//! belongs to each.

pub mod context;
pub mod continuations;
pub mod core_local;
pub mod effects;
pub mod interrupts;
pub mod kernel_stack;
pub mod scheduler;
pub mod slot_pool;
pub mod stacks;
pub mod start;

use vstd::prelude::*;

use crate::arch::aarch64::kernel::core_local::CoreLocal;
use crate::arch::aarch64::kernel::interrupts::gic::{GicOp, InterruptSpec};
use crate::arch::aarch64::kernel::interrupts::handlers::Features;
use crate::arch::aarch64::kernel::interrupts::statistics::{IrqCounters, IrqLine, IrqNames};
use crate::config::{
    DEFAULT_STACK_SIZE, EXCEPTION_SLOT_SIZE, KERNEL_STACK_SIZE, SLOTS_PER_CORE,
};
use crate::device_tree::{Psci, TreeError};
use crate::pages::BASE_PAGE_SIZE;

verus! {

/// The cores of the machine.
pub struct Processors {
    /// Whether the kernel has support for more than one core.
    pub smp: bool,
    /// Number of cores that the device tree names.
    pub possible: u32,
    /// Number of bytes that the image has for exception stacks.
    pub exception_stacks: usize,
    /// Number of cores that are online.
    pub online: u32,
    /// Where the stack of the core that boots begins.
    pub boot_stack: u64,
    /// Where the stack of the core that was set up last begins.
    pub current_stack: u64,
}

/// Bytes of an exception stack with its guard page.
pub const EXCEPTION_STRIDE: usize = 0x21000;

impl Processors {
    /// Number of cores for which the image has exception stacks. One core is
    /// supported whatever the image has.
    pub open spec fn supported(&self) -> int {
        if self.exception_stacks < 0x21000 {
            1
        } else {
            self.exception_stacks as int / 0x21000
        }
    }

    /// Number of cores that are brought up: as many as there are and as the
    /// image has stacks for, but at least one.
    pub open spec fn bootable(&self) -> int {
        if !self.smp {
            1
        } else {
            let both = if self.possible < self.supported() {
                self.possible as int
            } else {
                self.supported()
            };
            if both < 1 {
                1
            } else {
                both
            }
        }
    }
}

/// Number of cores for which the image has exception stacks, at least one.
pub fn linker_supported_cores(processors: &Processors) -> (r: usize)
    ensures
        r == processors.supported(),
{
    let cores: usize = processors.exception_stacks / EXCEPTION_STRIDE;
    if cores < 1 {
        1
    } else {
        cores
    }
}

/// Number of cores that there are, at least one.
pub fn detected_cores(processors: &Processors) -> (r: u32)
    ensures
        r == (if processors.smp && processors.possible > 1 {
            processors.possible
        } else {
            1
        }),
{
    if processors.smp && processors.possible > 1 {
        processors.possible
    } else {
        1
    }
}

/// Number of cores that are brought up.
pub fn max_bootable_cores(processors: &Processors) -> (r: u32)
    ensures
        r == processors.bootable(),
{
    if !processors.smp {
        return 1;
    }
    let supported: usize = linker_supported_cores(processors);
    let possible: u32 = processors.possible;
    let both: u32 = if (possible as u64) < supported as u64 {
        possible
    } else {
        supported as u32
    };
    if both < 1 {
        1
    } else {
        both
    }
}

/// Number of cores that are brought up. Whoever wakes the cores and whoever
/// waits for them go by this number.
pub fn boot_core_count(processors: &Processors) -> (r: u32)
    ensures
        r == processors.bootable(),
{
    max_bootable_cores(processors)
}

/// Number of cores that the device tree names.
pub fn get_possible_cpus(dtb: &[u8]) -> (r: Result<u32, TreeError>)
    ensures
        match r {
            Ok(n) => crate::device_tree::cpu_count_of(dtb@) == Ok::<nat, TreeError>(n as nat),
            Err(e) => crate::device_tree::cpu_count_of(dtb@) == Err::<nat, TreeError>(e),
        },
{
    crate::device_tree::cpu_count(dtb)
}

/// Number of cores that are online.
pub fn get_processor_count(processors: &Processors) -> (r: u32)
    ensures
        r == (if processors.smp {
            processors.online
        } else {
            1
        }),
{
    if processors.smp {
        processors.online
    } else {
        1
    }
}

/// The sections of stacks in the image, each with one stack and guard page per
/// core. The last has several exception slots per core instead.
pub struct StackSections {
    pub exception_stacks: u64,
    pub irq_stacks: u64,
    pub overflow_stacks: u64,
    pub task_stacks: u64,
    pub reactor_stacks: u64,
    pub idle_stacks: u64,
    pub exception_slots: u64,
    pub exception_slots_end: u64,
}

/// The guard page of element `j` of a section.
pub open spec fn guard_addr(base: int, stack: int, j: int) -> int {
    base + j * (stack + 0x1000) + stack
}

/// The guard pages of the first `n` elements of a section, in ascending order.
pub open spec fn guards(base: int, stack: int, n: int) -> Seq<u64> {
    Seq::new(n as nat, |j: int| guard_addr(base, stack, j) as u64)
}

/// Whether the guard pages of `n` elements of a section have addresses.
pub open spec fn section_fits(base: int, stack: int, n: int) -> bool {
    forall|j: int|
        0 <= j < n ==> crate::addr::canonical(#[trigger] guard_addr(base, stack, j))
}

/// What is to be done to the page tables so that stacks are guarded.
pub struct GuardPlan {
    /// Where the exception slots begin and how many pages they have, if they
    /// are there. They are to be mapped first.
    pub map: Option<(u64, u64)>,
    /// The pages to be unmapped, in this order.
    pub unmap: Vec<u64>,
}

impl StackSections {
    /// Whether all guard pages have addresses for `n` cores, and the exception
    /// slots lie where physical and virtual addresses can be the same.
    pub open spec fn fit(&self, n: int) -> bool {
        &&& section_fits(self.exception_stacks as int, 0x20000, n)
        &&& section_fits(self.irq_stacks as int, 0x8000, n)
        &&& section_fits(self.overflow_stacks as int, 0x8000, n)
        &&& section_fits(self.task_stacks as int, 0x20000, n)
        &&& section_fits(self.reactor_stacks as int, 0x20000, n)
        &&& section_fits(self.idle_stacks as int, 0x8000, n)
        &&& section_fits(self.exception_slots as int, 0x10000, 3 * n)
        &&& self.exception_slots < self.exception_slots_end ==> self.exception_slots
            <= 0x000f_ffff_ffff_ffff
    }

    /// The guard pages of all sections for `n` cores.
    pub open spec fn all_guards(&self, n: int) -> Seq<u64> {
        guards(self.exception_stacks as int, 0x20000, n) + guards(
            self.irq_stacks as int,
            0x8000,
            n,
        ) + guards(self.overflow_stacks as int, 0x8000, n) + guards(
            self.task_stacks as int,
            0x20000,
            n,
        ) + guards(self.reactor_stacks as int, 0x20000, n) + guards(
            self.idle_stacks as int,
            0x8000,
            n,
        ) + guards(self.exception_slots as int, 0x10000, 3 * n)
    }
}

/// Adds the guard pages of a section.
fn push_guards(plan: &mut Vec<u64>, base: u64, stack: u64, n: u64)
    requires
        stack <= 0x20000,
        section_fits(base as int, stack as int, n as int),
    ensures
        final(plan)@ == old(plan)@ + guards(base as int, stack as int, n as int),
{
    let ghost before = plan@;
    let mut j: u64 = 0;
    assert(plan@ =~= before + guards(base as int, stack as int, 0));
    while j < n
        invariant
            j <= n,
            stack <= 0x20000,
            section_fits(base as int, stack as int, n as int),
            plan@ == before + guards(base as int, stack as int, j as int),
        decreases n - j,
    {
        let slot: u64 = stack + BASE_PAGE_SIZE as u64;
        proof {
            assert(crate::addr::canonical(guard_addr(base as int, stack as int, j as int)));
            assert(0 <= j * slot) by (nonlinear_arith)
                requires
                    j >= 0,
                    slot >= 0,
            ;
        }
        plan.push(crate::addr::virt_addr(base + j * slot + stack));
        assert(plan@ =~= before + guards(base as int, stack as int, j + 1));
        j += 1;
    }
}

/// Plans the guarding of all stacks: the exception slots are mapped, and then
/// the page above each stack of each core that is brought up, and above each
/// exception slot, is unmapped.
pub fn protect_stack_guards(processors: &Processors, sections: &StackSections) -> (r: GuardPlan)
    requires
        sections.fit(processors.bootable()),
    ensures
        r.map == (if sections.exception_slots < sections.exception_slots_end {
            Some(
                (
                    sections.exception_slots,
                    ((sections.exception_slots_end - sections.exception_slots + 0xfff)
                        / 0x1000) as u64,
                ),
            )
        } else {
            None
        }),
        r.unmap@ == sections.all_guards(processors.bootable()),
{
    let start: u64 = sections.exception_slots;
    let size: u64 = sections.exception_slots_end.saturating_sub(start);
    let map: Option<(u64, u64)> = if size > 0 {
        Some((start, size / 0x1000 + if size % 0x1000 == 0 { 0 } else { 1 }))
    } else {
        None
    };
    let n: u64 = max_bootable_cores(processors) as u64;
    let mut unmap: Vec<u64> = Vec::new();
    push_guards(&mut unmap, sections.exception_stacks, DEFAULT_STACK_SIZE as u64, n);
    push_guards(&mut unmap, sections.irq_stacks, KERNEL_STACK_SIZE as u64, n);
    push_guards(&mut unmap, sections.overflow_stacks, KERNEL_STACK_SIZE as u64, n);
    push_guards(&mut unmap, sections.task_stacks, DEFAULT_STACK_SIZE as u64, n);
    push_guards(&mut unmap, sections.reactor_stacks, DEFAULT_STACK_SIZE as u64, n);
    push_guards(&mut unmap, sections.idle_stacks, KERNEL_STACK_SIZE as u64, n);
    push_guards(
        &mut unmap,
        sections.exception_slots,
        EXCEPTION_SLOT_SIZE as u64,
        n * SLOTS_PER_CORE as u64,
    );
    assert(unmap@ =~= sections.all_guards(processors.bootable()));
    GuardPlan { map, unmap }
}

/// The page that an address lies in.
pub open spec fn page_of(addr: int) -> int {
    addr / 0x1000
}

/// The page that holds the register frame of an exception slot is no guard page
/// of any slot, if the slots begin at a page boundary.
pub proof fn lemma_frame_page_stays_mapped(base: int, j: int, k: int)
    requires
        base % 0x1000 == 0,
        0 <= j,
        0 <= k,
    ensures
        page_of(guard_addr(base, 0x10000, j) - 288) != page_of(guard_addr(base, 0x10000, k)),
{
    assert(guard_addr(base, 0x10000, j) == base + j * 0x11000 + 0x10000);
    assert(guard_addr(base, 0x10000, k) == base + k * 0x11000 + 0x10000);
    assert(page_of(guard_addr(base, 0x10000, j) - 288) == base / 0x1000 + 17 * j + 15);
    assert(page_of(guard_addr(base, 0x10000, k)) == base / 0x1000 + 17 * k + 16);
}

/// Notes where the stack of the core `core_id` begins: the cores' stacks lie one
/// after the other from that of the core that boots on, each with a guard page.
pub fn finish_processor_init(processors: &mut Processors, core_id: u32)
    requires
        old(processors).boot_stack + core_id * 0x9000 <= u64::MAX,
    ensures
        *final(processors) == (Processors {
            current_stack: (old(processors).boot_stack + core_id * 0x9000) as u64,
            ..*old(processors)
        }),
{
    let slot: u64 = KERNEL_STACK_SIZE as u64 + BASE_PAGE_SIZE as u64;
    let stack: u64 = processors.boot_stack + (core_id as u64) * slot;
    processors.current_stack = stack;
}

/// A step of setting up the core that boots.
#[derive(Copy, Clone, Debug, Eq, PartialEq, Structural)]
pub enum ProcessorStep {
    /// Configure the processor.
    Configure,
    /// Set up memory management.
    InitMemory,
    /// Print what memory there is.
    PrintMemory,
    /// Guard the stacks.
    ProtectStackGuards,
    /// Let the core's interrupts be counted.
    AddIrqCounter,
    /// Set up the interrupt controller.
    InitInterrupts,
    /// Find out how fast the timer runs.
    DetectFrequency,
    /// Let messages carry the time.
    SetLogTime,
    /// Print what processor there is.
    PrintProcessor,
    /// Set up the clock.
    InitSystemTime,
    /// Look for devices.
    InitPci,
    /// Note where the core's stack lies.
    Finish,
    /// Let the other cores start.
    ReleaseCores,
}

/// The steps of setting up the core that boots.
pub open spec fn processor_steps(pci: bool) -> Seq<ProcessorStep> {
    seq![
        ProcessorStep::Configure,
        ProcessorStep::InitMemory,
        ProcessorStep::PrintMemory,
        ProcessorStep::ProtectStackGuards,
        ProcessorStep::AddIrqCounter,
        ProcessorStep::InitInterrupts,
        ProcessorStep::DetectFrequency,
        ProcessorStep::SetLogTime,
        ProcessorStep::PrintProcessor,
        ProcessorStep::InitSystemTime,
    ] + (if pci {
        seq![ProcessorStep::InitPci]
    } else {
        Seq::empty()
    }) + seq![ProcessorStep::Finish, ProcessorStep::ReleaseCores]
}

/// The steps of setting up the core that boots, in order.
pub fn boot_processor_init(pci: bool) -> (r: Vec<ProcessorStep>)
    ensures
        r@ == processor_steps(pci),
{
    let mut steps: Vec<ProcessorStep> = Vec::new();
    steps.push(ProcessorStep::Configure);
    steps.push(ProcessorStep::InitMemory);
    steps.push(ProcessorStep::PrintMemory);
    steps.push(ProcessorStep::ProtectStackGuards);
    steps.push(ProcessorStep::AddIrqCounter);
    steps.push(ProcessorStep::InitInterrupts);
    steps.push(ProcessorStep::DetectFrequency);
    steps.push(ProcessorStep::SetLogTime);
    steps.push(ProcessorStep::PrintProcessor);
    steps.push(ProcessorStep::InitSystemTime);
    if pci {
        steps.push(ProcessorStep::InitPci);
    }
    steps.push(ProcessorStep::Finish);
    steps.push(ProcessorStep::ReleaseCores);
    assert(steps@ =~= processor_steps(pci));
    steps
}

/// Stacks are guarded when memory management is there, and the other cores start
/// when all else is done.
pub proof fn lemma_cores_released_last(pci: bool, i: int, j: int)
    requires
        0 <= i < processor_steps(pci).len(),
        0 <= j < processor_steps(pci).len(),
    ensures
        processor_steps(pci)[i] is InitMemory && processor_steps(pci)[j] is ProtectStackGuards
            ==> i < j,
        processor_steps(pci)[j] is ReleaseCores ==> i <= j,
{
}

/// Sets up another core, whose number is that of the cores that are online:
/// what it has of its own, its interrupts, and its boot stack.
pub fn application_processor_init(
    processors: &mut Processors,
    sections: &StackSections,
    image_start: u64,
    image_end: u64,
    gic_ready: bool,
    timer: Option<InterruptSpec>,
    features: Features,
    names: &mut IrqNames,
) -> (r: (CoreLocal, Option<Vec<GicOp>>))
    requires
        old(names).wf(),
        image_start < crate::arch::aarch64::kernel::core_local::exception_stack_top(
            sections.exception_stacks as int,
            old(processors).online as int,
        ) < image_end,
        timer matches Some(t) ==> crate::arch::aarch64::kernel::interrupts::ids::irq_exists(
            t.kind,
            t.irq,
        ),
        features.pmr_band ==> old(processors).online == 0,
        old(processors).boot_stack + old(processors).online * 0x9000 <= u64::MAX,
        old(processors).online <= usize::MAX,
    ensures
        final(names).wf(),
        r.0.wf(),
        r.0.core_id == old(processors).online,
        r.0.exception_sp == crate::arch::aarch64::kernel::core_local::exception_stack_top(
            sections.exception_stacks as int,
            old(processors).online as int,
        ),
        r.0.kernel_sp == r.0.exception_sp,
        r.0.scratch_slot == r.0.exception_sp,
        forall|i: int| 0 <= i < 256 ==> #[trigger] r.0.irq_statistics@[i] == 0,
        r.0.rt_nest_depth == 0,
        !r.0.in_irq,
        r.0.eoi_inflight == 0,
        match r.1 {
            None => !gic_ready && final(names)@ == old(names)@,
            Some(ops) => gic_ready && ops@
                == crate::arch::aarch64::kernel::interrupts::gic::init_cpu_ops(
                old(processors).online as usize,
                timer,
                features,
            ) && final(names)@ == crate::arch::aarch64::kernel::interrupts::gic::feature_names(
                old(names)@,
                features,
            ),
        },
        *final(processors) == (Processors {
            current_stack: (old(processors).boot_stack + old(processors).online
                * 0x9000) as u64,
            ..*old(processors)
        }),
{
    let core_id: u32 = processors.online;
    let core = CoreLocal::install(core_id, sections.exception_stacks, image_start, image_end);
    let ops: Option<Vec<GicOp>> = crate::arch::aarch64::kernel::interrupts::gic::init_cpu(
        core_id as usize,
        gic_ready,
        timer,
        features,
        names,
    );
    finish_processor_init(processors, core_id);
    (core, ops)
}

/// How the firmware is called.
#[derive(Copy, Clone, Debug, Eq, PartialEq, Structural)]
pub enum Conduit {
    /// By a call of the hypervisor.
    Hvc,
    /// By a call of the secure monitor.
    Smc,
}

/// A call of the firmware that wakes a core.
#[derive(Copy, Clone, Debug, Eq, PartialEq, Structural)]
pub struct WakeCore {
    pub conduit: Conduit,
    /// The number of the firmware function.
    pub cpu_on: u32,
    /// The core.
    pub cpu_id: u32,
    /// Where the core begins.
    pub entry: u64,
    /// How many cores are online when this one is.
    pub wait_for: u32,
}

/// What is to be done to bring up further cores.
pub enum NextProcessor {
    /// Nothing.
    Done,
    /// The device tree does not say how.
    Unknown,
    /// The way of calling the firmware is not supported.
    Unsupported,
    /// Each core is woken and waited for, in this order.
    Wake(Vec<WakeCore>),
}

/// How the device tree says that the firmware is called: the bytes of `hvc`
/// or of `smc`.
pub open spec fn conduit_of(method: Seq<u8>) -> Option<Conduit> {
    if method == seq![104u8, 118, 99] {
        Some(Conduit::Hvc)
    } else if method == seq![115u8, 109, 99] {
        Some(Conduit::Smc)
    } else {
        None
    }
}

/// How the firmware is called, if it is supported.
pub fn conduit(method: &[u8]) -> (r: Option<Conduit>)
    ensures
        r == conduit_of(method@),
{
    if method.len() != 3 || method[2] != 99 {
        return None;
    }
    if method[0] == 104 && method[1] == 118 {
        assert(method@ =~= seq![104u8, 118, 99]);
        Some(Conduit::Hvc)
    } else if method[0] == 115 && method[1] == 109 {
        assert(method@ =~= seq![115u8, 109, 99]);
        Some(Conduit::Smc)
    } else {
        None
    }
}

/// The calls that wake the cores from 1 to `n - 1`.
pub open spec fn wake_calls(conduit: Conduit, cpu_on: u32, entry: u64, n: int) -> Seq<WakeCore> {
    Seq::new(
        (n - 1) as nat,
        |i: int|
            WakeCore {
                conduit,
                cpu_on,
                cpu_id: (i + 1) as u32,
                entry,
                wait_for: (i + 2) as u32,
            },
    )
}

/// Plans waking the cores from 1 to `max_cores - 1`.
pub fn wake_cores(method: &[u8], cpu_on: u32, entry: u64, max_cores: u32) -> (r: NextProcessor)
    requires
        max_cores >= 1,
    ensures
        match conduit_of(method@) {
            None => r is Unsupported,
            Some(conduit) => r matches NextProcessor::Wake(calls) && calls@ == wake_calls(
                conduit,
                cpu_on,
                entry,
                max_cores as int,
            ),
        },
{
    let conduit: Conduit = match conduit(method) {
        Some(conduit) => conduit,
        None => {
            return NextProcessor::Unsupported;
        },
    };
    let mut calls: Vec<WakeCore> = Vec::new();
    let mut cpu_id: u32 = 1;
    assert(calls@ =~= wake_calls(conduit, cpu_on, entry, 1));
    while cpu_id < max_cores
        invariant
            1 <= cpu_id <= max_cores,
            calls@ == wake_calls(conduit, cpu_on, entry, cpu_id as int),
        decreases max_cores - cpu_id,
    {
        calls.push(WakeCore { conduit, cpu_on, cpu_id, entry, wait_for: cpu_id + 1 });
        cpu_id += 1;
        assert(calls@ =~= wake_calls(conduit, cpu_on, entry, cpu_id as int));
    }
    NextProcessor::Wake(calls)
}

/// The number of the firmware function that wakes a core, as the device tree
/// has it.
pub open spec fn cpu_on_of(dtb: Seq<u8>) -> Option<int> {
    if !crate::device_tree::psci_readable(dtb) || !crate::device_tree::node_found(dtb, "/psci"@) {
        None
    } else {
        match crate::device_tree::node_property(dtb, "/psci"@, "cpu_on"@) {
            Some(value) => match crate::device_tree::number_of(value) {
                Some(n) => if n <= u32::MAX {
                    Some(n)
                } else {
                    None
                },
                None => None,
            },
            None => None,
        }
    }
}

/// How the firmware is called, as the device tree has it.
pub open spec fn tree_conduit(dtb: Seq<u8>) -> Option<Conduit> {
    match crate::device_tree::node_property(dtb, "/psci"@, "method"@) {
        Some(value) => conduit_of(crate::device_tree::trimmed(value)),
        None => None,
    }
}

/// Counts the calling core as online. The first core then brings up the others,
/// unless the hypervisor does so. They begin at `entry`.
pub fn boot_next_processor(
    processors: &mut Processors,
    hypervisor: bool,
    dtb: &[u8],
    entry: u64,
) -> (r: NextProcessor)
    ensures
        *final(processors) == (Processors {
            online: if old(processors).online == u32::MAX {
                0
            } else {
                (old(processors).online + 1) as u32
            },
            ..*old(processors)
        }),
        ({
            let n = old(processors).bootable();
            if hypervisor || n <= 1 || old(processors).online != 0 {
                r is Done
            } else {
                match (cpu_on_of(dtb@), tree_conduit(dtb@)) {
                    (None, _) => r is Unknown,
                    (_, None) => r is Unsupported,
                    (Some(cpu_on), Some(conduit)) => r matches NextProcessor::Wake(calls) && calls@
                        == wake_calls(conduit, cpu_on as u32, entry, n),
                }
            }
        }),
{
    let cpu_online: u32 = processors.online;
    processors.online = cpu_online.wrapping_add(1);
    if hypervisor {
        return NextProcessor::Done;
    }
    let max_cores: u32 = max_bootable_cores(processors);
    if max_cores <= 1 || cpu_online != 0 {
        return NextProcessor::Done;
    }
    let psci: Psci = match crate::device_tree::psci(dtb) {
        Ok(psci) => psci,
        Err(_) => {
            return NextProcessor::Unknown;
        },
    };
    match psci.method {
        Some(method) => wake_cores(method.as_slice(), psci.cpu_on, entry, max_cores),
        None => NextProcessor::Unsupported,
    }
}

/// Whoever waits for all cores waits for exactly those that are woken: the last
/// one is online when as many cores are as are brought up, and each is woken
/// once.
pub proof fn lemma_wake_and_wait_agree(
    processors: Processors,
    conduit: Conduit,
    cpu_on: u32,
    entry: u64,
)
    requires
        processors.bootable() > 1,
    ensures
        wake_calls(conduit, cpu_on, entry, processors.bootable()).last().wait_for
            == processors.bootable(),
        forall|i: int|
            0 <= i < processors.bootable() - 1 ==> (#[trigger] wake_calls(
                conduit,
                cpu_on,
                entry,
                processors.bootable(),
            )[i]).cpu_id == i + 1,
{
}

/// No core is brought up that there is no exception stack for: its stack lies
/// in the image's section.
pub proof fn lemma_bootable_has_stack(processors: Processors, base: int, core: int)
    requires
        processors.exception_stacks >= 0x21000,
        0 <= core < processors.bootable(),
    ensures
        crate::arch::aarch64::kernel::core_local::exception_stack_top(base, core) + 0x1000 <= base
            + processors.exception_stacks,
{
}

/// The lines of the statistics of all cores.
pub fn print_statistics<'a>(counters: &IrqCounters<'a>, names: &IrqNames) -> (r: Vec<IrqLine>)
    requires
        counters.wf(),
        names.wf(),
    ensures
        crate::arch::aarch64::kernel::interrupts::statistics::line_views(r@)
            == crate::arch::aarch64::kernel::interrupts::statistics::all_lines(
            counters@,
            names@,
            crate::arch::aarch64::kernel::interrupts::statistics::all_cores(),
        ),
{
    crate::arch::aarch64::kernel::interrupts::statistics::print_statistics(counters, names)
}

} // verus!
