//! What the entry code sets up before anything else runs.

use vstd::prelude::*;

use crate::config::DEFAULT_STACK_SIZE;
use crate::pages::BASE_PAGE_SIZE;

verus! {

/// Device memory: no gathering, no reordering, no early acknowledgement.
pub const MT_DEVICE_NGNRNE: u64 = 0;

/// Device memory: no gathering, no reordering.
pub const MT_DEVICE_NGNRE: u64 = 1;

/// Device memory.
pub const MT_DEVICE_GRE: u64 = 2;

/// Normal memory that is not cached.
pub const MT_NORMAL_NC: u64 = 3;

/// Normal memory.
pub const MT_NORMAL: u64 = 4;

/// Table walks are cached in the inner domain: bits 8 and 24.
pub const TCR_IRGN_WBWA: u64 = 0x0100_0100;

/// Table walks are cached in the outer domain: bits 10 and 26.
pub const TCR_ORGN_WBWA: u64 = 0x0400_0400;

/// Table walks are inner shareable: bits 12, 13, 28 and 29.
pub const TCR_SHARED: u64 = 0x3000_3000;

/// Number of bits of a virtual address.
pub const VA_BITS: u64 = 48;

/// The sizes of both halves of an address space with addresses of `x` bits, as
/// the translation control register has them: in bits 0 to 15 and in bits 16
/// and up, the number of address bits that are not used.
pub fn tcr_size(x: u64) -> (r: u64)
    requires
        x <= 64,
    ensures
        r == (64 - x) * 0x10001,
{
    let unused: u64 = 64 - x;
    assert((unused << 16u64) | unused == unused * 0x10001) by (bit_vector)
        requires
            unused <= 64,
    ;
    (unused << 16u64) | unused
}

/// The attribute `attr` at the place of the memory type `mt`: each type has a
/// byte.
pub fn mair(attr: u64, mt: u64) -> (r: u64)
    requires
        mt < 8,
    ensures
        r == attr << (mt * 8) as u64,
{
    attr << (mt * 8)
}

/// The attributes of all memory types.
pub fn mair_el1() -> (r: u64)
    ensures
        r == 0xff_440c_0400,
{
    let r: u64 = mair(0x00, MT_DEVICE_NGNRNE) | mair(0x04, MT_DEVICE_NGNRE) | mair(
        0x0c,
        MT_DEVICE_GRE,
    ) | mair(0x44, MT_NORMAL_NC) | mair(0xff, MT_NORMAL);
    assert((0x00u64 << 0u64) | (0x04u64 << 8u64) | (0x0cu64 << 16u64) | (0x44u64 << 24u64) | (
    0xffu64 << 32u64) == 0xff_440c_0400u64) by (bit_vector);
    r
}

/// The translation control register, but for the size of physical addresses.
pub fn tcr_bits() -> (r: u64)
    ensures
        r == 0x3510_3510,
{
    let size: u64 = tcr_size(VA_BITS);
    assert(0x10_0010u64 | (0x0100_0100u64 | 0x0400_0400u64 | 0x3000_3000u64) == 0x3510_3510u64)
        by (bit_vector);
    size | (TCR_IRGN_WBWA | TCR_ORGN_WBWA | TCR_SHARED)
}

/// What a core does once it is set up.
#[derive(Copy, Clone, Debug, Eq, PartialEq, Structural)]
pub enum BootRole {
    /// It boots the system.
    Boot,
    /// It joins the system.
    Application,
    /// It halts: the kernel has no support for more than one core.
    Halt,
}

/// What the core `cpu_id` does once it is set up.
pub fn pre_init(cpu_id: u32, smp: bool) -> (r: BootRole)
    ensures
        r == (if cpu_id == 0 {
            BootRole::Boot
        } else if smp {
            BootRole::Application
        } else {
            BootRole::Halt
        }),
{
    if cpu_id == 0 {
        BootRole::Boot
    } else if smp {
        BootRole::Application
    } else {
        BootRole::Halt
    }
}

/// The control register of a little-endian core whose memory management and
/// caches are on.
pub const SCTLR_EL1: u64 = 0x0405_d01d;

/// The same of a big-endian core: bits 24 and 25 are set too.
pub const SCTLR_EL1_BIG_ENDIAN: u64 = 0x0705_d01d;

/// The control register of a core whose memory management and caches are on.
pub fn sctlr_el1(big_endian: bool) -> (r: u64)
    ensures
        r == (if big_endian {
            SCTLR_EL1_BIG_ENDIAN
        } else {
            SCTLR_EL1
        }),
        r & 0x0300_0000 == (if big_endian {
            0x0300_0000u64
        } else {
            0
        }),
        r & !0x0300_0000 == 0x0405_d01d,
{
    assert(0x0405_d01du64 & 0x0300_0000 == 0) by (bit_vector);
    assert(0x0405_d01du64 & !0x0300_0000 == 0x0405_d01d) by (bit_vector);
    assert(0x0705_d01du64 & 0x0300_0000 == 0x0300_0000) by (bit_vector);
    assert(0x0705_d01du64 & !0x0300_0000 == 0x0405_d01d) by (bit_vector);
    if big_endian {
        SCTLR_EL1_BIG_ENDIAN
    } else {
        SCTLR_EL1
    }
}

/// Lets floating-point instructions run: bits 20 and 21.
pub const CPACR_FPEN: u64 = 0x30_0000;

/// The number of a core in its affinity register: the low eight bits.
pub open spec fn affinity(mpidr: u64) -> int {
    mpidr as int % 256
}

/// Top of the exception stack that the entry code sets for a core. It tells 64
/// cores apart.
pub open spec fn entry_stack_top(exception_stacks: int, mpidr: u64) -> int {
    crate::arch::aarch64::kernel::core_local::exception_stack_top(
        exception_stacks,
        mpidr as int % 64,
    )
}

/// The boot stack: the one that is noted, or the one in use if none is.
pub open spec fn noted_stack(current_stack: u64, sp: u64) -> u64 {
    if current_stack == 0 {
        sp
    } else {
        current_stack
    }
}

fn core_number(mpidr: u64) -> (r: u64)
    ensures
        r == affinity(mpidr),
{
    assert(mpidr & 0xff == mpidr % 256) by (bit_vector);
    mpidr & 0xff
}

fn exception_stack(exception_stacks: u64, mpidr: u64) -> (r: u64)
    requires
        exception_stacks + 64 * 0x21000 <= u64::MAX,
    ensures
        r == entry_stack_top(exception_stacks as int, mpidr),
{
    assert((mpidr & 0xff) & 0x3f == mpidr % 64) by (bit_vector);
    let core: u64 = (mpidr & 0xff) & 0x3f;
    let stride: u64 = DEFAULT_STACK_SIZE as u64 + BASE_PAGE_SIZE as u64;
    exception_stacks + core * stride + DEFAULT_STACK_SIZE as u64
}

/// What a core does at the kernel's entry point.
#[derive(Copy, Clone, Debug, Eq, PartialEq, Structural)]
pub enum EntryStep {
    /// It waits for an event and looks again.
    Park,
    /// It goes on to be set up, as it is.
    Join,
    /// It takes the exception stack, notes the boot stack, and goes on to be
    /// set up.
    Boot { current_stack: u64, sp_el1: u64 },
}

/// What a core does at the kernel's entry point: core 0 boots, any other waits
/// until the cores are released.
pub fn _start(
    mpidr: u64,
    released: bool,
    current_stack: u64,
    sp: u64,
    exception_stacks: u64,
) -> (r: EntryStep)
    requires
        exception_stacks + 64 * 0x21000 <= u64::MAX,
    ensures
        r == (if affinity(mpidr) != 0 {
            if released {
                EntryStep::Join
            } else {
                EntryStep::Park
            }
        } else {
            EntryStep::Boot {
                current_stack: noted_stack(current_stack, sp),
                sp_el1: entry_stack_top(exception_stacks as int, mpidr) as u64,
            }
        }),
{
    if core_number(mpidr) != 0 {
        if released {
            EntryStep::Join
        } else {
            EntryStep::Park
        }
    } else {
        let noted: u64 = if current_stack == 0 {
            sp
        } else {
            current_stack
        };
        EntryStep::Boot {
            current_stack: noted,
            sp_el1: exception_stack(exception_stacks, mpidr),
        }
    }
}

/// What the entry code of another core sets.
#[derive(Copy, Clone, Debug, Eq, PartialEq, Structural)]
pub struct CoreSetup {
    /// The attributes of the memory types.
    pub mair: u64,
    /// How addresses are translated.
    pub tcr: u64,
    /// Which instructions run.
    pub cpacr: u64,
    /// The control register.
    pub sctlr: u64,
    /// The boot stack.
    pub current_stack: u64,
    /// Top of the exception stack.
    pub sp_el1: u64,
    /// The core.
    pub cpu_id: u64,
}

/// What the entry code of another core sets. `mmfr0` says how wide physical
/// addresses are: its low four bits go to bits 32 and up of the translation
/// control register. `big_endian` says how the kernel orders the bytes of a word.
pub fn smp_start(
    mpidr: u64,
    mmfr0: u64,
    big_endian: bool,
    current_stack: u64,
    sp: u64,
    exception_stacks: u64,
) -> (r: CoreSetup)
    requires
        exception_stacks + 64 * 0x21000 <= u64::MAX,
    ensures
        r.mair == 0xff_440c_0400,
        r.tcr == 0x3510_3510 + (mmfr0 % 16) * 0x1_0000_0000,
        r.cpacr == CPACR_FPEN,
        r.sctlr == (if big_endian {
            SCTLR_EL1_BIG_ENDIAN
        } else {
            SCTLR_EL1
        }),
        r.current_stack == noted_stack(current_stack, sp),
        r.sp_el1 == entry_stack_top(exception_stacks as int, mpidr),
        r.cpu_id == affinity(mpidr),
{
    let bits: u64 = tcr_bits();
    let range: u64 = ((mmfr0 & 0xf) << 32u64) | bits;
    let tcr: u64 = (range & !(0x7u64 << 32u64)) | ((mmfr0 & 0x7) << 32u64);
    assert((((((mmfr0 & 0xf) << 32u64) | bits) & !(0x7u64 << 32u64)) | ((mmfr0 & 0x7) << 32u64))
        == 0x3510_3510 + (mmfr0 % 16) * 0x1_0000_0000) by (bit_vector)
        requires
            bits == 0x3510_3510,
    ;
    let noted: u64 = if current_stack == 0 {
        sp
    } else {
        current_stack
    };
    CoreSetup {
        mair: mair_el1(),
        tcr,
        cpacr: CPACR_FPEN,
        sctlr: sctlr_el1(big_endian),
        current_stack: noted,
        sp_el1: exception_stack(exception_stacks, mpidr),
        cpu_id: core_number(mpidr),
    }
}

/// The exception stack that the entry code sets for a core is the one that the
/// core has of its own later, for each of the cores that the entry code tells
/// apart.
pub proof fn lemma_entry_stack_agrees(exception_stacks: int, mpidr: u64)
    requires
        affinity(mpidr) < 64,
    ensures
        entry_stack_top(exception_stacks, mpidr)
            == crate::arch::aarch64::kernel::core_local::exception_stack_top(
            exception_stacks,
            affinity(mpidr),
        ),
{
}

} // verus!
