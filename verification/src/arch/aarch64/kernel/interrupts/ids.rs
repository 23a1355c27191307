//! Interrupt identifiers and the software-generated interrupts of the kernel.

use vstd::prelude::*;

use arm_gic::IntId;

verus! {

/// The first private peripheral interrupt.
pub const PPI_START: u8 = 16;

/// The first shared peripheral interrupt.
pub const SPI_START: u8 = 32;

/// Software-generated interrupt that lets the scheduler run.
pub const SGI_RESCHED: u8 = 1;

/// Software-generated interrupt that wakes a continuation.
pub const SGI_CONT_WAKE: u8 = 11;

/// Software-generated interrupt by which the real-time band wakes the
/// cooperative band.
pub const SGI_RT_BRIDGE: u8 = 12;

/// Software-generated interrupt of the cooperative band.
pub const SGI_COOP_WAKE: u8 = 13;

/// Test interrupt of lower priority.
pub const SGI_PMRTEST_LO: u8 = 14;

/// Test interrupt of the highest priority.
pub const SGI_PMRTEST_HI: u8 = 15;

/// Priority of the cooperative band.
pub const COOP_WAKE_PRIORITY: u8 = 0x60;

/// Priority of the real-time band.
pub const RT_BRIDGE_PRIORITY: u8 = 0x20;

/// `arm_gic::IntId::sgi`: software-generated interrupts are numbered from 0.
#[verifier::external_body]
fn sgi_id(sgi: u32) -> (r: u32)
    requires
        sgi < 16,
    ensures
        r == sgi,
{
    IntId::sgi(sgi).into()
}

/// `arm_gic::IntId::ppi`: private peripheral interrupts are numbered from 16.
#[verifier::external_body]
fn ppi_id(ppi: u32) -> (r: u32)
    requires
        ppi < 16,
    ensures
        r == 16 + ppi,
{
    IntId::ppi(ppi).into()
}

/// `arm_gic::IntId::spi`: shared peripheral interrupts are numbered from 32.
#[verifier::external_body]
fn spi_id(spi: u32) -> (r: u32)
    requires
        spi < 988,
    ensures
        r == 32 + spi,
{
    IntId::spi(spi).into()
}

/// The identifier of a software-generated interrupt.
pub fn sgi(number: u8) -> (r: u32)
    requires
        number < 16,
    ensures
        r == number,
{
    sgi_id(number as u32)
}

/// Whether an interrupt belongs to one core or to all.
#[derive(Copy, Clone, Debug, Eq, PartialEq, Structural)]
pub enum IrqKind {
    /// A private peripheral interrupt.
    Ppi,
    /// A shared peripheral interrupt.
    Spi,
}

/// Whether there is an interrupt `irq` of the kind.
pub open spec fn irq_exists(kind: IrqKind, irq: u32) -> bool {
    match kind {
        IrqKind::Ppi => irq < 16,
        IrqKind::Spi => irq < 988,
    }
}

/// The identifier of the interrupt `irq` of the kind.
pub open spec fn irq_id(kind: IrqKind, irq: u32) -> int {
    match kind {
        IrqKind::Ppi => 16 + irq,
        IrqKind::Spi => 32 + irq,
    }
}

/// The identifier of a peripheral interrupt.
pub fn peripheral(kind: IrqKind, irq: u32) -> (r: u32)
    requires
        irq_exists(kind, irq),
    ensures
        r == irq_id(kind, irq),
{
    match kind {
        IrqKind::Ppi => ppi_id(irq),
        IrqKind::Spi => spi_id(irq),
    }
}

/// The value that sends the interrupt `intid` to `core_id` when it is written
/// to the register for software-generated interrupts: the identifier lies in
/// bits 24 and up, the target list has the bit of the core.
pub open spec fn spec_sgi_value(intid: u8, core_id: u32) -> u64 {
    ((intid as u64) << 24u64) | (1u64 << (core_id as u64))
}

/// The value that sends the interrupt `intid` to `core_id`.
pub fn sgi_value(intid: u8, core_id: u32) -> (r: u64)
    requires
        core_id < 64,
    ensures
        r == spec_sgi_value(intid, core_id),
{
    let intid: u64 = intid as u64;
    let target_list: u64 = 1u64 << (core_id as u64);
    (intid << 24u64) | target_list
}

/// The value that wakes up `core_id`: its scheduler is to run.
pub fn wakeup_core(core_id: u32) -> (r: u64)
    requires
        core_id < 64,
    ensures
        r == spec_sgi_value(SGI_RESCHED, core_id),
{
    sgi_value(SGI_RESCHED, core_id)
}

/// The value that sends the interrupt `intid` to the core that does input and
/// output.
pub fn pend_sgi_to_self(intid: u8) -> (r: u64)
    ensures
        r == spec_sgi_value(intid, 0),
{
    sgi_value(intid, 0)
}

/// The interrupt and the core can be read back from the value that sends it,
/// for the cores that the target list has room for.
pub proof fn lemma_sgi_value(intid: u8, core_id: u32)
    requires
        core_id < 16,
    ensures
        (spec_sgi_value(intid, core_id) >> 24u64) & 0xff == intid,
        spec_sgi_value(intid, core_id) & 0xffff == 1u64 << (core_id as u64),
{
    let i = intid as u64;
    let c = core_id as u64;
    assert((((i << 24u64) | (1u64 << c)) >> 24u64) & 0xff == i) by (bit_vector)
        requires
            i < 256,
            c < 16,
    ;
    assert(((i << 24u64) | (1u64 << c)) & 0xffff == 1u64 << c) by (bit_vector)
        requires
            i < 256,
            c < 16,
    ;
}

} // verus!
