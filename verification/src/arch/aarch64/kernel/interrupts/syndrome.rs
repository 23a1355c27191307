//! What the exception syndrome register says.

use vstd::prelude::*;

use aarch64_cpu::registers::ESR_EL1;

verus! {

/// Why a synchronous exception was taken, as far as it matters.
#[derive(Copy, Clone, Debug, Eq, PartialEq, Structural)]
pub enum ExceptionClass {
    /// An access to data failed.
    DataAbort,
    /// A breakpoint instruction.
    Breakpoint,
    /// Floating-point registers were used.
    FloatingPoint,
    /// Anything else.
    Other,
}

/// The class that the register's bits 26 to 31 hold.
pub open spec fn class_bits(esr: u64) -> u64 {
    (esr >> 26u64) & 0x3f
}

/// The part of the register that depends on the class: bits 0 to 24.
pub open spec fn syndrome_bits(esr: u64) -> u64 {
    esr & 0x1ff_ffff
}

/// Whether there is a class with this number.
pub open spec fn class_exists(ec: u64) -> bool {
    ||| ec <= 0x01
    ||| 0x03 <= ec <= 0x07
    ||| ec == 0x0a
    ||| 0x0c <= ec <= 0x0e
    ||| ec == 0x11
    ||| 0x14 <= ec <= 0x19
    ||| 0x1b <= ec <= 0x1d
    ||| 0x20 <= ec <= 0x22
    ||| 0x24 <= ec <= 0x28
    ||| 0x2c <= ec <= 0x2d
    ||| 0x2f <= ec <= 0x35
    ||| ec == 0x38
    ||| 0x3c <= ec <= 0x3d
}

/// The class with this number.
pub open spec fn class_of(ec: u64) -> ExceptionClass {
    if ec == 0x24 || ec == 0x25 {
        ExceptionClass::DataAbort
    } else if ec == 0x3c {
        ExceptionClass::Breakpoint
    } else if ec == 0x07 {
        ExceptionClass::FloatingPoint
    } else {
        ExceptionClass::Other
    }
}

/// `aarch64_cpu::registers::ESR_EL1::EC.read`: the six bits from bit 26 on.
#[verifier::external_body]
fn read_class(esr: u64) -> (r: u64)
    ensures
        r == class_bits(esr),
{
    ESR_EL1::EC.read(esr)
}

/// `aarch64_cpu::registers::ESR_EL1::ISS.read`: the 25 bits from bit 0 on.
#[verifier::external_body]
fn read_syndrome(esr: u64) -> (r: u64)
    ensures
        r == syndrome_bits(esr),
{
    ESR_EL1::ISS.read(esr)
}

/// `aarch64_cpu::registers::ESR_EL1::EC.read_as_enum`: the class in the six
/// bits from bit 26 on, if there is a class with that number. It is given by its
/// number.
#[verifier::external_body]
fn read_class_as_enum(esr: u64) -> (r: Option<u64>)
    ensures
        r == (if class_exists(class_bits(esr)) {
            Some(class_bits(esr))
        } else {
            None
        }),
{
    match ESR_EL1::EC.read_as_enum::<ESR_EL1::EC::Value>(esr) {
        Some(class) => Some(class as u64),
        None => None,
    }
}

/// What the class with this number means, as far as it matters.
fn class_meaning(ec: u64) -> (r: ExceptionClass)
    ensures
        r == class_of(ec),
{
    if ec == 0x24 || ec == 0x25 {
        ExceptionClass::DataAbort
    } else if ec == 0x3c {
        ExceptionClass::Breakpoint
    } else if ec == 0x07 {
        ExceptionClass::FloatingPoint
    } else {
        ExceptionClass::Other
    }
}

/// What to do about a synchronous exception.
#[derive(Copy, Clone, Debug, Eq, PartialEq, Structural)]
pub enum SyncKind {
    /// The page of the fault address is not mapped: report it and halt.
    PageFault,
    /// A failed access whose address is not known: report it and go on.
    UnknownAbort,
    /// A breakpoint: report it and halt.
    DebugTrap,
    /// An instruction could not be fetched: report it and end the task.
    InstructionAbort,
    /// The floating-point registers change hands.
    FloatingPoint,
    /// Nothing is known of such an exception: report it and halt.
    Unsupported,
}

/// What to do about the exception with this class and syndrome. The fault
/// address is known unless bit 10 of the syndrome is set.
pub open spec fn sync_kind(esr: u64) -> SyncKind {
    let ec = class_bits(esr);
    match class_of(ec) {
        ExceptionClass::DataAbort => if syndrome_bits(esr) & 0x400 == 0 {
            SyncKind::PageFault
        } else {
            SyncKind::UnknownAbort
        },
        ExceptionClass::Breakpoint => SyncKind::DebugTrap,
        ExceptionClass::FloatingPoint => SyncKind::FloatingPoint,
        ExceptionClass::Other => if ec == 0x20 || ec == 0x21 {
            SyncKind::InstructionAbort
        } else {
            SyncKind::Unsupported
        },
    }
}

/// What to do about the exception that `esr` describes. There is no answer if
/// its class does not exist.
pub fn classify(esr: u64) -> (r: Option<SyncKind>)
    ensures
        r == (if class_exists(class_bits(esr)) {
            Some(sync_kind(esr))
        } else {
            None
        }),
{
    let ec_raw: u64 = read_class(esr);
    let ec: ExceptionClass = match read_class_as_enum(esr) {
        Some(ec) => class_meaning(ec),
        None => {
            return None;
        },
    };
    let iss: u64 = read_syndrome(esr);
    if ec == ExceptionClass::DataAbort {
        if iss & 0x400 == 0 {
            Some(SyncKind::PageFault)
        } else {
            Some(SyncKind::UnknownAbort)
        }
    } else if ec == ExceptionClass::Breakpoint {
        Some(SyncKind::DebugTrap)
    } else if ec_raw == 0x20 || ec_raw == 0x21 {
        Some(SyncKind::InstructionAbort)
    } else if ec == ExceptionClass::FloatingPoint {
        Some(SyncKind::FloatingPoint)
    } else {
        Some(SyncKind::Unsupported)
    }
}

} // verus!
