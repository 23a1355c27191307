//! Canonical virtual addresses.

use vstd::prelude::*;

verus! {

/// Whether `addr` is a virtual address of the kernel's address space: its top
/// twelve bits are all equal.
pub open spec fn canonical(addr: int) -> bool {
    0 <= addr <= 0x000f_ffff_ffff_ffff || 0xfff0_0000_0000_0000 <= addr <= u64::MAX
}

/// `memory_addresses::arch::aarch64::VirtAddr::try_new`: the address is
/// accepted exactly if it is canonical, and is then kept as it is.
#[verifier::external_body]
fn try_virt_addr(addr: u64) -> (r: Option<u64>)
    ensures
        r == (if canonical(addr as int) {
            Some(addr)
        } else {
            None
        }),
{
    match memory_addresses::arch::aarch64::VirtAddr::try_new(addr) {
        Ok(virt_addr) => Some(virt_addr.as_u64()),
        Err(_) => None,
    }
}

/// The virtual address `addr`, if it is one.
pub fn checked_virt_addr(addr: u64) -> (r: Option<u64>)
    ensures
        r == (if canonical(addr as int) {
            Some(addr)
        } else {
            None
        }),
{
    try_virt_addr(addr)
}

/// The virtual address `addr`.
pub fn virt_addr(addr: u64) -> (r: u64)
    requires
        canonical(addr as int),
    ensures
        r == addr,
{
    try_virt_addr(addr).unwrap()
}

/// An address is canonical exactly if its top twelve bits are all zeros or all ones.
pub proof fn lemma_canonical_top_bits(addr: u64)
    ensures
        canonical(addr as int) <==> addr / 0x10_0000_0000_0000 == 0 || addr / 0x10_0000_0000_0000
            == 0xfff,
{
}

} // verus!
