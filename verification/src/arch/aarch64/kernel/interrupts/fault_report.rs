//! What is reported of a fault before the core halts or the task ends.

use vstd::prelude::*;

use crate::memory::Memory;

verus! {

/// What the code that returned from the last exception noted.
#[derive(Copy, Clone, Debug, Eq, PartialEq, Structural)]
pub struct ReturnTrace {
    /// The program status that was restored.
    pub spsr: u64,
    /// The stack pointer to go on with.
    pub resume_sp: u64,
    /// The exception slot that was set.
    pub scratch_slot: u64,
}

/// Whether the last return went to the kernel's own stack: the mode in the low
/// four bits is 5.
pub open spec fn returned_to_kernel(trace: ReturnTrace) -> bool {
    trace.spsr & 0xf == 5
}

/// Whether the last return destroyed a stack in use: it went to the kernel's
/// own stack, but set another one.
pub open spec fn clobbered_live_stack(trace: ReturnTrace) -> bool {
    returned_to_kernel(trace) && trace.resume_sp != trace.scratch_slot
}

/// Where the exception slots of the first core are linked.
pub const SLOT_BASE: u64 = 0x4180_e000;

/// A slot and its guard.
pub const SLOT_STRIDE: u64 = 0x11000;

/// The part of a slot above which its guard begins.
pub const SLOT_BODY: u64 = 0x10000;

/// End of the exception slots of the first core.
pub const SLOT_END: u64 = 0x4184_1000;

/// Whether the fault address lies in the exception slots, or less than a slot
/// below them.
pub open spec fn near_slots(far: u64) -> bool {
    SLOT_BASE - SLOT_STRIDE <= far < SLOT_END
}

/// Where a fault address lies among the exception slots.
#[derive(Copy, Clone, Debug, Eq, PartialEq, Structural)]
pub struct SlotPlace {
    /// Distance from the first slot, negative below it.
    pub offset: i64,
    /// Whether it lies below the first slot.
    pub underflow: bool,
    /// The slot: the distance in slots, rounded towards zero.
    pub slot_idx: i64,
    /// The rest of that division, which has the sign of the distance.
    pub within: i64,
    /// Whether it lies in a guard.
    pub in_guard: bool,
}

/// Whether `place` is where `far` lies.
pub open spec fn is_place(far: u64, place: SlotPlace) -> bool {
    &&& place.offset == far - SLOT_BASE
    &&& place.underflow == (far < SLOT_BASE)
    &&& place.offset == place.slot_idx * 0x11000 + place.within
    &&& if place.underflow {
        -0x11000 < place.within <= 0
    } else {
        0 <= place.within < 0x11000
    }
    &&& place.in_guard == (place.within >= SLOT_BODY)
}

/// Where the fault address lies among the exception slots, if it does.
pub fn slot_place(far: u64) -> (r: Option<SlotPlace>)
    ensures
        match r {
            Some(place) => near_slots(far) && is_place(far, place),
            None => !near_slots(far),
        },
{
    if far < SLOT_BASE - SLOT_STRIDE || far >= SLOT_END {
        return None;
    }
    if far < SLOT_BASE {
        let below: u64 = SLOT_BASE - far;
        let idx: u64 = below / SLOT_STRIDE;
        let rest: u64 = below % SLOT_STRIDE;
        Some(
            SlotPlace {
                offset: -(below as i64),
                underflow: true,
                slot_idx: -(idx as i64),
                within: -(rest as i64),
                in_guard: false,
            },
        )
    } else {
        let off: u64 = far - SLOT_BASE;
        let idx: u64 = off / SLOT_STRIDE;
        let rest: u64 = off % SLOT_STRIDE;
        Some(
            SlotPlace {
                offset: off as i64,
                underflow: false,
                slot_idx: idx as i64,
                within: rest as i64,
                in_guard: rest >= SLOT_BODY,
            },
        )
    }
}

/// A fault address lies in one place only.
pub proof fn lemma_place_unique(far: u64, a: SlotPlace, b: SlotPlace)
    requires
        is_place(far, a),
        is_place(far, b),
    ensures
        a == b,
{
}

/// The `n` words from `base` on.
pub open spec fn window(words: Map<u64, u64>, base: int, n: int) -> Seq<u64> {
    Seq::new(n as nat, |i: int| words[crate::memory::word_at(base, i)])
}

fn read_window(memory: &Memory, base: u64, n: u64) -> (r: Vec<u64>)
    requires
        crate::memory::words_mapped(memory@, base as int, n as int),
    ensures
        r@ == window(memory@, base as int, n as int),
{
    let mut words: Vec<u64> = Vec::new();
    let mut i: u64 = 0;
    while i < n
        invariant
            i <= n,
            crate::memory::words_mapped(memory@, base as int, n as int),
            words@ == window(memory@, base as int, i as int),
        decreases n - i,
    {
        assert(memory@.contains_key(crate::memory::word_at(base as int, i as int)));
        words.push(memory.read(base + 8 * i));
        i += 1;
        assert(words@ =~= window(memory@, base as int, i as int));
    }
    words
}

/// What is known when an access to data failed.
#[derive(Copy, Clone, Debug, Eq, PartialEq, Structural)]
pub struct DataFault {
    /// The fault address.
    pub far: u64,
    /// Where the fault happened.
    pub pc: u64,
    /// The user stack pointer in the frame.
    pub sp_el0: u64,
    /// Top of the running task's kernel stack.
    pub kernel_stack_top: u64,
    /// Where the kernel's image begins.
    pub image_start: u64,
    /// What the code that returned from the last exception noted.
    pub trace: ReturnTrace,
}

/// What is reported when an access to data failed.
pub struct DataFaultReport {
    /// Where the fault happened, counted from the beginning of the image.
    pub link_pc: u64,
    /// Whether the user stack pointer is the kernel stack's top.
    pub sp_at_top: bool,
    /// Whether the fault address is the kernel stack's top.
    pub far_at_top: bool,
    /// Whether the fault address is the user stack pointer.
    pub sp_at_far: bool,
    /// Whether the last return went to the kernel's own stack.
    pub to_kernel: bool,
    /// Whether the last return destroyed a stack in use.
    pub clobbered: bool,
    /// Where the fault address lies among the exception slots.
    pub place: Option<SlotPlace>,
    /// The words at the user stack pointer, if the fault address lies among the
    /// exception slots and the stack pointer can be followed.
    pub user_stack: Option<Vec<u64>>,
}

/// Whether the words at the user stack pointer are reported.
pub open spec fn shows_user_stack(fault: DataFault) -> bool {
    near_slots(fault.far) && fault.sp_el0 != 0 && fault.sp_el0 % 8 == 0
}

/// Whether `report` is what is reported of the fault.
pub open spec fn is_data_report(
    fault: DataFault,
    words: Map<u64, u64>,
    report: DataFaultReport,
) -> bool {
    &&& report.link_pc == (fault.pc - fault.image_start) % 0x1_0000_0000_0000_0000
    &&& report.sp_at_top == (fault.sp_el0 == fault.kernel_stack_top)
    &&& report.far_at_top == (fault.far == fault.kernel_stack_top)
    &&& report.sp_at_far == (fault.sp_el0 == fault.far)
    &&& report.to_kernel == returned_to_kernel(fault.trace)
    &&& report.clobbered == clobbered_live_stack(fault.trace)
    &&& match report.place {
        Some(place) => near_slots(fault.far) && is_place(fault.far, place),
        None => !near_slots(fault.far),
    }
    &&& match report.user_stack {
        Some(stack) => shows_user_stack(fault) && stack@ == window(
            words,
            fault.sp_el0 as int,
            16,
        ),
        None => !shows_user_stack(fault),
    }
}

/// What is reported when an access to data failed. Nothing is changed.
pub fn data_fault_report(fault: &DataFault, memory: &Memory) -> (r: DataFaultReport)
    requires
        shows_user_stack(*fault) ==> crate::memory::words_mapped(
            memory@,
            fault.sp_el0 as int,
            16,
        ),
    ensures
        is_data_report(*fault, memory@, r),
{
    let link_pc: u64 = fault.pc.wrapping_sub(fault.image_start);
    let to_kernel: bool = fault.trace.spsr & 0xf == 0b0101;
    let place: Option<SlotPlace> = slot_place(fault.far);
    let user_stack: Option<Vec<u64>> = if place.is_some() && fault.sp_el0 != 0 && fault.sp_el0 % 8
        == 0 {
        Some(read_window(memory, fault.sp_el0, 16))
    } else {
        None
    };
    DataFaultReport {
        link_pc,
        sp_at_top: fault.sp_el0 == fault.kernel_stack_top,
        far_at_top: fault.far == fault.kernel_stack_top,
        sp_at_far: fault.sp_el0 == fault.far,
        to_kernel,
        clobbered: to_kernel && fault.trace.resume_sp != fault.trace.scratch_slot,
        place,
        user_stack,
    }
}

/// The addresses among the first `n` words of a window from `lo` on whose
/// sentinels are broken, in ascending order.
pub open spec fn broken(words: Map<u64, u64>, lo: int, n: int) -> Seq<u64>
    decreases n,
{
    if n <= 0 {
        Seq::empty()
    } else {
        let a = crate::memory::word_at(lo, n - 1);
        let before = broken(words, lo, n - 1);
        if words[a] == crate::arch::aarch64::kernel::scheduler::sentinel(a) {
            before
        } else {
            before.push(a)
        }
    }
}

/// The part of a stack that is looked at: from two words below the stack
/// pointer to the top, or a little above the stack pointer if the top is not
/// known.
pub open spec fn stack_lo(sp: u64) -> int {
    if sp < 16 {
        0
    } else {
        sp - 16
    }
}

/// End of the part of a stack that is looked at.
pub open spec fn stack_hi(sp: u64, initial_sp: u64) -> int {
    let guard = if initial_sp > 0 {
        initial_sp + 16
    } else {
        sp + 0x200
    };
    if guard > sp + 8 {
        guard
    } else {
        sp + 8
    }
}

/// Number of words that are looked at.
pub open spec fn stack_words(sp: u64, initial_sp: u64) -> int {
    (stack_hi(sp, initial_sp) - stack_lo(sp)) / 8
}

/// Whether the stack is looked at: there is one, and it is not too large.
pub open spec fn shows_stack(sp: u64, initial_sp: u64) -> bool {
    sp != 0 && 0 < stack_words(sp, initial_sp) <= 128
}

/// What is reported of the stack of a task.
pub struct StackReport {
    /// Where the part that is looked at begins.
    pub lo: u64,
    /// Its words.
    pub words: Vec<u64>,
    /// How many sentinels are broken.
    pub broken: u64,
    /// The first and the last broken one, and how many bytes there are from one
    /// to the end of the other.
    pub span: Option<(u64, u64, u64)>,
}

/// Whether `report` is what is reported of the stack.
pub open spec fn is_stack_report(
    sp: u64,
    initial_sp: u64,
    words: Map<u64, u64>,
    report: StackReport,
) -> bool {
    let lo = stack_lo(sp);
    let n = stack_words(sp, initial_sp);
    let list = broken(words, lo, n);
    &&& report.lo == lo
    &&& report.words@ == window(words, lo, n)
    &&& report.broken == list.len()
    &&& match report.span {
        Some((first, last, bytes)) => list.len() > 0 && first == list[0] && last == list.last()
            && bytes == last - first + 8,
        None => list.len() == 0,
    }
}

/// Words in a window ascend, so its broken sentinels do.
proof fn lemma_broken_bounds(words: Map<u64, u64>, lo: int, n: int)
    requires
        0 <= n,
        0 <= lo,
        lo + 8 * n <= u64::MAX,
    ensures
        broken(words, lo, n).len() <= n,
        forall|i: int|
            0 <= i < broken(words, lo, n).len() ==> lo <= #[trigger] broken(words, lo, n)[i] < lo
                + 8 * n,
        broken(words, lo, n).len() > 0 ==> broken(words, lo, n)[0] <= broken(words, lo, n).last(),
    decreases n,
{
    if n > 0 {
        lemma_broken_bounds(words, lo, n - 1);
    }
}

fn is_sentinel(w: u64, addr: u64) -> (r: bool)
    ensures
        r == (w == crate::arch::aarch64::kernel::scheduler::sentinel(addr)),
{
    assert((w & 0xffff_0000_0000_0000u64 == 0x5eed_0000_0000_0000u64 && w & 0x0000_ffff_ffff_ffffu64
        == addr & 0x0000_ffff_ffff_fff8u64) == (w == 0x5EED_0000_0000_0000u64 | (addr
        & 0x0000_FFFF_FFFF_FFF8u64))) by (bit_vector);
    (w & 0xffff_0000_0000_0000u64) == 0x5eed_0000_0000_0000u64 && (w & 0x0000_ffff_ffff_ffffu64) == (
    addr & 0x0000_ffff_ffff_fff8u64)
}

/// What is reported of the stack of a task whose stack pointer is `sp` and was
/// `initial_sp` when it started, if that is known. Nothing is changed.
pub fn stack_report(sp: u64, initial_sp: u64, memory: &Memory) -> (r: Option<StackReport>)
    requires
        sp + 0x200 <= u64::MAX,
        initial_sp + 16 <= u64::MAX,
        shows_stack(sp, initial_sp) ==> crate::memory::words_mapped(
            memory@,
            stack_lo(sp),
            stack_words(sp, initial_sp),
        ),
    ensures
        match r {
            Some(report) => shows_stack(sp, initial_sp) && is_stack_report(
                sp,
                initial_sp,
                memory@,
                report,
            ),
            None => !shows_stack(sp, initial_sp),
        },
{
    if sp == 0 {
        return None;
    }
    let guard_page: u64 = if initial_sp > 0 {
        initial_sp + 16
    } else {
        sp + 0x200
    };
    let lo: u64 = sp.saturating_sub(16);
    let hi: u64 = if guard_page > sp + 8 {
        guard_page
    } else {
        sp + 8
    };
    let nwords: u64 = (hi - lo) / 8;
    if nwords == 0 || nwords > 128 {
        return None;
    }
    let words: Vec<u64> = read_window(memory, lo, nwords);
    let mut count: u64 = 0;
    let mut first: Option<u64> = None;
    let mut last: Option<u64> = None;
    let mut i: u64 = 0;
    while i < nwords
        invariant
            i <= nwords <= 128,
            lo + 8 * nwords <= u64::MAX,
            words@ == window(memory@, lo as int, nwords as int),
            count == broken(memory@, lo as int, i as int).len(),
            count <= i,
            first == (if count > 0 {
                Some(broken(memory@, lo as int, i as int)[0])
            } else {
                None
            }),
            last == (if count > 0 {
                Some(broken(memory@, lo as int, i as int).last())
            } else {
                None
            }),
        decreases nwords - i,
    {
        let a: u64 = lo + 8 * i;
        let v: u64 = words[i as usize];
        if !is_sentinel(v, a) {
            count += 1;
            if first.is_none() {
                first = Some(a);
            }
            last = Some(a);
        }
        i += 1;
    }
    proof {
        lemma_broken_bounds(memory@, lo as int, nwords as int);
    }
    let span: Option<(u64, u64, u64)> = match (first, last) {
        (Some(f), Some(l)) => Some((f, l, l - f + 8)),
        _ => None,
    };
    Some(StackReport { lo, words, broken: count, span })
}

/// Above the user stacks; a frame pointer there is not followed.
pub const FRAME_POINTER_LIMIT: u64 = 0x8000_15d9_2000;

/// Whether the frame pointer is followed.
pub open spec fn follows(fp: u64, sp: u64) -> bool {
    fp != 0 && sp <= fp < FRAME_POINTER_LIMIT
}

/// The words at the frame pointer, if it can be followed.
pub fn frame_chain(fp: u64, sp: u64, memory: &Memory) -> (r: Option<Vec<u64>>)
    requires
        follows(fp, sp) ==> crate::memory::words_mapped(memory@, fp as int, 4),
    ensures
        match r {
            Some(words) => follows(fp, sp) && words@ == window(memory@, fp as int, 4),
            None => !follows(fp, sp),
        },
{
    if fp != 0 && fp >= sp && fp < FRAME_POINTER_LIMIT {
        Some(read_window(memory, fp, 4))
    } else {
        None
    }
}

} // verus!
