//! Looking for a corrupted value in the frames and the memory of a task.

use vstd::prelude::*;

use crate::diagnostics::MAGIC_SLOT_CORRUPTION;
use crate::memory::Memory;
use crate::scheduler::task::TaskId;

verus! {

/// How many frames are dumped.
pub const FRAME_DUMP_LIMIT: u64 = 6;

/// The task whose frames are looked at.
pub const WATCHED_TASK: i32 = 1;

/// Where the user stack of the watched task begins.
pub const WATCHED_STACK: u64 = 0x8000_15dd_6000;

/// Where the first heap block of the watched task begins.
pub const WATCHED_HEAP0: u64 = 0x8000_0001_8b00;

/// Where the second heap block of the watched task begins.
pub const WATCHED_HEAP1: u64 = 0x8000_0002_d160;

/// Size of either heap block.
pub const WATCHED_HEAP_SIZE: u64 = 0x12010;

/// A value that is looked for besides the magic one.
pub const STACK_TOP_VALUE: u64 = 0x7fff_ffff_f8a0;

/// Whether `v` is one of the values that are looked for.
pub open spec fn is_target(v: u64) -> bool {
    v == MAGIC_SLOT_CORRUPTION || v == STACK_TOP_VALUE
}

/// The first word from `lo` on and below `hi`, in steps of eight, that holds
/// one of the values, with the value. A word at address 0 counts as none.
pub open spec fn first_target(words: Map<u64, u64>, lo: int, hi: int) -> Option<(u64, u64)>
    decreases hi + 8 - lo,
{
    if lo >= hi {
        None
    } else if is_target(words[lo as u64]) {
        if lo == 0 {
            None
        } else {
            Some((lo as u64, words[lo as u64]))
        }
    } else {
        first_target(words, lo + 8, hi)
    }
}

/// Number of words from `lo` on and below `hi`, in steps of eight.
pub open spec fn words_between(lo: int, hi: int) -> int {
    if lo >= hi {
        0
    } else {
        (hi - lo + 7) / 8
    }
}

/// Whether every word from `lo` on and below `hi` is mapped.
pub open spec fn range_mapped(words: Map<u64, u64>, lo: int, hi: int) -> bool {
    crate::memory::words_mapped(words, lo, words_between(lo, hi))
}

/// Where the part of the watched task's stack that is scanned begins.
pub open spec fn stack_scan_start(sp: u64) -> int {
    if sp - 0x80000 > WATCHED_STACK {
        sp - 0x80000
    } else {
        WATCHED_STACK as int
    }
}

/// What a dump of a frame found.
#[derive(Copy, Clone, Debug, Eq, PartialEq, Structural)]
pub struct FrameDump {
    /// The number of the dump.
    pub index: u64,
    /// Whether a general register holds the magic value.
    pub hit_x: bool,
    /// Whether the scan of a region found one of the values, and where.
    pub tls: Hit,
    pub stack: Hit,
    pub heap0: Hit,
    pub heap1: Hit,
}

/// What the scan of a region found.
#[derive(Copy, Clone, Debug, Eq, PartialEq, Structural)]
pub enum Hit {
    /// None of the values.
    Nothing,
    /// The value at the address.
    At { addr: u64, value: u64 },
}

/// The first word of the region that holds one of the values.
pub open spec fn hit(words: Map<u64, u64>, lo: int, hi: int) -> Hit {
    match first_target(words, lo, hi) {
        Some((addr, value)) => Hit::At { addr, value },
        None => Hit::Nothing,
    }
}

fn scan(memory: &Memory, lo: u64, hi: u64) -> (r: Hit)
    requires
        range_mapped(memory@, lo as int, hi as int),
    ensures
        r == hit(memory@, lo as int, hi as int),
{
    let mut a: u64 = lo;
    let ghost mut i: int = 0;
    while a < hi
        invariant
            range_mapped(memory@, lo as int, hi as int),
            i >= 0,
            a == lo + 8 * i,
            hit(memory@, lo as int, hi as int) == hit(memory@, a as int, hi as int),
        decreases hi + 8 - a,
    {
        assert(i < words_between(lo as int, hi as int));
        assert(memory@.contains_key(crate::memory::word_at(lo as int, i)));
        let v: u64 = memory.read(a);
        if v == MAGIC_SLOT_CORRUPTION || v == STACK_TOP_VALUE {
            if a != 0 {
                return Hit::At { addr: a, value: v };
            } else {
                return Hit::Nothing;
            }
        }
        a = a + 8;
        proof {
            i = i + 1;
        }
    }
    Hit::Nothing
}

/// Counts the frames that were dumped.
pub struct FrameDumps {
    pub count: u64,
}

/// Word `i` of the frame at `frame`.
pub open spec fn frame_word(words: Map<u64, u64>, frame: u64, i: int) -> u64 {
    words[crate::memory::word_at(frame as int, i)]
}

/// Whether the frame is dumped: it is one of the watched task's own, taken
/// while that task ran on its user stack, and not too many were dumped before.
pub open spec fn dumped(
    count: u64,
    current: Option<TaskId>,
    words: Map<u64, u64>,
    frame: u64,
) -> bool {
    &&& current matches Some(id) && id.0 == WATCHED_TASK
    &&& frame_word(words, frame, 0) == 0
    &&& count < FRAME_DUMP_LIMIT
}

/// What the dump of the frame finds.
pub open spec fn dump_of(index: u64, words: Map<u64, u64>, frame: u64) -> FrameDump {
    let sp = frame_word(words, frame, 3);
    let tpidr = frame_word(words, frame, 4);
    FrameDump {
        index,
        hit_x: crate::diagnostics::magic_within(words, frame as int, 5, 36),
        tls: hit(words, tpidr as int, tpidr + 0x400),
        stack: hit(words, stack_scan_start(sp), sp + 0x200),
        heap0: hit(words, WATCHED_HEAP0 as int, WATCHED_HEAP0 + WATCHED_HEAP_SIZE),
        heap1: hit(words, WATCHED_HEAP1 as int, WATCHED_HEAP1 + WATCHED_HEAP_SIZE),
    }
}

/// Whether `found` is what comes of dumping the frame, and `count` dumps become
/// `after`.
pub open spec fn is_dump(
    count: u64,
    current: Option<TaskId>,
    words: Map<u64, u64>,
    frame: u64,
    found: Option<FrameDump>,
    after: u64,
) -> bool {
    if dumped(count, current, words, frame) {
        found == Some(dump_of(count, words, frame)) && after == count + 1
    } else {
        found is None && after == count
    }
}

/// Whether the regions that a dump of the frame scans are mapped.
pub open spec fn regions_mapped(words: Map<u64, u64>, frame: u64) -> bool {
    let sp = frame_word(words, frame, 3);
    let tpidr = frame_word(words, frame, 4);
    &&& tpidr + 0x400 <= u64::MAX
    &&& sp + 0x200 <= u64::MAX
    &&& range_mapped(words, tpidr as int, tpidr + 0x400)
    &&& range_mapped(words, stack_scan_start(sp), sp + 0x200)
    &&& range_mapped(words, WATCHED_HEAP0 as int, WATCHED_HEAP0 + WATCHED_HEAP_SIZE)
    &&& range_mapped(words, WATCHED_HEAP1 as int, WATCHED_HEAP1 + WATCHED_HEAP_SIZE)
}

fn read_word(memory: &Memory, frame: u64, i: u64) -> (r: u64)
    requires
        crate::memory::frame_mapped(memory@, frame as int),
        i < 36,
    ensures
        r == frame_word(memory@, frame, i as int),
{
    assert(memory@.contains_key(crate::memory::word_at(frame as int, i as int)));
    memory.read(frame + 8 * i)
}

fn any_register_corrupt(memory: &Memory, frame: u64) -> (r: bool)
    requires
        crate::memory::frame_mapped(memory@, frame as int),
    ensures
        r == crate::diagnostics::magic_within(memory@, frame as int, 5, 36),
{
    let mut found: bool = false;
    let mut i: u64 = 5;
    while i < 36
        invariant
            5 <= i <= 36,
            crate::memory::frame_mapped(memory@, frame as int),
            found == crate::diagnostics::magic_within(memory@, frame as int, 5, i as int),
        decreases 36 - i,
    {
        let v: u64 = read_word(memory, frame, i);
        if v == MAGIC_SLOT_CORRUPTION {
            found = true;
        }
        i += 1;
    }
    found
}

impl FrameDumps {
    /// Dumps the frame at `frame`, if it is one of the first few of the watched
    /// task. `current` is the running task, if the scheduler is there already.
    pub fn dump_frame_once(
        &mut self,
        current: Option<TaskId>,
        memory: &Memory,
        frame: u64,
    ) -> (r: Option<FrameDump>)
        requires
            crate::memory::frame_mapped(memory@, frame as int),
            dumped(old(self).count, current, memory@, frame) ==> regions_mapped(memory@, frame),
        ensures
            is_dump(old(self).count, current, memory@, frame, r, final(self).count),
    {
        match current {
            Some(tid) => {
                if tid.0 != WATCHED_TASK {
                    return None;
                }
            },
            None => {
                return None;
            },
        }
        if read_word(memory, frame, 0) != 0 {
            return None;
        }
        let c: u64 = self.count;
        if c >= FRAME_DUMP_LIMIT {
            return None;
        }
        self.count = c + 1;
        let sp: u64 = read_word(memory, frame, 3);
        let tpidr: u64 = read_word(memory, frame, 4);
        let hit_x: bool = any_register_corrupt(memory, frame);
        let below: u64 = sp.saturating_sub(0x80000);
        let stack_lo: u64 = if below > WATCHED_STACK {
            below
        } else {
            WATCHED_STACK
        };
        Some(
            FrameDump {
                index: c,
                hit_x,
                tls: scan(memory, tpidr, tpidr + 0x400),
                stack: scan(memory, stack_lo, sp + 0x200),
                heap0: scan(memory, WATCHED_HEAP0, WATCHED_HEAP0 + WATCHED_HEAP_SIZE),
                heap1: scan(memory, WATCHED_HEAP1, WATCHED_HEAP1 + WATCHED_HEAP_SIZE),
            },
        )
    }
}

/// Whether the watched task resumes with the magic value in a general register.
pub open spec fn resumes_corrupt(
    current: Option<TaskId>,
    words: Map<u64, u64>,
    frame: u64,
) -> bool {
    &&& current matches Some(id) && id.0 == WATCHED_TASK
    &&& crate::diagnostics::magic_within(words, frame as int, 5, 36)
}

/// The general registers in the frame.
pub open spec fn registers(words: Map<u64, u64>, frame: u64) -> Seq<u64> {
    Seq::new(31, |i: int| frame_word(words, frame, 5 + i))
}

/// Whether `found` are the general registers that the watched task resumes
/// with, if one of them holds the magic value.
pub open spec fn is_resume_check(
    current: Option<TaskId>,
    words: Map<u64, u64>,
    frame: u64,
    found: Option<Vec<u64>>,
) -> bool {
    match found {
        Some(vals) => resumes_corrupt(current, words, frame) && vals@ == registers(words, frame),
        None => !resumes_corrupt(current, words, frame),
    }
}

/// The general registers that the watched task resumes with, if one of them
/// holds the magic value.
pub fn check_resume_x0(current: Option<TaskId>, memory: &Memory, frame: u64) -> (r: Option<
    Vec<u64>,
>)
    requires
        crate::memory::frame_mapped(memory@, frame as int),
    ensures
        is_resume_check(current, memory@, frame, r),
{
    match current {
        Some(tid) => {
            if tid.0 != WATCHED_TASK {
                return None;
            }
        },
        None => {
            return None;
        },
    }
    let mut vals: Vec<u64> = Vec::new();
    let mut i: u64 = 0;
    while i < 31
        invariant
            i <= 31,
            crate::memory::frame_mapped(memory@, frame as int),
            vals@ == Seq::new(i as nat, |j: int| frame_word(memory@, frame, 5 + j)),
        decreases 31 - i,
    {
        let v: u64 = read_word(memory, frame, i + 5);
        vals.push(v);
        i += 1;
        assert(vals@ =~= Seq::new(i as nat, |j: int| frame_word(memory@, frame, 5 + j)));
    }
    if any_register_corrupt(memory, frame) {
        assert(vals@ =~= registers(memory@, frame));
        Some(vals)
    } else {
        None
    }
}

} // verus!
