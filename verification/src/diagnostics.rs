//! Scanning a saved register frame for a value that betrays corruption.

use vstd::prelude::*;

use crate::memory::Memory;

verus! {

/// A value in the shape of a program status word. In any other word of a saved
/// frame it shows that the frame was corrupted.
pub const MAGIC_SLOT_CORRUPTION: u64 = 0x60000207;

/// Number of words in a saved frame.
pub const STATE_WORDS: usize = 36;

/// What is worth reporting of a word of a frame.
#[derive(Copy, Clone, Debug, Eq, PartialEq, Structural)]
pub enum FrameNote {
    /// The word at `index` holds the magic value; `is_x` says whether it is a
    /// general register.
    Match { index: u64, is_x: bool },
    /// The exception link register.
    Elr { value: u64 },
    /// The program status.
    Spsr { value: u64 },
}

/// Whether the word at `index` of a frame is a general register.
pub open spec fn is_x_register(index: int) -> bool {
    5 <= index <= 35
}

/// What is to be reported of word `index`, which holds `value`.
pub open spec fn note_of(index: int, value: u64) -> Option<FrameNote> {
    if value == MAGIC_SLOT_CORRUPTION {
        Some(FrameNote::Match { index: index as u64, is_x: is_x_register(index) })
    } else if index == 2 {
        Some(FrameNote::Spsr { value })
    } else if index == 1 {
        Some(FrameNote::Elr { value })
    } else {
        None
    }
}

/// What is to be reported of the first `n` words of the frame at `base`.
pub open spec fn notes(words: Map<u64, u64>, base: int, n: int) -> Seq<FrameNote>
    decreases n,
{
    if n <= 0 {
        Seq::empty()
    } else {
        let before = notes(words, base, n - 1);
        match note_of(n - 1, words[crate::memory::word_at(base, n - 1)]) {
            Some(note) => before.push(note),
            None => before,
        }
    }
}

/// Whether one of the words `lo` to `hi - 1` of the frame at `base` holds the
/// magic value.
pub open spec fn magic_within(words: Map<u64, u64>, base: int, lo: int, hi: int) -> bool {
    exists|i: int|
        lo <= i < hi && words[#[trigger] crate::memory::word_at(base, i)] == MAGIC_SLOT_CORRUPTION
}

/// What a scan found.
pub struct FrameScan {
    /// What is to be reported, in the order of the words.
    pub notes: Vec<FrameNote>,
    /// Whether any word holds the magic value.
    pub hit_any: bool,
    /// Whether a general register holds it.
    pub hit_x: bool,
}

/// Scans the saved frame at `frame_base` for the magic value. Nothing is
/// changed.
pub fn dump_frame_magic(memory: &Memory, frame_base: u64) -> (r: FrameScan)
    requires
        crate::memory::frame_mapped(memory@, frame_base as int),
    ensures
        r.notes@ == notes(memory@, frame_base as int, 36),
        r.hit_any == magic_within(memory@, frame_base as int, 0, 36),
        r.hit_x == magic_within(memory@, frame_base as int, 5, 36),
{
    let mut found: Vec<FrameNote> = Vec::new();
    let mut hit_any: bool = false;
    let mut hit_x: bool = false;
    let mut i: u64 = 0;
    while i < STATE_WORDS as u64
        invariant
            i <= 36,
            crate::memory::frame_mapped(memory@, frame_base as int),
            found@ == notes(memory@, frame_base as int, i as int),
            hit_any == magic_within(memory@, frame_base as int, 0, i as int),
            hit_x == magic_within(memory@, frame_base as int, 5, i as int),
        decreases 36 - i,
    {
        assert(memory@.contains_key(crate::memory::word_at(frame_base as int, i as int)));
        let v: u64 = memory.read(frame_base + 8 * i);
        let is_x: bool = i >= 5 && i <= 35;
        if v == MAGIC_SLOT_CORRUPTION {
            hit_any = true;
            if is_x {
                hit_x = true;
            }
            found.push(FrameNote::Match { index: i, is_x });
        } else if i == 2 {
            found.push(FrameNote::Spsr { value: v });
        } else if i == 1 {
            found.push(FrameNote::Elr { value: v });
        }
        i += 1;
    }
    FrameScan { notes: found, hit_any, hit_x }
}

} // verus!
