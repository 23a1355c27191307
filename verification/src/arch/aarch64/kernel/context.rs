//! The switch between a task and a continuation.

use vstd::prelude::*;

use crate::arch::aarch64::kernel::continuations::ContSwitch;
use crate::arch::aarch64::kernel::core_local::CoreLocal;
use crate::memory::{Memory, FRAME_WORDS};

verus! {

/// Number of general registers.
pub const REGISTERS: usize = 31;

/// Program status of a context that gave itself up, but for the stack that it
/// uses: exception level 1, interrupts kept out.
pub const SWITCH_SPSR: u64 = 0x3c4;

/// The registers of what runs.
pub struct Context {
    /// Which stack it uses: 1 is the kernel's own.
    pub spsel: u64,
    /// Its stack pointer.
    pub sp: u64,
    /// Its thread pointer.
    pub tpidr_el0: u64,
    /// The general registers.
    pub x: Vec<u64>,
}

impl Context {
    /// There is a value for every register.
    pub open spec fn wf(&self) -> bool {
        self.x@.len() == REGISTERS && self.spsel <= 1
    }
}

/// The registers with which a context goes on.
pub struct Resumed {
    /// Where it goes on.
    pub pc: u64,
    /// Its program status.
    pub spsr: u64,
    /// Its thread pointer.
    pub tpidr_el0: u64,
    /// The kernel's stack pointer.
    pub sp_el1: u64,
    /// The user stack pointer, if that is set.
    pub sp_el0: Option<u64>,
    /// The general registers.
    pub x: Vec<u64>,
}

/// Word `w` of the frame that keeps a context which gave itself up: it goes on
/// where its link register points to.
pub open spec fn kept_word(context: Context, w: int) -> u64 {
    if w == 0 {
        context.spsel
    } else if w == 1 {
        context.x@[30]
    } else if w == 2 {
        SWITCH_SPSR | context.spsel
    } else if w == 3 {
        context.sp
    } else if w == 4 {
        context.tpidr_el0
    } else {
        context.x@[w - 5]
    }
}

/// Whether `after` is `before` with the context kept at `frame`.
pub open spec fn context_kept(
    before: Map<u64, u64>,
    after: Map<u64, u64>,
    frame: int,
    context: Context,
) -> bool {
    &&& after.dom() == before.dom()
    &&& forall|w: int|
        0 <= w < FRAME_WORDS ==> after[#[trigger] crate::memory::word_at(frame, w)] == kept_word(
            context,
            w,
        )
    &&& forall|a: u64|
        a < frame || a >= frame + crate::memory::FRAME_BYTES ==> #[trigger] after[a] == before[a]
}

/// Whether `r` is what the context that is kept at `frame` goes on with. On the
/// kernel's own stack it gets its stack pointer back; otherwise that is its user
/// stack pointer, and the kernel's stack is the exception slot.
pub open spec fn is_resumed(words: Map<u64, u64>, frame: int, slot: u64, r: Resumed) -> bool {
    let spsel = words[crate::memory::word_at(frame, 0)];
    let sp = words[crate::memory::word_at(frame, 3)];
    &&& r.pc == words[crate::memory::word_at(frame, 1)]
    &&& r.spsr == words[crate::memory::word_at(frame, 2)]
    &&& r.tpidr_el0 == words[crate::memory::word_at(frame, 4)]
    &&& r.sp_el1 == (if spsel == 1 {
        sp
    } else {
        slot
    })
    &&& r.sp_el0 == (if spsel == 1 {
        None
    } else {
        Some(sp)
    })
    &&& r.x@ == Seq::new(31, |i: int| words[crate::memory::word_at(frame, 5 + i)])
}

fn keep(memory: &mut Memory, frame: u64, context: &Context)
    requires
        old(memory).wf(),
        context.wf(),
        crate::memory::frame_mapped(old(memory)@, frame as int),
    ensures
        final(memory).wf(),
        context_kept(old(memory)@, final(memory)@, frame as int, *context),
{
    let ghost start = memory@;
    let mut i: u64 = 0;
    while i < FRAME_WORDS
        invariant
            i <= FRAME_WORDS,
            memory.wf(),
            context.wf(),
            memory@.dom() == start.dom(),
            crate::memory::frame_mapped(start, frame as int),
            forall|w: int|
                0 <= w < i ==> memory@[#[trigger] crate::memory::word_at(frame as int, w)]
                    == kept_word(*context, w),
            forall|a: u64|
                a < frame || a >= frame + crate::memory::FRAME_BYTES ==> #[trigger] memory@[a]
                    == start[a],
        decreases FRAME_WORDS - i,
    {
        let value: u64 = if i == 0 {
            context.spsel
        } else if i == 1 {
            context.x[30]
        } else if i == 2 {
            SWITCH_SPSR | context.spsel
        } else if i == 3 {
            context.sp
        } else if i == 4 {
            context.tpidr_el0
        } else {
            context.x[(i - 5) as usize]
        };
        assert(start.contains_key(crate::memory::word_at(frame as int, i as int)));
        assert(memory@.dom().contains(crate::memory::word_at(frame as int, i as int)));
        memory.write(frame + 8 * i, value);
        assert(memory@.dom() =~= start.dom());
        i += 1;
    }
}

fn read(memory: &Memory, frame: u64, w: u64) -> (r: u64)
    requires
        crate::memory::frame_mapped(memory@, frame as int),
        w < FRAME_WORDS,
    ensures
        r == memory@[crate::memory::word_at(frame as int, w as int)],
{
    assert(memory@.contains_key(crate::memory::word_at(frame as int, w as int)));
    memory.read(frame + 8 * w)
}

fn resume(memory: &Memory, frame: u64, slot: u64) -> (r: Resumed)
    requires
        crate::memory::frame_mapped(memory@, frame as int),
    ensures
        is_resumed(memory@, frame as int, slot, r),
{
    let spsel: u64 = read(memory, frame, 0);
    let sp: u64 = read(memory, frame, 3);
    let mut x: Vec<u64> = Vec::new();
    let mut i: u64 = 0;
    while i < 31
        invariant
            i <= 31,
            crate::memory::frame_mapped(memory@, frame as int),
            x@ == Seq::new(
                i as nat,
                |j: int| memory@[crate::memory::word_at(frame as int, 5 + j)],
            ),
        decreases 31 - i,
    {
        x.push(read(memory, frame, i + 5));
        i += 1;
        assert(x@ =~= Seq::new(
            i as nat,
            |j: int| memory@[crate::memory::word_at(frame as int, 5 + j)],
        ));
    }
    Resumed {
        pc: read(memory, frame, 1),
        spsr: read(memory, frame, 2),
        tpidr_el0: read(memory, frame, 4),
        sp_el1: if spsel == 1 {
            sp
        } else {
            slot
        },
        sp_el0: if spsel == 1 {
            None
        } else {
            Some(sp)
        },
        x,
    }
}

/// Keeps the context that runs in the frame `switch.save`, and gives what the
/// context in the frame `switch.target` goes on with. The exception slot of the
/// latter becomes the core's.
pub fn cont_switch(
    core: &mut CoreLocal,
    memory: &mut Memory,
    switch: &ContSwitch,
    context: &Context,
) -> (r: Resumed)
    requires
        old(memory).wf(),
        context.wf(),
        crate::memory::frame_mapped(old(memory)@, switch.save as int),
        crate::memory::frame_mapped(old(memory)@, switch.target as int),
    ensures
        final(memory).wf(),
        context_kept(old(memory)@, final(memory)@, switch.save as int, *context),
        is_resumed(final(memory)@, switch.target as int, switch.target_slot, r),
        *final(core) == (CoreLocal { scratch_slot: switch.target_slot, ..*old(core) }),
{
    let ghost start = memory@;
    keep(memory, switch.save, context);
    proof {
        assert forall|w: int| 0 <= w < FRAME_WORDS implies memory@.contains_key(
            #[trigger] crate::memory::word_at(switch.target as int, w),
        ) by {
            assert(start.contains_key(crate::memory::word_at(switch.target as int, w)));
            assert(start.dom().contains(crate::memory::word_at(switch.target as int, w)));
        }
    }
    core.scratch_slot = switch.target_slot;
    resume(memory, switch.target, switch.target_slot)
}

/// A context that gave itself up and is resumed from its frame, which nothing
/// else wrote to in between, goes on where it was: with its stack, its thread
/// pointer and all its general registers, at its link register.
pub proof fn lemma_switch_roundtrip(
    before: Map<u64, u64>,
    kept: Map<u64, u64>,
    later: Map<u64, u64>,
    frame: int,
    context: Context,
    slot: u64,
    r: Resumed,
)
    requires
        context.wf(),
        context_kept(before, kept, frame, context),
        forall|w: int|
            0 <= w < FRAME_WORDS ==> later[#[trigger] crate::memory::word_at(frame, w)]
                == kept[crate::memory::word_at(frame, w)],
        is_resumed(later, frame, slot, r),
    ensures
        r.pc == context.x@[30],
        r.spsr == SWITCH_SPSR | context.spsel,
        r.tpidr_el0 == context.tpidr_el0,
        r.x@ == context.x@,
        context.spsel == 1 ==> r.sp_el1 == context.sp,
        context.spsel == 0 ==> r.sp_el0 == Some(context.sp) && r.sp_el1 == slot,
{
    assert forall|w: int| 0 <= w < FRAME_WORDS implies later[#[trigger] crate::memory::word_at(
        frame,
        w,
    )] == kept_word(context, w) by {}
    assert(later[crate::memory::word_at(frame, 0)] == context.spsel);
    assert(later[crate::memory::word_at(frame, 3)] == context.sp);
    assert(r.x@ =~= context.x@) by {
        assert forall|i: int| 0 <= i < 31 implies r.x@[i] == context.x@[i] by {
            assert(later[crate::memory::word_at(frame, 5 + i)] == kept_word(context, 5 + i));
        }
    }
}

} // verus!
