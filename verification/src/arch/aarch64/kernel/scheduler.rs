//! The register frame that a new task starts from.

use vstd::prelude::*;

use crate::arch::aarch64::kernel::stacks::{MARKER, MARKER_SIZE};
use crate::memory::{Memory, FRAME_BYTES, FRAME_WORDS};
use crate::scheduler::task::Task;

verus! {

/// Program status that a task starts with: exception level 1 with the stack
/// pointer of level 0, condition flags clear.
pub const INITIAL_SPSR: u64 = 0x3e4;

/// What the unused part of a kernel stack is filled with: the address itself,
/// under a tag.
pub open spec fn sentinel(addr: u64) -> u64 {
    0x5EED_0000_0000_0000u64 | (addr & 0x0000_FFFF_FFFF_FFF8u64)
}

/// What a task is started with: the address of its entry point, the argument,
/// and the address of the trampoline that calls the entry point.
#[derive(Copy, Clone, Debug, Eq, PartialEq, Structural)]
pub struct Entry {
    pub func: u64,
    pub arg: u64,
    pub task_start: u64,
}

/// Word `w` of the frame that a task starts from.
pub open spec fn initial_frame(entry: Entry, thread_ptr: Option<u64>, sp_el0: u64, w: int) -> u64 {
    if w == 1 {
        entry.task_start
    } else if w == 2 {
        INITIAL_SPSR
    } else if w == 3 {
        sp_el0
    } else if w == 4 {
        match thread_ptr {
            Some(ptr) => ptr,
            None => 0,
        }
    } else if w == 5 {
        entry.func
    } else if w == 6 {
        entry.arg
    } else {
        0
    }
}

/// Fills the words from `lo` up to `hi` with sentinels.
fn fill_sentinels(memory: &mut Memory, lo: u64, hi: u64)
    requires
        old(memory).wf(),
        lo % 8 == 0,
        hi % 8 == 0,
        lo <= hi,
        hi + 8 <= u64::MAX,
        forall|a: u64| lo <= a < hi && a % 8 == 0 ==> #[trigger] old(memory)@.contains_key(a),
    ensures
        final(memory).wf(),
        final(memory)@.dom() == old(memory)@.dom(),
        forall|a: u64| #[trigger]
            old(memory)@.contains_key(a) ==> final(memory)@[a] == (if lo <= a < hi {
                sentinel(a)
            } else {
                old(memory)@[a]
            }),
{
    let ghost start = memory@;
    let mut w: u64 = lo;
    while w < hi
        invariant
            lo <= w <= hi,
            w % 8 == 0,
            hi % 8 == 0,
            hi + 8 <= u64::MAX,
            memory.wf(),
            memory@.dom() == start.dom(),
            forall|a: u64| lo <= a < hi && a % 8 == 0 ==> #[trigger] start.contains_key(a),
            forall|a: u64| #[trigger]
                start.contains_key(a) ==> memory@[a] == (if lo <= a < w {
                    sentinel(a)
                } else {
                    start[a]
                }),
        decreases hi - w,
    {
        let ghost before = memory@;
        assert(start.contains_key(w));
        assert(memory@.dom().contains(w));
        memory.write(w, 0x5EED_0000_0000_0000u64 | (w & 0x0000_FFFF_FFFF_FFF8u64));
        assert(memory@.dom() =~= start.dom());
        assert forall|a: u64| #[trigger] start.contains_key(a) implies memory@[a] == (if lo <= a < w
            + 8 {
            sentinel(a)
        } else {
            start[a]
        }) by {
            assert(before.dom().contains(a));
            assert(memory@.contains_key(a));
            assert(a % 8 == 0);
        }
        w = w + 8;
    }
}

/// Writes the frame that a task starts from at `frame`.
fn write_initial_frame(
    memory: &mut Memory,
    frame: u64,
    entry: Entry,
    thread_ptr: Option<u64>,
    sp_el0: u64,
)
    requires
        old(memory).wf(),
        crate::memory::frame_mapped(old(memory)@, frame as int),
    ensures
        final(memory).wf(),
        final(memory)@.dom() == old(memory)@.dom(),
        forall|w: int|
            0 <= w < FRAME_WORDS ==> final(memory)@[#[trigger] crate::memory::word_at(
                frame as int,
                w,
            )] == initial_frame(entry, thread_ptr, sp_el0, w),
        forall|a: u64|
            a < frame || a >= frame + FRAME_BYTES ==> #[trigger] final(memory)@[a] == old(
                memory,
            )@[a],
{
    let ghost start = memory@;
    let mut i: u64 = 0;
    while i < FRAME_WORDS
        invariant
            i <= FRAME_WORDS,
            memory.wf(),
            memory@.dom() == start.dom(),
            crate::memory::frame_mapped(start, frame as int),
            forall|w: int|
                0 <= w < i ==> memory@[#[trigger] crate::memory::word_at(frame as int, w)]
                    == initial_frame(entry, thread_ptr, sp_el0, w),
            forall|a: u64|
                a < frame || a >= frame + FRAME_BYTES ==> #[trigger] memory@[a] == start[a],
        decreases FRAME_WORDS - i,
    {
        let value: u64 = if i == 1 {
            entry.task_start
        } else if i == 2 {
            INITIAL_SPSR
        } else if i == 3 {
            sp_el0
        } else if i == 4 {
            match thread_ptr {
                Some(ptr) => ptr,
                None => 0,
            }
        } else if i == 5 {
            entry.func
        } else if i == 6 {
            entry.arg
        } else {
            0
        };
        assert(start.contains_key(crate::memory::word_at(frame as int, i as int)));
        assert(memory@.dom().contains(crate::memory::word_at(frame as int, i as int)));
        memory.write(frame + 8 * i, value);
        assert(memory@.dom() =~= start.dom());
        i += 1;
    }
}

/// What the word at `addr` holds once a kernel stack from `lo` on was built with
/// its first frame at `frame`, and held `before` till then.
pub open spec fn kernel_word(
    lo: u64,
    frame: u64,
    entry: Entry,
    thread_ptr: Option<u64>,
    sp_el0: u64,
    addr: u64,
    before: u64,
) -> u64 {
    if frame <= addr < frame + FRAME_BYTES {
        initial_frame(entry, thread_ptr, sp_el0, (addr - frame) / 8)
    } else if addr == frame + FRAME_BYTES {
        MARKER
    } else if lo <= addr < frame {
        sentinel(addr)
    } else {
        before
    }
}

/// Builds a kernel stack from `lo` on: sentinels below the first frame at
/// `frame`, and a marker above it.
fn build_kernel_stack(
    memory: &mut Memory,
    lo: u64,
    frame: u64,
    entry: Entry,
    thread_ptr: Option<u64>,
    sp_el0: u64,
)
    requires
        old(memory).wf(),
        lo <= frame,
        lo % 8 == 0,
        frame % 8 == 0,
        frame + 0x1000 <= u64::MAX,
        forall|a: u64|
            lo <= a <= frame + FRAME_BYTES && a % 8 == 0 ==> #[trigger] old(memory)@.contains_key(
                a,
            ),
    ensures
        final(memory).wf(),
        final(memory)@.dom() == old(memory)@.dom(),
        forall|a: u64| #[trigger]
            old(memory)@.contains_key(a) ==> final(memory)@[a] == kernel_word(
                lo,
                frame,
                entry,
                thread_ptr,
                sp_el0,
                a,
                old(memory)@[a],
            ),
{
    let ghost start = memory@;
    let marker: u64 = frame + FRAME_BYTES;
    memory.write(marker, MARKER);
    assert(memory@.dom() =~= start.dom());
    let ghost marked = memory@;
    assert forall|a: u64| lo <= a < frame && a % 8 == 0 implies #[trigger] marked.contains_key(
        a,
    ) by {
        assert(start.contains_key(a));
        assert(start.dom().contains(a));
    }
    fill_sentinels(memory, lo, frame);
    let ghost filled = memory@;
    assert forall|w: int| 0 <= w < FRAME_WORDS implies filled.contains_key(
        #[trigger] crate::memory::word_at(frame as int, w),
    ) by {
        let a = crate::memory::word_at(frame as int, w);
        assert(start.contains_key(a));
        assert(start.dom().contains(a));
    }
    write_initial_frame(memory, frame, entry, thread_ptr, sp_el0);
    assert forall|a: u64| #[trigger] start.contains_key(a) implies memory@[a] == kernel_word(
        lo,
        frame,
        entry,
        thread_ptr,
        sp_el0,
        a,
        start[a],
    ) by {
        assert(start.dom().contains(a));
        assert(marked.contains_key(a));
        assert(a % 8 == 0) by {
            assert(filled.dom().contains(a));
        }
        if frame <= a < frame + FRAME_BYTES {
            let w = (a - frame) / 8;
            assert(crate::memory::word_at(frame as int, w) == a);
        } else {
            assert(memory@[a] == filled[a]);
        }
    }
}

impl Task {
    /// The stack pointer that the task body starts with: below the marker of
    /// the user stack, with room for one push.
    pub open spec fn initial_sp(&self) -> int {
        self.stacks.user_stack() + self.stacks.user_stack_size() - MARKER_SIZE - 16
    }

    /// The marker at the top of the user stack.
    pub open spec fn user_marker(&self) -> int {
        self.stacks.user_stack() + self.stacks.user_stack_size() - MARKER_SIZE
    }

    /// The thread pointer once the environment's `from_env` was taken where
    /// the task has none.
    pub open spec fn tls_or(&self, from_env: Option<u64>) -> Option<u64> {
        if self.tls is Some {
            self.tls
        } else {
            from_env
        }
    }

    /// What the word at `addr` holds once the task's first frame was built and
    /// held `before` till then.
    pub open spec fn built_word(
        &self,
        entry: Entry,
        from_env: Option<u64>,
        addr: u64,
        before: u64,
    ) -> u64 {
        let frame = self.stacks.persistent_frame();
        if frame <= addr < frame + FRAME_BYTES {
            initial_frame(
                entry,
                self.tls_or(from_env),
                self.initial_sp() as u64,
                (addr - frame) / 8,
            )
        } else if addr == frame + FRAME_BYTES || addr == self.user_marker() {
            MARKER
        } else if self.stacks.kernel_stack() <= addr < frame {
            sentinel(addr)
        } else {
            before
        }
    }

    /// Builds the frame that the task starts from at the top of its kernel
    /// stack, below a marker. The rest of the kernel stack is filled with
    /// sentinels, and the user stack gets its marker.
    pub fn create_stack_frame(&mut self, entry: Entry, from_env: Option<u64>, memory: &mut Memory)
        requires
            old(memory).wf(),
            old(self).stacks is Common,
            old(self).stacks.wf(),
            old(self).stacks.mapped(old(memory)@),
        ensures
            final(memory).wf(),
            *final(self) == (Task {
                last_stack_pointer: old(self).stacks.persistent_frame() as u64,
                user_stack_pointer: old(self).user_marker() as u64,
                tls: old(self).tls_or(from_env),
                ..*old(self)
            }),
            final(memory)@.dom() == old(memory)@.dom(),
            forall|a: u64| #[trigger]
                old(memory)@.contains_key(a) ==> final(memory)@[a] == old(self).built_word(
                    entry,
                    from_env,
                    a,
                    old(memory)@[a],
                ),
    {
        let ghost task = *self;
        let ghost start = memory@;
        if self.tls.is_none() {
            self.tls = from_env;
        }
        let kernel_stack: u64 = self.stacks.get_kernel_stack();
        let marker: u64 = crate::addr::virt_addr(
            kernel_stack + self.stacks.get_kernel_stack_size() as u64 - MARKER_SIZE as u64,
        );
        let frame: u64 = crate::addr::virt_addr(marker - FRAME_BYTES);
        let sp_top: u64 = self.stacks.get_user_stack() + self.stacks.get_user_stack_size() as u64
            - MARKER_SIZE as u64;
        assert forall|a: u64|
            kernel_stack <= a <= frame + FRAME_BYTES && a % 8 == 0 implies #[trigger] start.contains_key(
            a,
        ) by {
            task.stacks.lemma_mapped_at(start, a, a);
        }
        build_kernel_stack(memory, kernel_stack, frame, entry, self.tls, sp_top - 16);
        let ghost built = memory@;
        self.last_stack_pointer = frame;
        self.user_stack_pointer = crate::addr::virt_addr(sp_top);
        proof {
            task.stacks.lemma_user_mapped_at(start, sp_top);
            assert(memory@.dom().contains(sp_top));
        }
        memory.write(self.user_stack_pointer, MARKER);
        assert(memory@.dom() =~= start.dom());
        assert forall|a: u64| #[trigger] start.contains_key(a) implies memory@[a]
            == task.built_word(entry, from_env, a, start[a]) by {
            if a != sp_top {
                assert(memory@[a] == built[a]);
            }
        }
    }
}

} // verus!
