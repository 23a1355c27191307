//! The stacks of a task.

use vstd::prelude::*;

use crate::config::{DEFAULT_STACK_SIZE, KERNEL_STACK_SIZE};
use crate::memory::Memory;
use crate::pages::BASE_PAGE_SIZE;

verus! {

/// Size of the marker at the very top of each stack. The marker helps
/// debugging and is not to be overwritten.
pub const MARKER_SIZE: usize = 0x10;

/// What a marker holds.
pub const MARKER: u64 = 0xdead_beef;

/// The stack that the core booted on.
#[derive(Copy, Clone, Debug, Eq, PartialEq, Structural)]
pub struct BootStack {
    /// Lowest address of the stack.
    pub stack: u64,
}

/// Allocated stacks: from low to high a guard page, the kernel stack, a guard
/// page, the user stack and a guard page.
#[derive(Copy, Clone, Debug, Eq, PartialEq, Structural)]
pub struct CommonStack {
    /// Start of the virtual region.
    pub virt_addr: u64,
    /// Start of the physical region.
    pub phys_addr: u64,
    /// Size of both stacks.
    pub total_size: usize,
}

/// The stacks of a task.
#[derive(Copy, Clone, Debug, Eq, PartialEq, Structural)]
pub enum TaskStacks {
    Boot(BootStack),
    Common(CommonStack),
}

/// Pages to be mapped for a stack: writable, not executable.
#[derive(Copy, Clone, Debug, Eq, PartialEq, Structural)]
pub struct PageMapping {
    pub virt_addr: u64,
    pub phys_addr: u64,
    pub pages: usize,
}

/// What is to be given back when stacks are dropped.
#[derive(Copy, Clone, Debug, Eq, PartialEq)]
pub struct StackRelease {
    /// First page to be unmapped.
    pub unmap_start: u64,
    /// Number of pages to be unmapped.
    pub unmap_pages: usize,
    /// Virtual pages to be freed, as start and end.
    pub pages: (usize, usize),
    /// Physical frames to be freed, as start and end.
    pub frames: (usize, usize),
}

/// The size of the user stack for a wish of `size` bytes.
pub open spec fn user_size_for(size: int) -> int {
    if size < KERNEL_STACK_SIZE {
        KERNEL_STACK_SIZE as int
    } else {
        crate::pages::spec_pages_up(size)
    }
}

/// Largest wish for which the sizes of the regions can be computed.
pub open spec fn size_fits(size: int) -> bool {
    0 <= size && user_size_for(size) + DEFAULT_STACK_SIZE + 3 * BASE_PAGE_SIZE <= isize::MAX
}

impl TaskStacks {
    /// The stacks are where stacks can be: inside the lower half of the
    /// address space, page-aligned, with room for both stacks.
    pub open spec fn wf(&self) -> bool {
        match self {
            TaskStacks::Boot(stacks) => stacks.stack % 8 == 0 && stacks.stack + KERNEL_STACK_SIZE
                <= 0x000f_ffff_ffff_ffff,
            TaskStacks::Common(stacks) => {
                &&& stacks.virt_addr % 4096 == 0
                &&& stacks.phys_addr % 4096 == 0
                &&& stacks.total_size % 4096 == 0
                &&& stacks.total_size >= DEFAULT_STACK_SIZE + KERNEL_STACK_SIZE
                &&& stacks.virt_addr + stacks.total_size + 3 * BASE_PAGE_SIZE
                    <= 0x000f_ffff_ffff_ffff
                &&& stacks.virt_addr + stacks.total_size + 3 * BASE_PAGE_SIZE <= usize::MAX
                &&& stacks.phys_addr + stacks.total_size <= usize::MAX
                &&& stacks.phys_addr + stacks.total_size <= u64::MAX
            },
        }
    }

    /// Size of the user stack.
    pub open spec fn user_stack_size(&self) -> int {
        match self {
            TaskStacks::Boot(_) => 0,
            TaskStacks::Common(stacks) => stacks.total_size - DEFAULT_STACK_SIZE,
        }
    }

    /// Lowest address of the user stack.
    pub open spec fn user_stack(&self) -> int {
        match self {
            TaskStacks::Boot(_) => 0,
            TaskStacks::Common(stacks) => stacks.virt_addr + DEFAULT_STACK_SIZE + 2
                * BASE_PAGE_SIZE,
        }
    }

    /// Lowest address of the kernel stack.
    pub open spec fn kernel_stack(&self) -> int {
        match self {
            TaskStacks::Boot(stacks) => stacks.stack as int,
            TaskStacks::Common(stacks) => stacks.virt_addr + BASE_PAGE_SIZE,
        }
    }

    /// Size of the kernel stack.
    pub open spec fn kernel_stack_size(&self) -> int {
        match self {
            TaskStacks::Boot(_) => KERNEL_STACK_SIZE as int,
            TaskStacks::Common(_) => DEFAULT_STACK_SIZE as int,
        }
    }

    /// The top of the kernel stack.
    pub open spec fn kernel_stack_top(&self) -> int {
        self.kernel_stack() + self.kernel_stack_size()
    }

    /// Where a frame lies that is kept on the kernel stack: below the marker.
    pub open spec fn persistent_frame(&self) -> int {
        self.kernel_stack_top() - MARKER_SIZE - crate::memory::FRAME_BYTES
    }

    /// Both stacks are mapped in `words`.
    pub open spec fn mapped(&self, words: Map<u64, u64>) -> bool {
        &&& crate::memory::words_mapped(words, self.kernel_stack(), self.kernel_stack_size() / 8)
        &&& crate::memory::words_mapped(words, self.user_stack(), self.user_stack_size() / 8)
    }

    /// Every word of the kernel stack is mapped.
    pub proof fn lemma_mapped_at(&self, words: Map<u64, u64>, a: u64, b: u64)
        requires
            self.wf(),
            self.mapped(words),
            a % 8 == 0,
            b % 8 == 0,
            self.kernel_stack() <= a < self.kernel_stack_top(),
            self.kernel_stack() <= b < self.kernel_stack_top(),
        ensures
            words.contains_key(a),
            words.contains_key(b),
    {
        let n = self.kernel_stack_size() / 8;
        assert(self.kernel_stack() % 8 == 0);
        crate::memory::lemma_word_mapped(words, self.kernel_stack(), n, a);
        crate::memory::lemma_word_mapped(words, self.kernel_stack(), n, b);
    }

    /// Every word of the user stack is mapped.
    pub proof fn lemma_user_mapped_at(&self, words: Map<u64, u64>, a: u64)
        requires
            self.wf(),
            self.mapped(words),
            a % 8 == 0,
            self.user_stack() <= a < self.user_stack() + self.user_stack_size(),
        ensures
            words.contains_key(a),
    {
        let n = self.user_stack_size() / 8;
        assert(self.user_stack() % 8 == 0);
        assert(self.user_stack_size() % 8 == 0);
        crate::memory::lemma_word_mapped(words, self.user_stack(), n, a);
    }

    /// Bytes of virtual and of physical memory to be allocated for stacks with
    /// a wish of `size` bytes for the user stack.
    pub fn layout(size: usize) -> (r: (usize, usize))
        requires
            size_fits(size as int),
        ensures
            r.0 == user_size_for(size as int) + DEFAULT_STACK_SIZE + 3 * BASE_PAGE_SIZE,
            r.1 == user_size_for(size as int) + DEFAULT_STACK_SIZE,
    {
        let user_stack_size: usize = TaskStacks::user_size(size);
        let total_size: usize = user_stack_size + DEFAULT_STACK_SIZE;
        let pages: usize = crate::pages::layout_size(total_size + 3 * BASE_PAGE_SIZE).unwrap();
        let frames: usize = crate::pages::layout_size(total_size).unwrap();
        (pages, frames)
    }

    fn user_size(size: usize) -> (r: usize)
        requires
            size_fits(size as int),
        ensures
            r == user_size_for(size as int),
            r % 4096 == 0,
            r >= KERNEL_STACK_SIZE,
    {
        if size < KERNEL_STACK_SIZE {
            KERNEL_STACK_SIZE
        } else {
            crate::pages::pages_up(size)
        }
    }

    /// Stacks with a wish of `size` bytes for the user stack, in regions that
    /// were allocated at `virt_addr` and `phys_addr`. Both stacks are mapped;
    /// the user stack is cleared.
    pub fn new(size: usize, virt_addr: u64, phys_addr: u64, memory: &mut Memory) -> (r: (
        TaskStacks,
        PageMapping,
        PageMapping,
    ))
        requires
            old(memory).wf(),
            size_fits(size as int),
            virt_addr % 4096 == 0,
            phys_addr % 4096 == 0,
            virt_addr + user_size_for(size as int) + DEFAULT_STACK_SIZE + 3 * BASE_PAGE_SIZE
                <= 0x000f_ffff_ffff_ffff,
            virt_addr + user_size_for(size as int) + DEFAULT_STACK_SIZE + 3 * BASE_PAGE_SIZE
                <= usize::MAX,
            phys_addr + user_size_for(size as int) + DEFAULT_STACK_SIZE <= usize::MAX,
            phys_addr + user_size_for(size as int) + DEFAULT_STACK_SIZE <= u64::MAX,
        ensures
            final(memory).wf(),
            r.0 == TaskStacks::Common(
                (CommonStack {
                    virt_addr,
                    phys_addr,
                    total_size: (user_size_for(size as int) + DEFAULT_STACK_SIZE) as usize,
                }),
            ),
            r.0.wf(),
            r.0.mapped(final(memory)@),
            final(memory)@ == crate::memory::zero_mapped(
                crate::memory::zero_mapped(
                    old(memory)@,
                    r.0.kernel_stack(),
                    r.0.kernel_stack_size() / 8,
                ),
                r.0.user_stack(),
                r.0.user_stack_size() / 8,
            ),
            r.1 == (PageMapping {
                virt_addr: (virt_addr + BASE_PAGE_SIZE) as u64,
                phys_addr,
                pages: DEFAULT_STACK_SIZE / BASE_PAGE_SIZE,
            }),
            r.2 == (PageMapping {
                virt_addr: (virt_addr + DEFAULT_STACK_SIZE + 2 * BASE_PAGE_SIZE) as u64,
                phys_addr: (phys_addr + DEFAULT_STACK_SIZE) as u64,
                pages: (user_size_for(size as int) / BASE_PAGE_SIZE as int) as usize,
            }),
    {
        let user_stack_size: usize = TaskStacks::user_size(size);
        let total_size: usize = user_stack_size + DEFAULT_STACK_SIZE;
        let kernel_stack: u64 = crate::addr::virt_addr(virt_addr + BASE_PAGE_SIZE as u64);
        let user_stack: u64 = crate::addr::virt_addr(
            virt_addr + DEFAULT_STACK_SIZE as u64 + 2 * BASE_PAGE_SIZE as u64,
        );
        let kernel_mapping = PageMapping {
            virt_addr: kernel_stack,
            phys_addr,
            pages: DEFAULT_STACK_SIZE / BASE_PAGE_SIZE,
        };
        let user_mapping = PageMapping {
            virt_addr: user_stack,
            phys_addr: phys_addr + DEFAULT_STACK_SIZE as u64,
            pages: user_stack_size / BASE_PAGE_SIZE,
        };
        let ghost before = memory@;
        memory.map_zeroed(kernel_stack, DEFAULT_STACK_SIZE as u64 / 8);
        let ghost middle = memory@;
        memory.map_zeroed(user_stack, user_stack_size as u64 / 8);
        let stacks = TaskStacks::Common(CommonStack { virt_addr, phys_addr, total_size });
        proof {
            crate::memory::lemma_zero_mapped(
                before,
                kernel_stack as int,
                DEFAULT_STACK_SIZE as int / 8,
            );
            crate::memory::lemma_zero_mapped(
                middle,
                user_stack as int,
                user_stack_size as int / 8,
            );
            assert(stacks.kernel_stack() == kernel_stack);
            assert(stacks.user_stack() == user_stack);
            assert(stacks.user_stack_size() == user_stack_size);
        }
        (stacks, kernel_mapping, user_mapping)
    }

    /// The stack that the core booted on, at `stack`.
    pub fn from_boot_stacks(stack: u64) -> (r: TaskStacks)
        ensures
            r == TaskStacks::Boot((BootStack { stack })),
    {
        TaskStacks::Boot(BootStack { stack })
    }

    /// Size of the user stack.
    pub fn get_user_stack_size(&self) -> (r: usize)
        requires
            self.wf(),
        ensures
            r == self.user_stack_size(),
    {
        match self {
            TaskStacks::Boot(_) => 0,
            TaskStacks::Common(stacks) => stacks.total_size - DEFAULT_STACK_SIZE,
        }
    }

    /// Lowest address of the user stack.
    pub fn get_user_stack(&self) -> (r: u64)
        requires
            self.wf(),
        ensures
            r == self.user_stack(),
    {
        match self {
            TaskStacks::Boot(_) => 0,
            TaskStacks::Common(stacks) => crate::addr::virt_addr(
                stacks.virt_addr + DEFAULT_STACK_SIZE as u64 + 2 * BASE_PAGE_SIZE as u64,
            ),
        }
    }

    /// Lowest address of the kernel stack.
    pub fn get_kernel_stack(&self) -> (r: u64)
        requires
            self.wf(),
        ensures
            r == self.kernel_stack(),
    {
        match self {
            TaskStacks::Boot(stacks) => stacks.stack,
            TaskStacks::Common(stacks) => crate::addr::virt_addr(
                stacks.virt_addr + BASE_PAGE_SIZE as u64,
            ),
        }
    }

    /// Size of the kernel stack.
    pub fn get_kernel_stack_size(&self) -> (r: usize)
        ensures
            r == self.kernel_stack_size(),
    {
        match self {
            TaskStacks::Boot(_) => KERNEL_STACK_SIZE,
            TaskStacks::Common(_) => DEFAULT_STACK_SIZE,
        }
    }

    /// What is to be given back when the stacks are dropped. The stack that
    /// the core booted on is never given back.
    pub fn release(&self) -> (r: Option<StackRelease>)
        requires
            self.wf(),
        ensures
            r == (match self {
                TaskStacks::Boot(_) => None,
                TaskStacks::Common(stacks) => Some(
                    (StackRelease {
                        unmap_start: stacks.virt_addr,
                        unmap_pages: (stacks.total_size / BASE_PAGE_SIZE + 3) as usize,
                        pages: (
                            stacks.virt_addr as usize,
                            (stacks.virt_addr + stacks.total_size + 3 * BASE_PAGE_SIZE) as usize,
                        ),
                        frames: (
                            stacks.phys_addr as usize,
                            (stacks.phys_addr + stacks.total_size) as usize,
                        ),
                    }),
                ),
            }),
    {
        match self {
            TaskStacks::Boot(_) => None,
            TaskStacks::Common(stacks) => {
                let pages = crate::pages::range_of(
                    stacks.virt_addr as usize,
                    stacks.total_size + 3 * BASE_PAGE_SIZE,
                ).unwrap();
                let frames = crate::pages::range_of(
                    stacks.phys_addr as usize,
                    stacks.total_size,
                ).unwrap();
                Some(
                    StackRelease {
                        unmap_start: stacks.virt_addr,
                        unmap_pages: stacks.total_size / BASE_PAGE_SIZE + 3,
                        pages,
                        frames,
                    },
                )
            },
        }
    }
}

/// What is given back covers exactly what was allocated: as many pages and
/// frames as `layout` asked for, and every page that was mapped.
pub proof fn lemma_release_covers_layout(size: int, virt_addr: u64, phys_addr: u64)
    requires
        size_fits(size),
    ensures
        ({
            let total = user_size_for(size) + DEFAULT_STACK_SIZE;
            &&& total % (BASE_PAGE_SIZE as int) == 0
            &&& (total / (BASE_PAGE_SIZE as int) + 3) * BASE_PAGE_SIZE == total + 3 * BASE_PAGE_SIZE
            &&& virt_addr + BASE_PAGE_SIZE + DEFAULT_STACK_SIZE + BASE_PAGE_SIZE == virt_addr
                + DEFAULT_STACK_SIZE + 2 * BASE_PAGE_SIZE
            &&& virt_addr + DEFAULT_STACK_SIZE + 2 * BASE_PAGE_SIZE + user_size_for(size)
                + BASE_PAGE_SIZE == virt_addr + total + 3 * BASE_PAGE_SIZE
        }),
{
}

} // verus!
