//! Pages and ranges of pages.

use vstd::prelude::*;

use align_address::Align;

verus! {

/// Size of a page in bytes.
pub const BASE_PAGE_SIZE: usize = 0x1000;

/// `align_address::Align::align_up` on `usize`: the smallest multiple of
/// `align`, a power of two, that is not below `value`.
#[verifier::external_body]
fn align_up(value: usize, align: usize) -> (r: usize)
    requires
        align > 0,
        align & ((align - 1) as usize) == 0,
        value + align - 1 <= usize::MAX,
    ensures
        value <= r < value + align,
        r % align == 0,
{
    value.align_up(align)
}

/// `free_list::PageLayout::from_size`: a layout of `size` bytes, which there
/// is exactly if `size` is a multiple of the page size and fits in `isize`.
#[verifier::external_body]
fn page_layout(size: usize) -> (r: Option<usize>)
    ensures
        r == (if size % 4096 == 0 && size <= isize::MAX {
            Some(size)
        } else {
            None
        }),
{
    match free_list::PageLayout::from_size(size) {
        Ok(layout) => Some(layout.size()),
        Err(_) => None,
    }
}

/// Whether `n` is a power of two.
pub open spec fn power_of_two(n: usize) -> bool {
    n > 0 && n & ((n - 1) as usize) == 0
}

/// `free_list::PageLayout::from_size_align`: the size and the alignment of a
/// layout, which there is exactly if both are multiples of the page size, the
/// alignment is a power of two, and the size rounded up to the alignment fits
/// in `isize`.
#[verifier::external_body]
fn page_layout_aligned(size: usize, align: usize) -> (r: Option<(usize, usize)>)
    ensures
        r == (if size % 4096 == 0 && align % 4096 == 0 && power_of_two(align) && ((size + align - 1)
            / align as int) * align <= isize::MAX {
            Some((size, align))
        } else {
            None
        }),
{
    match free_list::PageLayout::from_size_align(size, align) {
        Ok(layout) => Some((layout.size(), layout.align())),
        Err(_) => None,
    }
}

/// The size and the alignment of a layout, if there is such a layout.
pub fn aligned_layout(size: usize, align: usize) -> (r: Option<(usize, usize)>)
    ensures
        r == (if size % 4096 == 0 && align % 4096 == 0 && power_of_two(align) && ((size + align - 1)
            / align as int) * align <= isize::MAX {
            Some((size, align))
        } else {
            None
        }),
{
    page_layout_aligned(size, align)
}

/// `free_list::PageRange::from_start_len`: the start and the end of a range,
/// which there is exactly if the range is not empty, does not overflow, and
/// starts and ends at page boundaries.
#[verifier::external_body]
fn page_range(start: usize, len: usize) -> (r: Option<(usize, usize)>)
    ensures
        r == (if len > 0 && start + len <= usize::MAX && start % 4096 == 0 && (start + len) % 4096
            == 0 {
            Some((start, (start + len) as usize))
        } else {
            None
        }),
{
    match free_list::PageRange::from_start_len(start, len) {
        Ok(range) => Some((range.start(), range.end())),
        Err(_) => None,
    }
}

/// `value` rounded up to whole pages.
pub open spec fn spec_pages_up(value: int) -> int {
    ((value + 4095) / 4096) * 4096
}

/// `value` rounded up to whole pages.
pub fn pages_up(value: usize) -> (r: usize)
    requires
        value + 4095 <= usize::MAX,
    ensures
        r == spec_pages_up(value as int),
        r % 4096 == 0,
        value <= r < value + 4096,
{
    assert(0x1000usize & 0xfffusize == 0) by (bit_vector);
    align_up(value, BASE_PAGE_SIZE)
}

/// The size of a layout of `size` bytes, if there is such a layout.
pub fn layout_size(size: usize) -> (r: Option<usize>)
    ensures
        r == (if size % 4096 == 0 && size <= isize::MAX {
            Some(size)
        } else {
            None
        }),
{
    page_layout(size)
}

/// The range of pages with `len` bytes from `start` on, if there is one.
pub fn range_of(start: usize, len: usize) -> (r: Option<(usize, usize)>)
    ensures
        r == (if len > 0 && start + len <= usize::MAX && start % 4096 == 0 && (start + len) % 4096
            == 0 {
            Some((start, (start + len) as usize))
        } else {
            None
        }),
{
    page_range(start, len)
}

} // verus!
