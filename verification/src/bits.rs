//! Single-bit reasoning about `u64` bitmaps.

use vstd::prelude::*;

verus! {

/// Whether bit `i` of `n` is set.
pub open spec fn bit(n: u64, i: int) -> bool {
    (n >> (i as u64)) & 1u64 == 1u64
}

proof fn bit_of_or(n: u64, i: u64, j: u64)
    by (bit_vector)
    requires
        i < 64,
        j < 64,
    ensures
        (((n | (1u64 << i)) >> j) & 1u64 == 1u64) <==> (j == i || (n >> j) & 1u64 == 1u64),
{
}

proof fn bit_of_and_not(n: u64, i: u64, j: u64)
    by (bit_vector)
    requires
        i < 64,
        j < 64,
    ensures
        (((n & !(1u64 << i)) >> j) & 1u64 == 1u64) <==> (j != i && (n >> j) & 1u64 == 1u64),
{
}

proof fn bit_of_zero(j: u64)
    by (bit_vector)
    requires
        j < 64,
    ensures
        (0u64 >> j) & 1u64 == 0u64,
{
}

/// Setting bit `i` changes no other bit.
pub proof fn lemma_set_bit(n: u64, i: u64)
    requires
        i < 64,
    ensures
        forall|j: int|
            0 <= j < 64 ==> #[trigger] bit(n | (1u64 << i), j) == (j == i || bit(n, j)),
{
    assert forall|j: int| 0 <= j < 64 implies #[trigger] bit(n | (1u64 << i), j) == (j == i || bit(
        n,
        j,
    )) by {
        bit_of_or(n, i, j as u64);
    }
}

/// Clearing bit `i` changes no other bit.
pub proof fn lemma_clear_bit(n: u64, i: u64)
    requires
        i < 64,
    ensures
        forall|j: int|
            0 <= j < 64 ==> #[trigger] bit(n & !(1u64 << i), j) == (j != i && bit(n, j)),
{
    assert forall|j: int| 0 <= j < 64 implies #[trigger] bit(n & !(1u64 << i), j) == (j != i
        && bit(n, j)) by {
        bit_of_and_not(n, i, j as u64);
    }
}

/// No bit of zero is set.
pub proof fn lemma_zero_bits()
    ensures
        forall|j: int| 0 <= j < 64 ==> !#[trigger] bit(0, j),
{
    assert forall|j: int| 0 <= j < 64 implies !#[trigger] bit(0, j) by {
        bit_of_zero(j as u64);
    }
}

/// A bitmap without a set bit is zero.
pub proof fn lemma_no_bits_is_zero(n: u64)
    requires
        forall|j: int| 0 <= j < 64 ==> !#[trigger] bit(n, j),
    ensures
        n == 0,
{
    if n != 0 {
        vstd::std_specs::bits::axiom_u64_leading_zeros(n);
        let top = 63 - vstd::std_specs::bits::u64_leading_zeros(n);
        let shift = (63 - vstd::std_specs::bits::u64_leading_zeros(n)) as u64;
        assert((n >> shift) & 1u64 != 0u64 ==> (n >> shift) & 1u64 == 1u64) by (bit_vector);
        assert(bit(n, top));
    }
}

/// What the most significant bit of `n` is, if there is one.
pub open spec fn is_msb(n: u64, r: Option<u32>) -> bool {
    match r {
        None => n == 0,
        Some(i) => {
            &&& i < 64
            &&& bit(n, i as int)
            &&& forall|j: int| i < j < 64 ==> !#[trigger] bit(n, j)
        },
    }
}

/// Returns the most significant bit, or `None` if no bit is set.
pub fn msb(n: u64) -> (r: Option<u32>)
    ensures
        is_msb(n, r),
{
    if n == 0 {
        return None;
    }
    let zeros: u32 = n.leading_zeros();
    proof {
        vstd::std_specs::bits::axiom_u64_leading_zeros(n);
        let shift = (63 - zeros) as u64;
        assert((n >> shift) & 1u64 != 0u64 ==> (n >> shift) & 1u64 == 1u64) by (bit_vector);
        assert forall|j: int| 63 - zeros < j < 64 implies !#[trigger] bit(n, j) by {
            let k = j as u64;
            assert((n >> k) & 1u64 == 0u64);
        }
    }
    Some(u64::BITS - 1 - zeros)
}

} // verus!
