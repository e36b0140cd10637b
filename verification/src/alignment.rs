//! Rounding sizes and offsets up to an alignment boundary.

use vstd::prelude::*;

verus! {

/// The smallest multiple of `align` that is at least `size`.
pub open spec fn spec_align_to(size: int, align: int) -> int
    recommends
        align > 0,
{
    ((size + align - 1) / align) * align
}

/// How many bytes must be added to `value` to reach the next multiple of
/// `alignment`.
pub open spec fn spec_offset_to_alignment(value: int, alignment: int) -> int
    recommends
        alignment > 0,
{
    spec_align_to(value, alignment) - value
}

/// The rounded value is a multiple of the alignment, lies within one
/// alignment of the input, and is the input itself when already aligned.
pub proof fn lemma_align_to_properties(size: int, align: int)
    requires
        align > 0,
        size >= 0,
    ensures
        spec_align_to(size, align) % align == 0,
        size <= spec_align_to(size, align) < size + align,
        size % align == 0 ==> spec_align_to(size, align) == size,
        0 <= spec_offset_to_alignment(size, align) < align,
{
    let q = (size + align - 1) / align;
    vstd::arithmetic::div_mod::lemma_fundamental_div_mod(size + align - 1, align);
    vstd::arithmetic::div_mod::lemma_mod_bound(size + align - 1, align);
    assert(q * align == (size + align - 1) - (size + align - 1) % align);
    vstd::arithmetic::div_mod::lemma_mod_multiples_basic(q, align);
    vstd::arithmetic::div_mod::lemma_fundamental_div_mod(size, align);
    vstd::arithmetic::div_mod::lemma_mod_bound(size, align);
    if size % align == 0 {
        vstd::arithmetic::div_mod::lemma_mod_adds(size, align - 1, align);
        vstd::arithmetic::div_mod::lemma_small_mod((align - 1) as nat, align as nat);
    }
}

/// Returns a multiple of `align` needed to store `size` bytes.
pub fn align_to(size: u64, align: u64) -> (r: u64)
    requires
        align > 0,
        size + align - 1 <= u64::MAX,
    ensures
        r == spec_align_to(size as int, align as int),
        r % align == 0,
        size <= r < size + align,
{
    proof {
        lemma_align_to_properties(size as int, align as int);
    }
    if size == 0 {
        0
    } else {
        let q = (size - 1) / align;
        proof {
            vstd::arithmetic::div_mod::lemma_div_is_ordered(size - 1, size as int + align - 1, align as int);
            vstd::arithmetic::div_mod::lemma_div_plus_one(size - 1, align as int);
            assert((size as int + align - 1) / (align as int) == (size - 1) / (align as int) + 1);
            vstd::arithmetic::mul::lemma_mul_is_distributive_add_other_way(align as int, q as int, 1);
        }
        (q + 1) * align
    }
}

/// Returns the number of bytes needed on top of `value` to reach the next
/// multiple of `alignment`.
pub fn offset_to_alignment(value: u64, alignment: u64) -> (r: u64)
    requires
        alignment > 0,
        value + alignment - 1 <= u64::MAX,
    ensures
        r == spec_offset_to_alignment(value as int, alignment as int),
        r < alignment,
        (value + r) % (alignment as int) == 0,
        value % alignment == 0 ==> r == 0,
{
    proof {
        lemma_align_to_properties(value as int, alignment as int);
    }
    align_to(value, alignment) - value
}

} // verus!
