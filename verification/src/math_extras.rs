//! Rounding to a power-of-two alignment.

use vstd::prelude::*;

use crate::alignment::lemma_align_to_properties;
use crate::alignment::spec_align_to;

verus! {

/// True when `align` is a positive power of two.
pub open spec fn is_power_of_2(align: int) -> bool
    decreases align,
{
    if align <= 0 {
        false
    } else if align == 1 {
        true
    } else {
        align % 2 == 0 && is_power_of_2(align / 2)
    }
}

/// The smallest multiple of `align` (a power of two) that is at least
/// `value`.
pub fn align_to_power_of2(value: u64, align: u64) -> (r: u64)
    requires
        is_power_of_2(align as int),
        value + align - 1 <= u64::MAX,
    ensures
        r == spec_align_to(value as int, align as int),
        r % align == 0,
        value <= r < value + align,
{
    proof {
        lemma_align_to_properties(value as int, align as int);
    }
    crate::alignment::align_to(value, align)
}

/// Two to the `e`.
pub open spec fn spec_pow2(e: nat) -> nat
    decreases e,
{
    if e == 0 {
        1nat
    } else {
        2 * spec_pow2((e - 1) as nat)
    }
}

/// Powers of two are powers of two, positive, and monotone in the exponent.
pub proof fn lemma_pow2_properties(e: nat)
    ensures
        is_power_of_2(spec_pow2(e) as int),
        spec_pow2(e) >= 1,
        e <= 12 ==> spec_pow2(e) <= 4096,
    decreases e,
{
    if e > 0 {
        lemma_pow2_properties((e - 1) as nat);
    }
    if e <= 12 {
        lemma_pow2_monotone(e, 12);
        assert(spec_pow2(12) == 4096) by {
            reveal_with_fuel(spec_pow2, 14);
        }
    }
}

/// Powers of two grow with the exponent.
proof fn lemma_pow2_monotone(a: nat, b: nat)
    requires
        a <= b,
    ensures
        spec_pow2(a) <= spec_pow2(b),
    decreases b,
{
    if a < b {
        lemma_pow2_monotone(a, (b - 1) as nat);
        lemma_pow2_positive((b - 1) as nat);
    }
}

/// Powers of two are positive.
proof fn lemma_pow2_positive(e: nat)
    ensures
        spec_pow2(e) >= 1,
    decreases e,
{
    if e > 0 {
        lemma_pow2_positive((e - 1) as nat);
    }
}

/// The alignment an AIX big archive owes an XCOFF member: the minimum of
/// two unless the member is a loadable shared object, in which case two to
/// the larger of the text and data alignment exponents, clamped to the page
/// size of the platform width.  `snloader` is the loader section number when
/// the auxiliary header exists, `offset_of_modtype` the offset of the module
/// type field in the auxiliary header of that width.
pub open spec fn spec_aux_max_alignment(
    aux_header_size: u16,
    snloader: Option<u16>,
    algntext: u16,
    algndata: u16,
    log2_max: u32,
    offset_of_modtype: u16,
) -> nat {
    match snloader {
        None => 2,
        Some(snl) => {
            if aux_header_size < offset_of_modtype {
                2
            } else if snl == 0 {
                2
            } else {
                let l: u32 = if algntext >= algndata {
                    algntext as u32
                } else {
                    algndata as u32
                };
                spec_pow2(
                    (if l > 12 {
                        log2_max
                    } else {
                        l
                    }) as nat,
                )
            }
        },
    }
}

/// Decides the member alignment of an XCOFF payload from the fields of its
/// headers; the result is a power of two.
pub fn aux_max_alignment(
    aux_header_size: u16,
    snloader: Option<u16>,
    algntext: u16,
    algndata: u16,
    log2_max: u32,
    offset_of_modtype: u16,
) -> (r: u32)
    requires
        log2_max <= 12,
    ensures
        r == spec_aux_max_alignment(
            aux_header_size,
            snloader,
            algntext,
            algndata,
            log2_max,
            offset_of_modtype,
        ),
        is_power_of_2(r as int),
{
    proof {
        lemma_pow2_properties(0);
        lemma_pow2_properties(1);
    }
    let snl = match snloader {
        None => {
            return 2;
        },
        Some(snl) => snl,
    };
    if aux_header_size < offset_of_modtype {
        return 2;
    }
    if snl == 0 {
        return 2;
    }
    let l: u32 = if algntext >= algndata {
        algntext as u32
    } else {
        algndata as u32
    };
    let e: u32 = if l > 12 {
        log2_max
    } else {
        l
    };
    let mut r: u32 = 1;
    let mut i: u32 = 0;
    while i < e
        invariant
            e <= 12,
            i <= e,
            r == spec_pow2(i as nat),
            r <= 4096,
        decreases e - i,
    {
        proof {
            lemma_pow2_properties((i + 1) as nat);
        }
        r = r * 2;
        i += 1;
    }
    proof {
        lemma_pow2_properties(e as nat);
    }
    r
}

} // verus!
