//! ASCII decimal and octal renderings of unsigned numbers, and the binary
//! little- and big-endian words used by archive symbol tables.  Archive
//! headers consist of fixed-width fields holding a left-aligned number padded
//! with spaces; the specification functions here define those fields
//! byte-for-byte.

use vstd::prelude::*;

verus! {

/// The ASCII digit for a value below 10.
pub open spec fn spec_digit(d: int) -> u8 {
    (0x30 + d) as u8
}

/// The shortest decimal rendering of `n`, most significant digit first.
pub open spec fn spec_dec(n: nat) -> Seq<u8>
    decreases n,
{
    if n < 10 {
        seq![spec_digit(n as int)]
    } else {
        spec_dec(n / 10) + seq![spec_digit((n % 10) as int)]
    }
}

/// The shortest octal rendering of `n`, most significant digit first.
pub open spec fn spec_oct(n: nat) -> Seq<u8>
    decreases n,
{
    if n < 8 {
        seq![spec_digit(n as int)]
    } else {
        spec_oct(n / 8) + seq![spec_digit((n % 8) as int)]
    }
}

/// `s` left-aligned in a field of `width` bytes, padded with spaces; a
/// rendering longer than the field is kept whole, exactly as a formatted
/// minimum-width field behaves.
pub open spec fn spec_left_aligned(s: Seq<u8>, width: nat) -> Seq<u8> {
    if s.len() >= width {
        s
    } else {
        s + Seq::new((width - s.len()) as nat, |i: int| 0x20u8)
    }
}

/// A decimal number left-aligned in a `width`-byte field.
pub open spec fn spec_dec_field(n: nat, width: nat) -> Seq<u8> {
    spec_left_aligned(spec_dec(n), width)
}

/// An octal number left-aligned in a `width`-byte field.
pub open spec fn spec_oct_field(n: nat, width: nat) -> Seq<u8> {
    spec_left_aligned(spec_oct(n), width)
}

/// The `n` low-order bytes of `x`, least significant first.
pub open spec fn spec_le_bytes(x: nat, n: nat) -> Seq<u8>
    decreases n,
{
    if n == 0 {
        Seq::empty()
    } else {
        seq![(x % 256) as u8] + spec_le_bytes(x / 256, (n - 1) as nat)
    }
}

/// The `n` low-order bytes of `x`, most significant first.
pub open spec fn spec_be_bytes(x: nat, n: nat) -> Seq<u8>
    decreases n,
{
    if n == 0 {
        Seq::empty()
    } else {
        spec_be_bytes(x / 256, (n - 1) as nat) + seq![(x % 256) as u8]
    }
}

/// Appends the shortest decimal rendering of `n` to `out`.
pub fn push_dec(out: &mut Vec<u8>, n: u64)
    ensures
        final(out)@ == old(out)@ + spec_dec(n as nat),
    decreases n,
{
    if n < 10 {
        out.push(0x30 + n as u8);
    } else {
        push_dec(out, n / 10);
        out.push(0x30 + (n % 10) as u8);
    }
    proof {
        assert(out@ =~= old(out)@ + spec_dec(n as nat));
    }
}

/// Appends the shortest octal rendering of `n` to `out`.
pub fn push_oct(out: &mut Vec<u8>, n: u64)
    ensures
        final(out)@ == old(out)@ + spec_oct(n as nat),
    decreases n,
{
    if n < 8 {
        out.push(0x30 + n as u8);
    } else {
        push_oct(out, n / 8);
        out.push(0x30 + (n % 8) as u8);
    }
    proof {
        assert(out@ =~= old(out)@ + spec_oct(n as nat));
    }
}

/// Appends `n` rendered in decimal, left-aligned in a `width`-byte field.
pub fn push_dec_field(out: &mut Vec<u8>, n: u64, width: usize)
    ensures
        final(out)@ == old(out)@ + spec_dec_field(n as nat, width as nat),
{
    let start = out.len();
    push_dec(out, n);
    pad_field_with_spaces(out, start, width);
    proof {
        assert(out@ =~= old(out)@ + spec_dec_field(n as nat, width as nat));
    }
}

/// Appends `n` rendered in octal, left-aligned in a `width`-byte field.
pub fn push_oct_field(out: &mut Vec<u8>, n: u64, width: usize)
    ensures
        final(out)@ == old(out)@ + spec_oct_field(n as nat, width as nat),
{
    let start = out.len();
    push_oct(out, n);
    pad_field_with_spaces(out, start, width);
    proof {
        assert(out@ =~= old(out)@ + spec_oct_field(n as nat, width as nat));
    }
}

/// Pads the bytes appended since `start` with spaces up to `width` bytes.
pub fn pad_field_with_spaces(out: &mut Vec<u8>, start: usize, width: usize)
    requires
        start <= old(out)@.len(),
    ensures
        final(out)@ == spec_left_aligned_from(old(out)@, start as nat, width as nat),
{
    let ghost base: Seq<u8> = out@;
    while out.len() - start < width
        invariant
            start <= base.len() <= out@.len(),
            out@.len() == base.len() || out@.len() <= start + width,
            out@.subrange(0, base.len() as int) == base,
            out@.skip(start as int) == spec_partial_pad(
                base.skip(start as int),
                (out@.len() - base.len()) as nat,
            ),
        decreases start as int + width as int - out@.len(),
    {
        let ghost pre: Seq<u8> = out@;
        out.push(0x20);
        proof {
            let s = base.skip(start as int);
            let k0 = (pre.len() - base.len()) as nat;
            assert(out@ =~= pre + seq![0x20u8]);
            assert(out@.subrange(0, base.len() as int) =~= base);
            assert(out@.skip(start as int) =~= pre.skip(start as int) + seq![0x20u8]);
            assert(spec_partial_pad(s, (k0 + 1) as nat) =~= spec_partial_pad(s, k0) + seq![
                0x20u8,
            ]);
            assert(out@.skip(start as int) =~= spec_partial_pad(
                s,
                (out@.len() - base.len()) as nat,
            ));
        }
    }
    proof {
        let s = base.skip(start as int);
        let k = (out@.len() - base.len()) as nat;
        assert(s.len() + k >= width as nat);
        if s.len() >= width as nat {
            assert(k == 0);
            assert(out@ =~= spec_left_aligned_from(base, start as nat, width as nat));
        } else {
            assert(s.len() + k == width as nat);
            assert(spec_partial_pad(s, k) =~= spec_left_aligned(s, width as nat));
            assert(out@ =~= spec_left_aligned_from(base, start as nat, width as nat));
        }
    }
}

/// `v` with its suffix starting at `start` left-aligned to `width` bytes.
pub open spec fn spec_left_aligned_from(v: Seq<u8>, start: nat, width: nat) -> Seq<u8>
    recommends
        start <= v.len(),
{
    v.take(start as int) + spec_left_aligned(v.skip(start as int), width)
}

/// `s` followed by `k` spaces.
pub open spec fn spec_partial_pad(s: Seq<u8>, k: nat) -> Seq<u8> {
    s + Seq::new(k, |i: int| 0x20u8)
}

/// Appends the `n` low-order bytes of `x`, least significant first.
pub fn push_le_bytes(out: &mut Vec<u8>, x: u64, n: usize)
    ensures
        final(out)@ == old(out)@ + spec_le_bytes(x as nat, n as nat),
    decreases n,
{
    if n == 0 {
        proof {
            assert(out@ =~= old(out)@ + spec_le_bytes(x as nat, 0));
        }
    } else {
        out.push((x % 256) as u8);
        push_le_bytes(out, x / 256, n - 1);
        proof {
            assert(out@ =~= old(out)@ + spec_le_bytes(x as nat, n as nat));
        }
    }
}

/// Appends the `n` low-order bytes of `x`, most significant first.
pub fn push_be_bytes(out: &mut Vec<u8>, x: u64, n: usize)
    ensures
        final(out)@ == old(out)@ + spec_be_bytes(x as nat, n as nat),
    decreases n,
{
    if n == 0 {
        proof {
            assert(out@ =~= old(out)@ + spec_be_bytes(x as nat, 0));
        }
    } else {
        push_be_bytes(out, x / 256, n - 1);
        out.push((x % 256) as u8);
        proof {
            assert(out@ =~= old(out)@ + spec_be_bytes(x as nat, n as nat));
        }
    }
}

/// A decimal rendering is never empty.
pub proof fn lemma_dec_len_at_least_one(n: nat)
    ensures
        spec_dec(n).len() >= 1,
    decreases n,
{
    if n >= 10 {
        lemma_dec_len_at_least_one(n / 10);
    }
}

/// Ten to the `k`.
pub open spec fn pow10(k: nat) -> nat
    decreases k,
{
    if k == 0 {
        1nat
    } else {
        10nat * pow10((k - 1) as nat)
    }
}

/// A number below ten to the `k` renders in at most `k` decimal digits.
pub proof fn lemma_dec_len_bound(n: nat, k: nat)
    requires
        k >= 1,
        n < pow10(k),
    ensures
        spec_dec(n).len() <= k,
    decreases k,
{
    if n >= 10 {
        assert(pow10(k) == 10 * pow10((k - 1) as nat));
        lemma_dec_len_bound(n / 10, (k - 1) as nat);
    }
}

/// Sixty-four-bit values render in at most twenty decimal digits.
pub proof fn lemma_dec_len_u64(n: nat)
    requires
        n <= u64::MAX,
    ensures
        spec_dec(n).len() <= 20,
{
    assert(pow10(20) > u64::MAX) by {
        reveal_with_fuel(pow10, 21);
    }
    lemma_dec_len_bound(n, 20);
}

/// A left-aligned field is as wide as the field or as the rendering,
/// whichever is more.
pub proof fn lemma_dec_field_len(n: nat, width: nat)
    ensures
        spec_dec_field(n, width).len() == if spec_dec(n).len() >= width {
            spec_dec(n).len()
        } else {
            width
        },
{
}

/// Eight to the `k`.
pub open spec fn pow8(k: nat) -> nat
    decreases k,
{
    if k == 0 {
        1nat
    } else {
        8nat * pow8((k - 1) as nat)
    }
}

/// A number below eight to the `k` renders in at most `k` octal digits.
pub proof fn lemma_oct_len_bound(n: nat, k: nat)
    requires
        k >= 1,
        n < pow8(k),
    ensures
        spec_oct(n).len() <= k,
    decreases k,
{
    if n >= 8 {
        assert(pow8(k) == 8 * pow8((k - 1) as nat));
        lemma_oct_len_bound(n / 8, (k - 1) as nat);
    }
}

/// Sixty-four-bit values render in at most twenty-two octal digits.
pub proof fn lemma_oct_len_u64(n: nat)
    requires
        n <= u64::MAX,
    ensures
        spec_oct(n).len() <= 22,
{
    assert(pow8(22) > u64::MAX) by {
        reveal_with_fuel(pow8, 23);
    }
    lemma_oct_len_bound(n, 22);
}

/// A left-aligned octal field is as wide as the field or the rendering.
pub proof fn lemma_oct_field_len(n: nat, width: nat)
    ensures
        spec_oct_field(n, width).len() == if spec_oct(n).len() >= width {
            spec_oct(n).len()
        } else {
            width
        },
{
}

} // verus!
