//! Fixed-width ASCII member headers: the BSD form with its inline name, the
//! GNU small form, the GNU string-table reference form, and the AIX big
//! archive record.  Every header ends with a backquote and a newline.

use vstd::prelude::*;
use crate::numfmt::spec_dec_field;
use crate::numfmt::spec_oct_field;
use crate::numfmt::push_dec_field;
use crate::numfmt::push_oct_field;
use crate::alignment::spec_offset_to_alignment;
use crate::alignment::offset_to_alignment;

verus! {

/// The two bytes closing every non-AIX header field block.
pub open spec fn spec_header_terminator() -> Seq<u8> {
    seq![0x60u8, 0x0au8]
}

/// The mtime, uid, gid, perms and size fields shared by the 60-byte header
/// forms: uid and gid are truncated to their six-digit fields.
pub open spec fn spec_rest_of_member_header(
    mtime: nat,
    uid: nat,
    gid: nat,
    perms: nat,
    size: nat,
) -> Seq<u8> {
    spec_dec_field(mtime, 12) + spec_dec_field(uid % 1000000, 6) + spec_dec_field(gid % 1000000, 6)
        + spec_oct_field(perms, 8) + spec_dec_field(size, 10) + spec_header_terminator()
}

/// Appends the shared mtime/uid/gid/perms/size field block.
pub fn print_rest_of_member_header(
    w: &mut Vec<u8>,
    mtime: u64,
    uid: u32,
    gid: u32,
    perms: u32,
    size: u64,
)
    ensures
        final(w)@ == old(w)@ + spec_rest_of_member_header(
            mtime as nat,
            uid as nat,
            gid as nat,
            perms as nat,
            size as nat,
        ),
{
    push_dec_field(w, mtime, 12);
    push_dec_field(w, (uid % 1000000) as u64, 6);
    push_dec_field(w, (gid % 1000000) as u64, 6);
    push_oct_field(w, perms as u64, 8);
    push_dec_field(w, size, 10);
    w.push(0x60);
    w.push(0x0a);
    proof {
        assert(w@ =~= old(w)@ + spec_rest_of_member_header(
            mtime as nat,
            uid as nat,
            gid as nat,
            perms as nat,
            size as nat,
        ));
    }
}

/// The GNU small header: the name followed by a slash, left-aligned in a
/// 16-byte field, then the shared field block.
pub open spec fn spec_gnu_small_header(
    name: Seq<u8>,
    mtime: nat,
    uid: nat,
    gid: nat,
    perms: nat,
    size: nat,
) -> Seq<u8> {
    crate::numfmt::spec_left_aligned(name + seq![0x2fu8], 16) + spec_rest_of_member_header(
        mtime,
        uid,
        gid,
        perms,
        size,
    )
}

/// Appends a GNU small member header for a short, slash-free name.
pub fn print_gnu_small_member_header(
    w: &mut Vec<u8>,
    name: &[u8],
    mtime: u64,
    uid: u32,
    gid: u32,
    perms: u32,
    size: u64,
)
    ensures
        final(w)@ == old(w)@ + spec_gnu_small_header(
            name@,
            mtime as nat,
            uid as nat,
            gid as nat,
            perms as nat,
            size as nat,
        ),
{
    let start = w.len();
    w.extend_from_slice(name);
    w.push(0x2f);
    crate::numfmt::pad_field_with_spaces(w, start, 16);
    print_rest_of_member_header(w, mtime, uid, gid, perms, size);
    proof {
        assert(w@ =~= old(w)@ + spec_gnu_small_header(
            name@,
            mtime as nat,
            uid as nat,
            gid as nat,
            perms as nat,
            size as nat,
        ));
    }
}

/// The inline-name padding of a BSD header: the name is padded so the byte
/// after it is 8-aligned within the archive, given the header starts at
/// `pos`.
pub open spec fn spec_bsd_name_pad(pos: nat, name_len: nat) -> nat {
    spec_offset_to_alignment(pos + 60 + name_len as int, 8) as nat
}

/// The BSD header: `#1/<len>` naming an inline name of `len` bytes counted
/// with its pad, the shared field block sized to cover name, pad and
/// payload, then the name itself and its zero pad.
pub open spec fn spec_bsd_header(
    pos: nat,
    name: Seq<u8>,
    mtime: nat,
    uid: nat,
    gid: nat,
    perms: nat,
    size: nat,
) -> Seq<u8> {
    let pad = spec_bsd_name_pad(pos, name.len());
    let name_with_padding = name.len() + pad;
    seq![0x23u8, 0x31u8, 0x2fu8] + spec_dec_field(name_with_padding, 13)
        + spec_rest_of_member_header(mtime, uid, gid, perms, name_with_padding + size) + name
        + Seq::new(pad, |i: int| 0u8)
}

/// Appends a BSD member header, inline name included, for a member whose
/// header begins at archive offset `pos`.
pub fn print_bsd_member_header(
    w: &mut Vec<u8>,
    pos: u64,
    name: &[u8],
    mtime: u64,
    uid: u32,
    gid: u32,
    perms: u32,
    size: u64,
)
    requires
        pos + 67 + name@.len() <= u64::MAX,
        size + 8 + name@.len() <= u64::MAX,
    ensures
        final(w)@ == old(w)@ + spec_bsd_header(
            pos as nat,
            name@,
            mtime as nat,
            uid as nat,
            gid as nat,
            perms as nat,
            size as nat,
        ),
{
    let name_len = name.len() as u64;
    let pos_after_header = pos + 60 + name_len;
    let pad = offset_to_alignment(pos_after_header, 8);
    let name_with_padding = name_len + pad;
    w.push(0x23);
    w.push(0x31);
    w.push(0x2f);
    push_dec_field(w, name_with_padding, 13);
    print_rest_of_member_header(w, mtime, uid, gid, perms, name_with_padding + size);
    w.extend_from_slice(name);
    let mut i: u64 = 0;
    let ghost before_pad = w@;
    while i < pad
        invariant
            i <= pad,
            w@ == before_pad + Seq::new(i as nat, |j: int| 0u8),
        decreases pad - i,
    {
        w.push(0);
        proof {
            assert(w@ =~= before_pad + Seq::new((i + 1) as nat, |j: int| 0u8));
        }
        i += 1;
    }
    proof {
        assert(w@ =~= old(w)@ + spec_bsd_header(
            pos as nat,
            name@,
            mtime as nat,
            uid as nat,
            gid as nat,
            perms as nat,
            size as nat,
        ));
    }
}

/// The eight numeric fields opening an AIX big archive member header.
pub open spec fn spec_big_archive_numeric_fields(
    name_len: nat,
    mtime: nat,
    uid: nat,
    gid: nat,
    perms: nat,
    size: nat,
    prev_offset: nat,
    next_offset: nat,
) -> Seq<u8> {
    spec_dec_field(size, 20) + spec_dec_field(next_offset, 20) + spec_dec_field(prev_offset, 20)
        + spec_dec_field(mtime, 12) + spec_dec_field(uid % 1000000000000, 12) + spec_dec_field(
        gid % 1000000000000,
        12,
    ) + spec_oct_field(perms, 12) + spec_dec_field(name_len, 4)
}

/// The AIX big archive member header: 20-byte size/next/previous fields,
/// 12-byte mtime/uid/gid/perms fields (uid and gid modulo twelve digits),
/// a 4-byte name length, the name padded to even length with one NUL, and
/// the terminator.
pub open spec fn spec_big_archive_header(
    name: Seq<u8>,
    mtime: nat,
    uid: nat,
    gid: nat,
    perms: nat,
    size: nat,
    prev_offset: nat,
    next_offset: nat,
) -> Seq<u8> {
    spec_big_archive_numeric_fields(
        name.len(),
        mtime,
        uid,
        gid,
        perms,
        size,
        prev_offset,
        next_offset,
    ) + (if name.len() > 0 {
        name + (if name.len() % 2 != 0 {
            seq![0u8]
        } else {
            Seq::<u8>::empty()
        })
    } else {
        Seq::<u8>::empty()
    }) + spec_header_terminator()
}

/// Appends the numeric field block of an AIX big archive member header.
#[verifier::rlimit(50)]
fn print_big_archive_numeric_fields(
    w: &mut Vec<u8>,
    name_len: u64,
    mtime: u64,
    uid: u32,
    gid: u32,
    perms: u32,
    size: u64,
    prev_offset: u64,
    next_offset: u64,
)
    ensures
        final(w)@ == old(w)@ + spec_big_archive_numeric_fields(
            name_len as nat,
            mtime as nat,
            uid as nat,
            gid as nat,
            perms as nat,
            size as nat,
            prev_offset as nat,
            next_offset as nat,
        ),
{
    push_dec_field(w, size, 20);
    push_dec_field(w, next_offset, 20);
    push_dec_field(w, prev_offset, 20);
    push_dec_field(w, mtime, 12);
    push_dec_field(w, (uid as u64) % 1000000000000u64, 12);
    push_dec_field(w, (gid as u64) % 1000000000000u64, 12);
    push_oct_field(w, perms as u64, 12);
    push_dec_field(w, name_len, 4);
    proof {
        assert(w@ =~= old(w)@ + spec_big_archive_numeric_fields(
            name_len as nat,
            mtime as nat,
            uid as nat,
            gid as nat,
            perms as nat,
            size as nat,
            prev_offset as nat,
            next_offset as nat,
        ));
    }
}

/// Appends an AIX big archive member header.
pub fn print_big_archive_member_header(
    w: &mut Vec<u8>,
    name: &[u8],
    mtime: u64,
    uid: u32,
    gid: u32,
    perms: u32,
    size: u64,
    prev_offset: u64,
    next_offset: u64,
)
    ensures
        final(w)@ == old(w)@ + spec_big_archive_header(
            name@,
            mtime as nat,
            uid as nat,
            gid as nat,
            perms as nat,
            size as nat,
            prev_offset as nat,
            next_offset as nat,
        ),
{
    print_big_archive_numeric_fields(
        w,
        name.len() as u64,
        mtime,
        uid,
        gid,
        perms,
        size,
        prev_offset,
        next_offset,
    );
    if name.len() > 0 {
        w.extend_from_slice(name);
        if name.len() % 2 != 0 {
            w.push(0);
        }
    }
    w.push(0x60);
    w.push(0x0a);
    proof {
        assert(w@ =~= old(w)@ + spec_big_archive_header(
            name@,
            mtime as nat,
            uid as nat,
            gid as nat,
            perms as nat,
            size as nat,
            prev_offset as nat,
            next_offset as nat,
        ));
    }
}

/// The GNU long-name header: a slash and the decimal offset of the name in
/// the string table, left-aligned to fill the 16-byte name field, then the
/// shared field block.
pub open spec fn spec_gnu_longname_header(
    name_pos: nat,
    mtime: nat,
    uid: nat,
    gid: nat,
    perms: nat,
    size: nat,
) -> Seq<u8> {
    seq![0x2fu8] + spec_dec_field(name_pos, 15) + spec_rest_of_member_header(
        mtime,
        uid,
        gid,
        perms,
        size,
    )
}

/// Appends a GNU member header whose name lives in the `//` string table at
/// offset `name_pos`.
pub fn print_gnu_longname_header(
    w: &mut Vec<u8>,
    name_pos: u64,
    mtime: u64,
    uid: u32,
    gid: u32,
    perms: u32,
    size: u64,
)
    ensures
        final(w)@ == old(w)@ + spec_gnu_longname_header(
            name_pos as nat,
            mtime as nat,
            uid as nat,
            gid as nat,
            perms as nat,
            size as nat,
        ),
{
    w.push(0x2f);
    push_dec_field(w, name_pos, 15);
    print_rest_of_member_header(w, mtime, uid, gid, perms, size);
    proof {
        assert(w@ =~= old(w)@ + spec_gnu_longname_header(
            name_pos as nat,
            mtime as nat,
            uid as nat,
            gid as nat,
            perms as nat,
            size as nat,
        ));
    }
}

/// A long or slash-bearing name cannot live in the fixed-width name field:
/// it goes to the string table, as do all names of a thin archive.
pub open spec fn spec_use_string_table(thin: bool, name: Seq<u8>) -> bool {
    thin || name.len() >= 16 || name.contains(0x2fu8)
}

/// Whether a member name must be placed in the string table.
pub fn use_string_table(thin: bool, name: &[u8]) -> (r: bool)
    ensures
        r == spec_use_string_table(thin, name@),
{
    if thin {
        return true;
    }
    if name.len() >= 16 {
        return true;
    }
    let mut i: usize = 0;
    while i < name.len()
        invariant
            i <= name@.len(),
            forall|j: int| 0 <= j < i ==> name@[j] != 0x2fu8,
        decreases name@.len() - i,
    {
        if name[i] == 0x2f {
            proof {
                assert(name@[i as int] == 0x2fu8);
            }
            return true;
        }
        i += 1;
    }
    false
}

/// The shared field block is between 52 and 75 bytes: sizes and times may
/// widen their minimum fields, nothing else can.
pub proof fn lemma_rest_len_bound(mtime: nat, uid: nat, gid: nat, perms: nat, size: nat)
    requires
        mtime <= u64::MAX,
        uid <= u32::MAX,
        gid <= u32::MAX,
        perms <= u32::MAX,
        size <= u64::MAX,
    ensures
        44 <= spec_rest_of_member_header(mtime, uid, gid, perms, size).len() <= 75,
{
    crate::numfmt::lemma_dec_len_u64(mtime);
    crate::numfmt::lemma_dec_field_len(mtime, 12);
    assert(crate::numfmt::pow10(6) == 1000000) by {
        reveal_with_fuel(crate::numfmt::pow10, 7);
    }
    vstd::arithmetic::div_mod::lemma_mod_bound(uid as int, 1000000);
    vstd::arithmetic::div_mod::lemma_mod_bound(gid as int, 1000000);
    crate::numfmt::lemma_dec_len_bound(uid % 1000000, 6);
    crate::numfmt::lemma_dec_field_len(uid % 1000000, 6);
    crate::numfmt::lemma_dec_len_bound(gid % 1000000, 6);
    crate::numfmt::lemma_dec_field_len(gid % 1000000, 6);
    assert(crate::numfmt::pow8(11) == 8589934592) by {
        reveal_with_fuel(crate::numfmt::pow8, 12);
    }
    crate::numfmt::lemma_oct_len_bound(perms, 11);
    crate::numfmt::lemma_oct_field_len(perms, 8);
    crate::numfmt::lemma_dec_len_u64(size);
    crate::numfmt::lemma_dec_field_len(size, 10);
    crate::numfmt::lemma_dec_len_at_least_one(mtime);
    crate::numfmt::lemma_dec_len_at_least_one(uid % 1000000);
    crate::numfmt::lemma_dec_len_at_least_one(gid % 1000000);
    crate::numfmt::lemma_dec_len_at_least_one(size);
    assert(12 <= spec_dec_field(mtime, 12).len() <= 20);
    assert(spec_dec_field(uid % 1000000, 6).len() == 6);
    assert(spec_dec_field(gid % 1000000, 6).len() == 6);
    assert(8 <= spec_oct_field(perms, 8).len() <= 11);
    assert(10 <= spec_dec_field(size, 10).len() <= 20);
    assert(spec_header_terminator().len() == 2);
}

/// Bounds on each header form, used to bound a member's contribution to the
/// archive offsets.
pub proof fn lemma_gnu_small_header_len(
    name: Seq<u8>,
    mtime: nat,
    uid: nat,
    gid: nat,
    perms: nat,
    size: nat,
)
    requires
        mtime <= u64::MAX,
        uid <= u32::MAX,
        gid <= u32::MAX,
        perms <= u32::MAX,
        size <= u64::MAX,
    ensures
        spec_gnu_small_header(name, mtime, uid, gid, perms, size).len() <= 91 + name.len(),
{
    lemma_rest_len_bound(mtime, uid, gid, perms, size);
}

/// A long-name header is at most 96 bytes.
pub proof fn lemma_gnu_longname_header_len(
    name_pos: nat,
    mtime: nat,
    uid: nat,
    gid: nat,
    perms: nat,
    size: nat,
)
    requires
        name_pos <= u64::MAX,
        mtime <= u64::MAX,
        uid <= u32::MAX,
        gid <= u32::MAX,
        perms <= u32::MAX,
        size <= u64::MAX,
    ensures
        spec_gnu_longname_header(name_pos, mtime, uid, gid, perms, size).len() <= 96,
{
    lemma_rest_len_bound(mtime, uid, gid, perms, size);
    crate::numfmt::lemma_dec_len_u64(name_pos);
    crate::numfmt::lemma_dec_field_len(name_pos, 15);
}

/// A BSD header is at most 110 bytes plus the name.
pub proof fn lemma_bsd_header_len(
    pos: nat,
    name: Seq<u8>,
    mtime: nat,
    uid: nat,
    gid: nat,
    perms: nat,
    size: nat,
)
    requires
        pos + 67 + name.len() <= u64::MAX,
        mtime <= u64::MAX,
        uid <= u32::MAX,
        gid <= u32::MAX,
        perms <= u32::MAX,
        size + 8 + name.len() <= u64::MAX,
    ensures
        spec_bsd_header(pos, name, mtime, uid, gid, perms, size).len() <= 110 + name.len(),
{
    let pad = spec_bsd_name_pad(pos, name.len());
    crate::alignment::lemma_align_to_properties((pos + 60 + name.len()) as int, 8);
    lemma_rest_len_bound(mtime, uid, gid, perms, (name.len() + pad + size) as nat);
    crate::numfmt::lemma_dec_len_u64((name.len() + pad) as nat);
    crate::numfmt::lemma_dec_field_len((name.len() + pad) as nat, 13);
}

/// An AIX header is at most 142 bytes plus the name.
pub proof fn lemma_big_archive_header_len(
    name: Seq<u8>,
    mtime: nat,
    uid: nat,
    gid: nat,
    perms: nat,
    size: nat,
    prev_offset: nat,
    next_offset: nat,
)
    requires
        name.len() <= u64::MAX,
        mtime <= u64::MAX,
        uid <= u32::MAX,
        gid <= u32::MAX,
        perms <= u32::MAX,
        size <= u64::MAX,
        prev_offset <= u64::MAX,
        next_offset <= u64::MAX,
    ensures
        spec_big_archive_header(name, mtime, uid, gid, perms, size, prev_offset, next_offset).len()
            <= 142 + name.len() + 1,
{
    crate::numfmt::lemma_dec_len_u64(size);
    crate::numfmt::lemma_dec_field_len(size, 20);
    crate::numfmt::lemma_dec_len_u64(next_offset);
    crate::numfmt::lemma_dec_field_len(next_offset, 20);
    crate::numfmt::lemma_dec_len_u64(prev_offset);
    crate::numfmt::lemma_dec_field_len(prev_offset, 20);
    crate::numfmt::lemma_dec_len_u64(mtime);
    crate::numfmt::lemma_dec_field_len(mtime, 12);
    assert(crate::numfmt::pow10(10) == 10000000000) by {
        reveal_with_fuel(crate::numfmt::pow10, 11);
    }
    vstd::arithmetic::div_mod::lemma_small_mod(uid, 1000000000000);
    vstd::arithmetic::div_mod::lemma_small_mod(gid, 1000000000000);
    crate::numfmt::lemma_dec_len_bound(uid % 1000000000000, 10);
    crate::numfmt::lemma_dec_field_len(uid % 1000000000000, 12);
    crate::numfmt::lemma_dec_len_bound(gid % 1000000000000, 10);
    crate::numfmt::lemma_dec_field_len(gid % 1000000000000, 12);
    assert(crate::numfmt::pow8(11) == 8589934592) by {
        reveal_with_fuel(crate::numfmt::pow8, 12);
    }
    crate::numfmt::lemma_oct_len_bound(perms, 11);
    crate::numfmt::lemma_oct_field_len(perms, 12);
    crate::numfmt::lemma_dec_len_u64(name.len());
    crate::numfmt::lemma_dec_field_len(name.len(), 4);
}

} // verus!
