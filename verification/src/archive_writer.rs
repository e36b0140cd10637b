//! The member-data pass and the archive assembler.  The pass walks the input
//! members once, producing each member's prepared header, payload slice,
//! padding and symbol offsets while threading the running position, the
//! long-name string table, the symbol-name stream and, for AIX, the
//! previous/next offsets.  A ghost fold (`spec_pass`) defines the pass
//! byte-for-byte; the assembler's output is stated over it.

use vstd::prelude::*;
use vstd::string::StringSliceAdditionalSpecFns;

use crate::archive::ArchiveKind;
use crate::archive::spec_is_64bit_kind;
use crate::archive::spec_is_bsd_like;
use crate::archive::spec_is_darwin;
use crate::member_header::spec_bsd_header;
use crate::member_header::spec_big_archive_header;
use crate::member_header::spec_gnu_longname_header;
use crate::member_header::spec_gnu_small_header;
use crate::member_header::spec_use_string_table;
use crate::symtab::SymState;
use crate::symtab::spec_collect;
use crate::symtab::spec_route;
use crate::alignment::spec_align_to;
use crate::alignment::spec_offset_to_alignment;

verus! {

/// The weight cap on one write's inputs: an archive whose members' names,
/// payloads and symbol lists weigh more than this in total cannot have its
/// offsets computed in sixty-four-bit arithmetic with the headroom the
/// proofs carry, so such inputs are outside the stated contracts.
pub const INPUT_WEIGHT_CAP: u64 = 0x1000_0000_0000;

/// One member of the archive under construction: its payload, its name, its
/// stat metadata, and the object-reader answers for its payload.
pub struct NewArchiveMember {
    /// The member's payload bytes.
    pub buf: Vec<u8>,
    /// The display name: a file name, or a full path in thin mode.
    pub member_name: String,
    pub mtime: u64,
    pub uid: u32,
    pub gid: u32,
    pub perms: u32,
    /// Whether the payload is an object file whose symbols belong in the
    /// archive symbol table, as the object reader answers it.
    pub is_object: bool,
    /// The archive-visible symbol names of the payload, in object order.
    pub symbols: Vec<Vec<u8>>,
    /// Whether the payload is a 64-bit object file.
    pub is_64_bit_object_file: bool,
    /// Whether the payload is an EC (ARM64EC or x64) object file.
    pub is_ec_object_file: bool,
    /// The AIX member alignment of the payload, a power of two.
    pub xcoff_member_alignment: u32,
}

/// The ghost value of one input member.
#[verifier::ext_equal]
pub struct MemberView {
    pub buf: Seq<u8>,
    pub name: Seq<u8>,
    pub mtime: u64,
    pub uid: u32,
    pub gid: u32,
    pub perms: u32,
    pub is_object: bool,
    pub symbols: Seq<Seq<u8>>,
    pub is_64: bool,
    pub is_ec: bool,
    pub align: u32,
}

impl View for NewArchiveMember {
    type V = MemberView;

    open spec fn view(&self) -> MemberView {
        MemberView {
            buf: self.buf@,
            name: vstd::utf8::encode_utf8(self.member_name@),
            mtime: self.mtime,
            uid: self.uid,
            gid: self.gid,
            perms: self.perms,
            is_object: self.is_object,
            symbols: self.symbols@.map_values(|s: Vec<u8>| s@),
            is_64: self.is_64_bit_object_file,
            is_ec: self.is_ec_object_file,
            align: self.xcoff_member_alignment,
        }
    }
}

impl NewArchiveMember {
    /// A member with the given payload and name, zero timestamps and ids,
    /// default permissions, and no object-reader answers.
    pub fn new(buf: Vec<u8>, member_name: String) -> (r: NewArchiveMember)
        ensures
            r@.buf == buf@,
            r@.name == vstd::utf8::encode_utf8(member_name@),
            r@.mtime == 0 && r@.uid == 0 && r@.gid == 0 && r@.perms == 0o644,
            !r@.is_object,
            r@.symbols == Seq::<Seq<u8>>::empty(),
            !r@.is_64 && !r@.is_ec,
            r@.align == 2,
    {
        let r = NewArchiveMember {
            buf,
            member_name,
            mtime: 0,
            uid: 0,
            gid: 0,
            perms: 0o644,
            is_object: false,
            symbols: Vec::new(),
            is_64_bit_object_file: false,
            is_ec_object_file: false,
            xcoff_member_alignment: 2,
        };
        proof {
            assert(r@.symbols =~= Seq::<Seq<u8>>::empty());
        }
        r
    }
}

/// One member as prepared by the pass: its header bytes, payload, padding,
/// symbol offsets, leading AIX pad, and what later passes need of the
/// object-reader answers.
pub struct MemberData {
    /// Offsets of this member's symbol names in the shared name stream.
    pub symbols: Vec<u64>,
    /// The prepared member header.
    pub header: Vec<u8>,
    /// The payload as written: empty in thin mode.
    pub data: Vec<u8>,
    /// Newline padding after the payload.
    pub padding: Vec<u8>,
    /// NUL padding before the header (AIX only).
    pub pre_head_pad_size: u64,
    /// Whether the payload is a 64-bit object file.
    pub is_64_bit_object_file: bool,
    /// The member's symbol names, re-collected per width on AIX.
    pub symbol_names: Vec<Vec<u8>>,
}

/// The ghost value of one prepared member.
#[verifier::ext_equal]
pub struct MemberDataView {
    pub symbols: Seq<u64>,
    pub header: Seq<u8>,
    pub data: Seq<u8>,
    pub padding: Seq<u8>,
    pub pre_head_pad_size: u64,
    pub is_64: bool,
    pub symbol_names: Seq<Seq<u8>>,
}

impl View for MemberData {
    type V = MemberDataView;

    open spec fn view(&self) -> MemberDataView {
        MemberDataView {
            symbols: self.symbols@,
            header: self.header@,
            data: self.data@,
            padding: self.padding@,
            pre_head_pad_size: self.pre_head_pad_size,
            is_64: self.is_64_bit_object_file,
            symbol_names: self.symbol_names@.map_values(|s: Vec<u8>| s@),
        }
    }
}

/// The failure of a write.
#[derive(Copy, Clone, Debug, PartialEq, Eq, Structural)]
pub enum ArchiveError {
    /// A member's payload exceeds the ten-digit size field.
    MemberTooBig,
}

/// How many of the first `n` members carry `name`.
pub open spec fn spec_count_name_upto(ms: Seq<MemberView>, name: Seq<u8>, n: int) -> int
    decreases n,
{
    if n <= 0 {
        0
    } else {
        spec_count_name_upto(ms, name, n - 1) + if ms[n - 1].name == name {
            1int
        } else {
            0int
        }
    }
}

/// The mtime emitted for member `i`: on Darwin, members of a duplicated name
/// receive their ordinal among the duplicates, starting at zero, so that
/// debuggers can tell them apart; all other members keep their given mtime.
pub open spec fn spec_member_mtime(kind: ArchiveKind, ms: Seq<MemberView>, i: int) -> u64 {
    if spec_is_darwin(kind) && spec_count_name_upto(ms, ms[i].name, ms.len() as int) > 1 {
        spec_count_name_upto(ms, ms[i].name, i) as u64
    } else {
        ms[i].mtime
    }
}

/// The first value stored under `k`, scanning in storage order.
pub open spec fn spec_assoc_lookup(l: Seq<(Seq<u8>, u64)>, k: Seq<u8>) -> Option<u64>
    decreases l.len(),
{
    if l.len() == 0 {
        None
    } else if l[0].0 == k {
        Some(l[0].1)
    } else {
        spec_assoc_lookup(l.drop_first(), k)
    }
}

/// A long name's entry in the string table: NUL-terminated for COFF,
/// slash-newline-terminated elsewhere.
pub open spec fn spec_strtab_entry(kind: ArchiveKind, name: Seq<u8>) -> Seq<u8> {
    if kind == ArchiveKind::Coff {
        name + seq![0u8]
    } else {
        name + seq![0x2fu8, 0x0au8]
    }
}

/// Whether member `i` writes member headers through the string-table path at
/// all: BSD-like names are inline, and AIX names live in the big headers.
pub open spec fn spec_kind_uses_strtab(kind: ArchiveKind) -> bool {
    !spec_is_bsd_like(kind) && kind != ArchiveKind::AixBig
}

/// The name-to-offset memo after the first `i` members: each long name of a
/// non-thin archive appears once, with the string-table offset of its first
/// occurrence.
pub open spec fn spec_member_names_list(
    kind: ArchiveKind,
    thin: bool,
    ms: Seq<MemberView>,
    i: int,
) -> Seq<(Seq<u8>, u64)>
    decreases i, 0int,
{
    if i <= 0 {
        Seq::empty()
    } else {
        let prev = spec_member_names_list(kind, thin, ms, i - 1);
        let name = ms[i - 1].name;
        if spec_kind_uses_strtab(kind) && !thin && spec_use_string_table(false, name)
            && spec_assoc_lookup(prev, name) is None {
            prev.push((name, spec_strtab_upto(kind, thin, ms, i - 1).len() as u64))
        } else {
            prev
        }
    }
}

/// The long-name string table after the first `i` members: every name of a
/// thin archive in order, and each new long name of a non-thin archive once.
pub open spec fn spec_strtab_upto(kind: ArchiveKind, thin: bool, ms: Seq<MemberView>, i: int) -> Seq<
    u8,
>
    decreases i, 1int,
{
    if i <= 0 {
        Seq::empty()
    } else {
        let prev = spec_strtab_upto(kind, thin, ms, i - 1);
        let name = ms[i - 1].name;
        if !spec_kind_uses_strtab(kind) {
            prev
        } else if thin {
            prev + name + seq![0x2fu8, 0x0au8]
        } else if spec_use_string_table(false, name) && spec_assoc_lookup(
            spec_member_names_list(kind, thin, ms, i - 1),
            name,
        ) is None {
            prev + spec_strtab_entry(kind, name)
        } else {
            prev
        }
    }
}

/// The string-table offset written in member `i`'s header, when its name
/// lives there.
pub open spec fn spec_name_pos(kind: ArchiveKind, thin: bool, ms: Seq<MemberView>, i: int) -> u64 {
    if thin {
        spec_strtab_upto(kind, thin, ms, i).len() as u64
    } else {
        match spec_assoc_lookup(spec_member_names_list(kind, thin, ms, i), ms[i].name) {
            Some(p) => p,
            None => spec_strtab_upto(kind, thin, ms, i).len() as u64,
        }
    }
}

/// The Darwin pre-tail padding: payloads are padded to eight bytes so 64-bit
/// objects stay aligned.
pub open spec fn spec_member_padding(kind: ArchiveKind, data_len: nat) -> nat {
    if spec_is_darwin(kind) {
        spec_offset_to_alignment(data_len as int, 8) as nat
    } else {
        0
    }
}

/// The tail padding making payload plus padding even.
pub open spec fn spec_tail_padding(data_len: nat, member_padding: nat) -> nat {
    spec_offset_to_alignment((data_len + member_padding) as int, 2) as nat
}

/// The size written in member `i`'s header: the payload plus the Darwin
/// padding, counted even in thin mode.
pub open spec fn spec_member_size(kind: ArchiveKind, thin: bool, m: MemberView) -> nat {
    (m.buf.len() + spec_member_padding(
        kind,
        if thin {
            0nat
        } else {
            m.buf.len()
        },
    )) as nat
}

/// The newline padding bytes following member `i`'s payload.
pub open spec fn spec_padding_bytes(kind: ArchiveKind, thin: bool, m: MemberView) -> Seq<u8> {
    let data_len: nat = if thin {
        0nat
    } else {
        m.buf.len()
    };
    let mp = spec_member_padding(kind, data_len);
    Seq::new(mp + spec_tail_padding(data_len, mp), |j: int| 0x0au8)
}

/// The header of member `i` in a non-AIX archive whose header starts at
/// archive offset `pos`.
pub open spec fn spec_nonaix_header(
    kind: ArchiveKind,
    thin: bool,
    ms: Seq<MemberView>,
    i: int,
    pos: nat,
) -> Seq<u8> {
    let m = ms[i];
    let mtime = spec_member_mtime(kind, ms, i) as nat;
    let size = spec_member_size(kind, thin, m);
    if spec_is_bsd_like(kind) {
        spec_bsd_header(pos, m.name, mtime, m.uid as nat, m.gid as nat, m.perms as nat, size)
    } else if !spec_use_string_table(thin, m.name) {
        spec_gnu_small_header(m.name, mtime, m.uid as nat, m.gid as nat, m.perms as nat, size)
    } else {
        spec_gnu_longname_header(
            spec_name_pos(kind, thin, ms, i) as nat,
            mtime,
            m.uid as nat,
            m.gid as nat,
            m.perms as nat,
            size,
        )
    }
}

/// The running state of the member pass.
#[verifier::ext_equal]
pub struct PassState {
    /// The long-name string table so far.
    pub strtab: Seq<u8>,
    /// The symbol-name stream and the two symbol maps so far.
    pub sym: SymState,
    /// The member-content cursor: for AIX it counts from the fixed-length
    /// header, elsewhere from the first member header.
    pub pos: int,
    /// The offset of the last AIX member header.
    pub prev_offset: int,
    /// The leading pad already computed for the next AIX member.
    pub next_pad: int,
    /// The prepared members.
    pub members: Seq<MemberDataView>,
}

/// The size of the AIX fixed-length header.
pub const AIX_FIX_LEN_HDR_SIZE: u64 = 128;

/// The size of an AIX member header without its name.
pub const BIG_AR_MEM_HDR_SIZE: u64 = 112;

/// The pass state before any member.
pub open spec fn spec_pass_init(kind: ArchiveKind) -> PassState {
    PassState {
        strtab: Seq::empty(),
        sym: SymState { names: Seq::empty(), map: Seq::empty(), ec_map: Seq::empty() },
        pos: if kind == ArchiveKind::AixBig {
            AIX_FIX_LEN_HDR_SIZE as int
        } else {
            0
        },
        prev_offset: 0,
        next_pad: 0,
        members: Seq::empty(),
    }
}

/// The archive offset of an AIX member's payload, when its header starts at
/// `pos`: the fixed header fields, the terminator, and the name padded even.
pub open spec fn spec_aix_offset_to_mem_data(pos: int, name_len: int) -> int {
    pos + BIG_AR_MEM_HDR_SIZE + 2 + spec_align_to(name_len, 2)
}

/// The leading pad of AIX member `i`: computed fresh for the first member,
/// carried from the previous step otherwise.
pub open spec fn spec_aix_cur_pad(ms: Seq<MemberView>, st: PassState, i: int) -> int {
    let otmd = spec_aix_offset_to_mem_data(st.pos, ms[i].name.len() as int);
    if i == 0 {
        spec_align_to(otmd, ms[i].align as int) - otmd
    } else {
        st.next_pad
    }
}

/// The offset just past AIX member `i`, before the next member's pad.
pub open spec fn spec_aix_next_base(hdr_pos: int, name_len: int, size: int) -> int {
    hdr_pos + BIG_AR_MEM_HDR_SIZE + 2 + spec_align_to(name_len, 2) + spec_align_to(size, 2)
}

/// The leading pad of AIX member `i + 1`, aligning its payload.
pub open spec fn spec_aix_next_pad(ms: Seq<MemberView>, next_base: int, i: int) -> int {
    let otnd = next_base + BIG_AR_MEM_HDR_SIZE + 2 + spec_align_to(ms[i + 1].name.len() as int, 2);
    spec_align_to(otnd, ms[i + 1].align as int) - otnd
}

/// The next-member offset stored in AIX member `i`'s header.
pub open spec fn spec_aix_next_offset(ms: Seq<MemberView>, next_base: int, i: int) -> int {
    if i + 1 < ms.len() {
        next_base + spec_aix_next_pad(ms, next_base, i)
    } else {
        next_base
    }
}

/// One member's step of the pass.
#[verifier::opaque]
pub open spec fn spec_pass_step(
    kind: ArchiveKind,
    thin: bool,
    has_map: bool,
    use_ec: bool,
    ms: Seq<MemberView>,
    st: PassState,
    i: int,
) -> PassState {
    let m = ms[i];
    let data: Seq<u8> = if thin {
        Seq::empty()
    } else {
        m.buf
    };
    let mtime = spec_member_mtime(kind, ms, i);
    let size = spec_member_size(kind, thin, m);
    let padding = spec_padding_bytes(kind, thin, m);
    let (header, pre_pad, pos1, prev1, next_pad1) = if kind == ArchiveKind::AixBig {
        let cur_pad = spec_aix_cur_pad(ms, st, i);
        let hdr_pos = st.pos + cur_pad;
        let next_base = spec_aix_next_base(hdr_pos, m.name.len() as int, size as int);
        let next_pad2 = if i + 1 < ms.len() {
            spec_aix_next_pad(ms, next_base, i)
        } else {
            cur_pad
        };
        (
            spec_big_archive_header(
                m.name,
                mtime as nat,
                m.uid as nat,
                m.gid as nat,
                m.perms as nat,
                size,
                st.prev_offset as nat,
                spec_aix_next_offset(ms, next_base, i) as nat,
            ),
            cur_pad,
            hdr_pos,
            hdr_pos,
            next_pad2,
        )
    } else {
        (
            spec_nonaix_header(kind, thin, ms, i, st.pos as nat),
            0int,
            st.pos,
            st.prev_offset,
            st.next_pad,
        )
    };
    let strtab1 = spec_strtab_upto(kind, thin, ms, i + 1);
    let route = spec_route(has_map, use_ec, m.is_ec);
    let (sym1, offsets) = spec_collect(st.sym, m.symbols, (i + 1) as u16, route);
    PassState {
        strtab: strtab1,
        sym: sym1,
        pos: pos1 + header.len() + data.len() + padding.len(),
        prev_offset: prev1,
        next_pad: next_pad1,
        members: st.members.push(
            MemberDataView {
                symbols: offsets,
                header: header,
                data: data,
                padding: padding,
                pre_head_pad_size: pre_pad as u64,
                is_64: m.is_64,
                symbol_names: m.symbols,
            },
        ),
    }
}

/// The pass state after the first `i` members.
pub open spec fn spec_pass(
    kind: ArchiveKind,
    thin: bool,
    has_map: bool,
    use_ec: bool,
    ms: Seq<MemberView>,
    i: int,
) -> PassState
    decreases i,
{
    if i <= 0 {
        spec_pass_init(kind)
    } else {
        spec_pass_step(
            kind,
            thin,
            has_map,
            use_ec,
            ms,
            spec_pass(kind, thin, has_map, use_ec, ms, i - 1),
            i - 1,
        )
    }
}

/// Whether every member fits the ten-digit size field.
pub open spec fn spec_sizes_ok(kind: ArchiveKind, thin: bool, ms: Seq<MemberView>) -> bool {
    forall|i: int|
        0 <= i < ms.len() ==> spec_member_size(kind, thin, #[trigger] ms[i])
            <= crate::archive::MAX_MEMBER_SIZE
}

/// The weight of a symbol list: what its names can add to the name stream
/// and the maps, with headroom.
pub open spec fn spec_symbols_weight(ss: Seq<Seq<u8>>) -> int
    decreases ss.len(),
{
    if ss.len() == 0 {
        0
    } else {
        ss[0].len() + 24 + spec_symbols_weight(ss.drop_first())
    }
}

/// The weight of one member: a bound on everything it can add to the
/// archive's offsets, string table and symbol stream.
pub open spec fn spec_member_weight(m: MemberView) -> int {
    512 + 2 * m.name.len() + m.buf.len() + m.align + spec_symbols_weight(m.symbols)
}

/// The weight of an input list.
pub open spec fn spec_members_weight(ms: Seq<MemberView>) -> int
    decreases ms.len(),
{
    if ms.len() == 0 {
        0
    } else {
        spec_member_weight(ms[0]) + spec_members_weight(ms.drop_first())
    }
}

/// Weights are nonnegative.
pub proof fn lemma_weight_nonneg(ms: Seq<MemberView>)
    ensures
        spec_members_weight(ms) >= 0,
        forall|i: int| 0 <= i < ms.len() ==> spec_member_weight(#[trigger] ms[i]) >= 0,
    decreases ms.len(),
{
    assert forall|i: int| 0 <= i < ms.len() implies spec_member_weight(#[trigger] ms[i]) >= 0 by {
        lemma_symbols_weight_nonneg(ms[i].symbols);
    }
    if ms.len() > 0 {
        lemma_weight_nonneg(ms.drop_first());
    }
}

/// Symbol weights are nonnegative and dominate the symbol count.
pub proof fn lemma_symbols_weight_nonneg(ss: Seq<Seq<u8>>)
    ensures
        spec_symbols_weight(ss) >= 0,
        spec_symbols_weight(ss) >= 24 * ss.len(),
    decreases ss.len(),
{
    if ss.len() > 0 {
        lemma_symbols_weight_nonneg(ss.drop_first());
    }
}

/// A prefix weighs one more member than the previous prefix.
pub proof fn lemma_weight_take_snoc(ms: Seq<MemberView>, i: int)
    requires
        0 <= i < ms.len(),
    ensures
        spec_members_weight(ms.take(i + 1)) == spec_members_weight(ms.take(i))
            + spec_member_weight(ms[i]),
    decreases i,
{
    if i == 0 {
        assert(ms.take(1).drop_first() =~= Seq::<MemberView>::empty());
        assert(ms.take(0) =~= Seq::<MemberView>::empty());
        assert(ms.take(1)[0] == ms[0]);
    } else {
        lemma_weight_take_snoc(ms.drop_first(), i - 1);
        assert(ms.take(i + 1).drop_first() =~= ms.drop_first().take(i));
        assert(ms.take(i).drop_first() =~= ms.drop_first().take(i - 1));
        assert(ms.take(i + 1)[0] == ms[0]);
        assert(ms.take(i)[0] == ms[0]);
        assert(ms.drop_first()[i - 1] == ms[i]);
    }
}

/// A prefix never outweighs the whole.
pub proof fn lemma_weight_take_le(ms: Seq<MemberView>, i: int)
    requires
        0 <= i <= ms.len(),
    ensures
        spec_members_weight(ms.take(i)) <= spec_members_weight(ms),
    decreases ms.len() - i,
{
    if i == ms.len() {
        assert(ms.take(i) =~= ms);
    } else {
        lemma_weight_take_snoc(ms, i);
        lemma_weight_take_le(ms, i + 1);
        lemma_weight_nonneg(ms);
    }
}

/// The bytes one prepared member occupies: its leading pad, header, payload
/// and padding.
pub open spec fn spec_md_size(md: MemberDataView) -> int {
    md.pre_head_pad_size + md.header.len() + md.data.len() + md.padding.len()
}

/// The bytes a prepared member list occupies.
pub open spec fn spec_mds_size(mds: Seq<MemberDataView>) -> int
    decreases mds.len(),
{
    if mds.len() == 0 {
        0
    } else {
        spec_md_size(mds[0]) + spec_mds_size(mds.drop_first())
    }
}

/// The number of symbol offsets a prepared member list records.
pub open spec fn spec_mds_num_syms(mds: Seq<MemberDataView>) -> int
    decreases mds.len(),
{
    if mds.len() == 0 {
        0
    } else {
        mds[0].symbols.len() + spec_mds_num_syms(mds.drop_first())
    }
}

/// Sums split off their last element.
pub proof fn lemma_mds_size_snoc(mds: Seq<MemberDataView>, md: MemberDataView)
    ensures
        spec_mds_size(mds.push(md)) == spec_mds_size(mds) + spec_md_size(md),
        spec_mds_num_syms(mds.push(md)) == spec_mds_num_syms(mds) + md.symbols.len(),
    decreases mds.len(),
{
    reveal_with_fuel(spec_mds_size, 3);
    reveal_with_fuel(spec_mds_num_syms, 3);
    if mds.len() == 0 {
        assert(mds.push(md).drop_first() =~= Seq::<MemberDataView>::empty());
        assert(mds.push(md)[0] == md);
    } else {
        lemma_mds_size_snoc(mds.drop_first(), md);
        assert(mds.push(md).drop_first() =~= mds.drop_first().push(md));
        assert(mds.push(md)[0] == mds[0]);
    }
}

/// A member's collected offsets are no more numerous than its symbols, and
/// the name stream grows by at most the symbols' weight.
pub proof fn lemma_collect_bounds(
    st: SymState,
    symbols: Seq<Seq<u8>>,
    index: u16,
    route: crate::symtab::SymRoute,
)
    ensures
        spec_collect(st, symbols, index, route).1.len() <= symbols.len(),
        spec_collect(st, symbols, index, route).0.names.len() <= st.names.len()
            + spec_symbols_weight(symbols),
        spec_collect(st, symbols, index, route).0.names.len() >= st.names.len(),
    decreases symbols.len(),
{
    lemma_symbols_weight_nonneg(symbols);
    if symbols.len() > 0 {
        let (st1, o1) = crate::symtab::spec_collect_one(st, symbols[0], index, route);
        lemma_collect_bounds(st1, symbols.drop_first(), index, route);
        lemma_symbols_weight_nonneg(symbols.drop_first());
    }
}

/// The name count over a prefix lies between zero and the prefix length.
pub proof fn lemma_count_name_bounds(ms: Seq<MemberView>, name: Seq<u8>, n: int)
    ensures
        0 <= spec_count_name_upto(ms, name, n),
        spec_count_name_upto(ms, name, n) <= if n >= 0 {
            n
        } else {
            0
        },
    decreases n,
{
    if n > 0 {
        lemma_count_name_bounds(ms, name, n - 1);
    }
}

/// Every value memoized for a long name is an offset into the string table
/// built so far.
pub proof fn lemma_names_list_values(kind: ArchiveKind, thin: bool, ms: Seq<MemberView>, i: int)
    ensures
        forall|j: int|
            0 <= j < spec_member_names_list(kind, thin, ms, i).len()
                ==> (#[trigger] spec_member_names_list(kind, thin, ms, i)[j]).1
                <= spec_strtab_upto(kind, thin, ms, i).len(),
    decreases i,
{
    if i > 0 {
        lemma_names_list_values(kind, thin, ms, i - 1);
        let prev = spec_member_names_list(kind, thin, ms, i - 1);
        let cur = spec_member_names_list(kind, thin, ms, i);
        let prev_tab = spec_strtab_upto(kind, thin, ms, i - 1);
        let cur_tab = spec_strtab_upto(kind, thin, ms, i);
        assert(prev_tab.len() <= cur_tab.len());
        assert forall|j: int| 0 <= j < cur.len() implies (#[trigger] cur[j]).1
            <= cur_tab.len() by {
            if j < prev.len() {
                assert(cur[j] == prev[j]);
            } else {
                assert(cur[j].1 == prev_tab.len() as u64);
            }
        }
    }
}

/// A successful lookup returns one of the stored values.
pub proof fn lemma_assoc_lookup_member(l: Seq<(Seq<u8>, u64)>, k: Seq<u8>)
    requires
        spec_assoc_lookup(l, k) is Some,
    ensures
        exists|j: int|
            0 <= j < l.len() && (#[trigger] l[j]).1 == spec_assoc_lookup(l, k).unwrap(),
    decreases l.len(),
{
    if l.len() > 0 && l[0].0 != k {
        lemma_assoc_lookup_member(l.drop_first(), k);
        let j = choose|j: int|
            0 <= j < l.drop_first().len() && (#[trigger] l.drop_first()[j]).1 == spec_assoc_lookup(
                l.drop_first(),
                k,
            ).unwrap();
        assert(l[j + 1] == l.drop_first()[j]);
    }
}

/// The name position written for member `i` is an offset into the string
/// table built so far.
pub proof fn lemma_name_pos_bound(kind: ArchiveKind, thin: bool, ms: Seq<MemberView>, i: int)
    ensures
        spec_name_pos(kind, thin, ms, i) <= spec_strtab_upto(kind, thin, ms, i).len(),
{
    if !thin {
        let l = spec_member_names_list(kind, thin, ms, i);
        if spec_assoc_lookup(l, ms[i].name) is Some {
            lemma_names_list_values(kind, thin, ms, i);
            lemma_assoc_lookup_member(l, ms[i].name);
        }
    }
}

/// The initial offset of the member area: the AIX fixed-length header, or
/// nothing.
pub open spec fn spec_init_pos(kind: ArchiveKind) -> int {
    if kind == ArchiveKind::AixBig {
        128int
    } else {
        0int
    }
}

/// The bounds the pass maintains: positions, string table and name stream
/// stay within the input weight, offsets are ordered, and the position is
/// the initial offset plus the members' sizes.
pub open spec fn spec_pass_bounded(
    kind: ArchiveKind,
    ms: Seq<MemberView>,
    i: int,
    st: PassState,
) -> bool {
    &&& spec_init_pos(kind) <= st.pos
    &&& st.pos <= 256 + spec_init_pos(kind) + spec_members_weight(ms.take(i))
    &&& st.strtab.len() <= spec_members_weight(ms.take(i))
    &&& st.sym.names.len() <= spec_members_weight(ms.take(i))
    &&& 0 <= st.prev_offset <= st.pos
    &&& 0 <= st.next_pad
    &&& (kind == ArchiveKind::AixBig && 0 < i < ms.len() ==> st.next_pad <= ms[i].align)
    &&& (kind != ArchiveKind::AixBig ==> st.next_pad == 0 && st.prev_offset == 0 && (forall|
        j: int,
    |
        0 <= j < st.members.len() ==> (#[trigger] st.members[j]).pre_head_pad_size == 0))
    &&& st.members.len() == i
    &&& (forall|j: int|
        0 <= j < i ==> (#[trigger] st.members[j]).symbol_names == ms[j].symbols
            && st.members[j].is_64 == ms[j].is_64)
    &&& st.pos == spec_init_pos(kind) + spec_mds_size(st.members)
    &&& spec_mds_num_syms(st.members) * 24 <= spec_members_weight(ms.take(i))
    &&& spec_mds_num_syms(st.members) >= 0
}

/// One AIX step keeps the bounds.
#[verifier::rlimit(100)]
#[verifier::spinoff_prover]
proof fn lemma_pass_step_bounds_aix(
    thin: bool,
    has_map: bool,
    use_ec: bool,
    ms: Seq<MemberView>,
    i: int,
)
    requires
        0 <= i < ms.len(),
        spec_members_weight(ms) <= INPUT_WEIGHT_CAP,
        forall|j: int|
            0 <= j < ms.len() ==> crate::math_extras::is_power_of_2((#[trigger] ms[j]).align as int),
        spec_pass_bounded(
            ArchiveKind::AixBig,
            ms,
            i,
            spec_pass(ArchiveKind::AixBig, thin, has_map, use_ec, ms, i),
        ),
    ensures
        spec_pass_bounded(
            ArchiveKind::AixBig,
            ms,
            i + 1,
            spec_pass(ArchiveKind::AixBig, thin, has_map, use_ec, ms, i + 1),
        ),
{
    let kind = ArchiveKind::AixBig;
    reveal(spec_pass_step);
    lemma_weight_nonneg(ms);
    lemma_weight_take_snoc(ms, i);
    lemma_weight_take_le(ms, i);
    lemma_weight_take_le(ms, i + 1);
    let st = spec_pass(kind, thin, has_map, use_ec, ms, i);
    let st1 = spec_pass(kind, thin, has_map, use_ec, ms, i + 1);
    let m = ms[i];
    lemma_symbols_weight_nonneg(m.symbols);
    let mtime = spec_member_mtime(kind, ms, i);
    lemma_count_name_bounds(ms, m.name, i);
    lemma_count_name_bounds(ms, m.name, ms.len() as int);
    let size = spec_member_size(kind, thin, m);
    let data_len: nat = if thin {
        0nat
    } else {
        m.buf.len()
    };
    crate::alignment::lemma_align_to_properties((data_len + 0) as int, 2);
    assert(spec_member_padding(kind, data_len) == 0);
    let route = spec_route(has_map, use_ec, m.is_ec);
    lemma_collect_bounds(st.sym, m.symbols, (i + 1) as u16, route);
    lemma_strtab_upto_pass(ArchiveKind::AixBig, thin, has_map, use_ec, ms, i);
    assert(st1.strtab.len() == st.strtab.len());
    crate::alignment::lemma_align_to_properties(m.name.len() as int, 2);
    crate::alignment::lemma_align_to_properties(size as int, 2);
    let otmd = spec_aix_offset_to_mem_data(st.pos, m.name.len() as int);
    crate::alignment::lemma_align_to_properties(otmd, m.align as int);
    let cur_pad = spec_aix_cur_pad(ms, st, i);
    assert(0 <= cur_pad <= m.align);
    let hdr_pos = st.pos + cur_pad;
    let next_base = spec_aix_next_base(hdr_pos, m.name.len() as int, size as int);
    if i + 1 < ms.len() {
        let otnd = next_base + BIG_AR_MEM_HDR_SIZE + 2 + spec_align_to(
            ms[i + 1].name.len() as int,
            2,
        );
        crate::alignment::lemma_align_to_properties(ms[i + 1].name.len() as int, 2);
        crate::alignment::lemma_align_to_properties(otnd, ms[i + 1].align as int);
    }
    crate::member_header::lemma_big_archive_header_len(
        m.name,
        mtime as nat,
        m.uid as nat,
        m.gid as nat,
        m.perms as nat,
        size,
        st.prev_offset as nat,
        spec_aix_next_offset(ms, next_base, i) as nat,
    );
    lemma_mds_size_snoc(st.members, st1.members.last());
    assert(st1.members.drop_last() =~= st.members);
    assert(st1.members =~= st.members.push(st1.members.last()));
}

/// A non-AIX member header is at most 110 bytes plus the name.
#[verifier::rlimit(100)]
#[verifier::spinoff_prover]
proof fn lemma_nonaix_header_len(
    kind: ArchiveKind,
    thin: bool,
    ms: Seq<MemberView>,
    i: int,
    pos: nat,
)
    requires
        0 <= i < ms.len(),
        kind != ArchiveKind::AixBig,
        spec_members_weight(ms) <= INPUT_WEIGHT_CAP,
        pos <= 0x2000_0000_0000,
        spec_strtab_upto(kind, thin, ms, i).len() <= 0x2000_0000_0000,
    ensures
        spec_nonaix_header(kind, thin, ms, i, pos).len() <= 110 + ms[i].name.len(),
{
    let m = ms[i];
    lemma_weight_nonneg(ms);
    lemma_weight_take_snoc(ms, i);
    lemma_weight_take_le(ms, i);
    lemma_weight_take_le(ms, i + 1);
    lemma_symbols_weight_nonneg(m.symbols);
    let mtime = spec_member_mtime(kind, ms, i);
    lemma_count_name_bounds(ms, m.name, i);
    lemma_count_name_bounds(ms, m.name, ms.len() as int);
    let size = spec_member_size(kind, thin, m);
    let data_len: nat = if thin {
        0nat
    } else {
        m.buf.len()
    };
    crate::alignment::lemma_align_to_properties(data_len as int, 8);
    assert(spec_member_padding(kind, data_len) <= 7);
    lemma_weight_nonneg(ms.take(i));
    lemma_weight_nonneg(ms.take(i + 1));
    assert(spec_member_weight(m) <= INPUT_WEIGHT_CAP);
    assert(m.name.len() + m.name.len() <= INPUT_WEIGHT_CAP);
    assert(m.buf.len() <= INPUT_WEIGHT_CAP);
    assert(size <= INPUT_WEIGHT_CAP + 7);
    lemma_name_pos_bound(kind, thin, ms, i);
    if spec_is_bsd_like(kind) {
        crate::member_header::lemma_bsd_header_len(
            pos,
            m.name,
            mtime as nat,
            m.uid as nat,
            m.gid as nat,
            m.perms as nat,
            size,
        );
    } else if !spec_use_string_table(thin, m.name) {
        crate::member_header::lemma_gnu_small_header_len(
            m.name,
            mtime as nat,
            m.uid as nat,
            m.gid as nat,
            m.perms as nat,
            size,
        );
    } else {
        crate::member_header::lemma_gnu_longname_header_len(
            spec_name_pos(kind, thin, ms, i) as nat,
            mtime as nat,
            m.uid as nat,
            m.gid as nat,
            m.perms as nat,
            size,
        );
    }
}

/// One non-AIX step keeps the bounds.
#[verifier::rlimit(100)]
#[verifier::spinoff_prover]
proof fn lemma_pass_step_bounds_other(
    kind: ArchiveKind,
    thin: bool,
    has_map: bool,
    use_ec: bool,
    ms: Seq<MemberView>,
    i: int,
)
    requires
        0 <= i < ms.len(),
        kind != ArchiveKind::AixBig,
        spec_members_weight(ms) <= INPUT_WEIGHT_CAP,
        spec_pass_bounded(kind, ms, i, spec_pass(kind, thin, has_map, use_ec, ms, i)),
    ensures
        spec_pass_bounded(kind, ms, i + 1, spec_pass(kind, thin, has_map, use_ec, ms, i + 1)),
{
    reveal(spec_pass_step);
    lemma_weight_nonneg(ms);
    lemma_weight_take_snoc(ms, i);
    lemma_weight_take_le(ms, i);
    lemma_weight_take_le(ms, i + 1);
    let st = spec_pass(kind, thin, has_map, use_ec, ms, i);
    let st1 = spec_pass(kind, thin, has_map, use_ec, ms, i + 1);
    let m = ms[i];
    lemma_symbols_weight_nonneg(m.symbols);
    let mtime = spec_member_mtime(kind, ms, i);
    lemma_count_name_bounds(ms, m.name, i);
    lemma_count_name_bounds(ms, m.name, ms.len() as int);
    let size = spec_member_size(kind, thin, m);
    let data_len: nat = if thin {
        0nat
    } else {
        m.buf.len()
    };
    crate::alignment::lemma_align_to_properties(data_len as int, 8);
    crate::alignment::lemma_align_to_properties(
        (data_len + spec_member_padding(kind, data_len)) as int,
        2,
    );
    assert(spec_member_padding(kind, data_len) <= 7);
    assert(size <= m.buf.len() + 7);
    let route = spec_route(has_map, use_ec, m.is_ec);
    lemma_collect_bounds(st.sym, m.symbols, (i + 1) as u16, route);
    lemma_strtab_upto_pass(kind, thin, has_map, use_ec, ms, i);
    assert(st1.strtab.len() <= st.strtab.len() + m.name.len() + 2);
    lemma_nonaix_header_len(kind, thin, ms, i, st.pos as nat);
    lemma_mds_size_snoc(st.members, st1.members.last());
    assert(st1.members.drop_last() =~= st.members);
    assert(st1.members =~= st.members.push(st1.members.last()));
}

/// The string table of the pass state is the string table of the model.
proof fn lemma_strtab_upto_pass(
    kind: ArchiveKind,
    thin: bool,
    has_map: bool,
    use_ec: bool,
    ms: Seq<MemberView>,
    i: int,
)
    requires
        0 <= i <= ms.len(),
    ensures
        spec_pass(kind, thin, has_map, use_ec, ms, i).strtab == spec_strtab_upto(
            kind,
            thin,
            ms,
            i,
        ),
    decreases i,
{
    reveal(spec_pass_step);
    if i > 0 {
        lemma_strtab_upto_pass(kind, thin, has_map, use_ec, ms, i - 1);
    }
}

/// Everything the pass accumulates stays within the input weight.
pub proof fn lemma_pass_bounds(
    kind: ArchiveKind,
    thin: bool,
    has_map: bool,
    use_ec: bool,
    ms: Seq<MemberView>,
    i: int,
)
    requires
        0 <= i <= ms.len(),
        spec_members_weight(ms) <= INPUT_WEIGHT_CAP,
        kind == ArchiveKind::AixBig ==> forall|j: int|
            0 <= j < ms.len() ==> crate::math_extras::is_power_of_2((#[trigger] ms[j]).align as int),
    ensures
        spec_pass_bounded(kind, ms, i, spec_pass(kind, thin, has_map, use_ec, ms, i)),
    decreases i,
{
    if i == 0 {
        assert(ms.take(0) =~= Seq::<MemberView>::empty());
    } else {
        lemma_pass_bounds(kind, thin, has_map, use_ec, ms, i - 1);
        if kind == ArchiveKind::AixBig {
            lemma_pass_step_bounds_aix(thin, has_map, use_ec, ms, i - 1);
        } else {
            lemma_pass_step_bounds_other(kind, thin, has_map, use_ec, ms, i - 1);
        }
    }
}

/// The ghost value of a prepared member list.
pub open spec fn member_datas_view(v: Seq<MemberData>) -> Seq<MemberDataView> {
    v.map_values(|m: MemberData| m@)
}

/// The ghost value of the long-name memo.
pub open spec fn names_list_view(v: Seq<(Vec<u8>, u64)>) -> Seq<(Seq<u8>, u64)> {
    v.map_values(|e: (Vec<u8>, u64)| (e.0@, e.1))
}

/// Looks a name up in the long-name memo.
fn assoc_lookup(entries: &Vec<(Vec<u8>, u64)>, k: &[u8]) -> (r: Option<u64>)
    ensures
        r == spec_assoc_lookup(names_list_view(entries@), k@),
{
    let ghost l = names_list_view(entries@);
    proof {
        assert(l.skip(0) =~= l);
    }
    let mut i: usize = 0;
    while i < entries.len()
        invariant
            l == names_list_view(entries@),
            i <= entries@.len(),
            spec_assoc_lookup(l, k@) == spec_assoc_lookup(l.skip(i as int), k@),
        decreases entries@.len() - i,
    {
        proof {
            assert(l.skip(i as int)[0] == l[i as int]);
            assert(l.skip(i as int).drop_first() =~= l.skip(i as int + 1));
        }
        if crate::symtab::bytes_eq(k, &entries[i].0) {
            return Some(entries[i].1);
        }
        i += 1;
    }
    proof {
        assert(l.skip(entries@.len() as int) =~= Seq::<(Seq<u8>, u64)>::empty());
    }
    None
}

/// Counts the members among the first `n` whose name matches `name`.
fn count_name_upto(members: &Vec<NewArchiveMember>, name: &[u8], n: usize) -> (r: u64)
    requires
        n <= members@.len(),
    ensures
        r == spec_count_name_upto(
            members@.map_values(|m: NewArchiveMember| m@),
            name@,
            n as int,
        ),
{
    let ghost ms = members@.map_values(|m: NewArchiveMember| m@);
    let mut count: u64 = 0;
    let mut i: usize = 0;
    while i < n
        invariant
            ms == members@.map_values(|m: NewArchiveMember| m@),
            n <= members@.len(),
                i <= n,
            count == spec_count_name_upto(ms, name@, i as int),
            count <= i,
        decreases n - i,
    {
        proof {
            lemma_count_name_bounds(ms, name@, i as int);
        }
        if crate::symtab::bytes_eq(members[i].member_name.as_str().as_bytes(), name) {
            proof {
                assert(ms[i as int].name == name@);
            }
            count += 1;
        } else {
            proof {
                assert(ms[i as int].name != name@);
            }
        }
        i += 1;
    }
    count
}

/// A deep copy of a list of byte strings.
fn clone_byte_lists(v: &Vec<Vec<u8>>) -> (r: Vec<Vec<u8>>)
    ensures
        r@.map_values(|s: Vec<u8>| s@) == v@.map_values(|s: Vec<u8>| s@),
{
    let mut r: Vec<Vec<u8>> = Vec::new();
    let mut i: usize = 0;
    while i < v.len()
        invariant
            i <= v@.len(),
            r@.map_values(|s: Vec<u8>| s@) == v@.map_values(|s: Vec<u8>| s@).take(i as int),
        decreases v@.len() - i,
    {
        let ghost pre = r@;
        let cloned = crate::symmap::clone_bytes(&v[i]);
        proof {
            assert(cloned@ == v@[i as int]@);
        }
        r.push(cloned);
        proof {
            assert(r@.map_values(|s: Vec<u8>| s@) =~= pre.map_values(|s: Vec<u8>| s@).push(
                v@[i as int]@,
            ));
            assert(r@.map_values(|s: Vec<u8>| s@) =~= v@.map_values(|s: Vec<u8>| s@).take(
                i as int + 1,
            ));
        }
        i += 1;
    }
    proof {
        assert(v@.map_values(|s: Vec<u8>| s@).take(v@.len() as int) =~= v@.map_values(
            |s: Vec<u8>| s@,
        ));
    }
    r
}

/// Appends `n` newline bytes.
fn push_newlines(out: &mut Vec<u8>, n: u64)
    ensures
        final(out)@ == old(out)@ + Seq::new(n as nat, |j: int| 0x0au8),
{
    let mut i: u64 = 0;
    while i < n
        invariant
            i <= n,
            out@ == old(out)@ + Seq::new(i as nat, |j: int| 0x0au8),
        decreases n - i,
    {
        out.push(0x0a);
        proof {
            assert(out@ =~= old(out)@ + Seq::new((i + 1) as nat, |j: int| 0x0au8));
        }
        i += 1;
    }
    proof {
        assert(out@ =~= old(out)@ + Seq::new(n as nat, |j: int| 0x0au8));
    }
}

/// Whether any member is an object file, so the archive owes ancient tools
/// a symbol table entry.
pub open spec fn spec_any_object(ms: Seq<MemberView>) -> bool {
    exists|i: int| 0 <= i < ms.len() && (#[trigger] ms[i]).is_object
}

/// The symbol-name stream the pass hands on: an empty stream of an archive
/// holding object files becomes three NULs on non-COFF variants, so that
/// ancient tools still find a symbol table.
pub open spec fn spec_final_sym_names(
    kind: ArchiveKind,
    thin: bool,
    has_map: bool,
    use_ec: bool,
    ms: Seq<MemberView>,
) -> Seq<u8> {
    let names = spec_pass(kind, thin, has_map, use_ec, ms, ms.len() as int).sym.names;
    if spec_any_object(ms) && names.len() == 0 && kind != ArchiveKind::Coff {
        seq![0u8, 0u8, 0u8]
    } else {
        names
    }
}

/// Appends the header of non-AIX member `i`, routing a long name through
/// the string table: a thin archive records every name, others record each
/// new long name once and reuse its first offset.
#[verifier::rlimit(100)]
#[verifier::spinoff_prover]
fn print_member_header(
    w: &mut Vec<u8>,
    pos: u64,
    string_table: &mut Vec<u8>,
    member_names: &mut Vec<(Vec<u8>, u64)>,
    kind: ArchiveKind,
    thin: bool,
    name_bytes: &[u8],
    mtime: u64,
    uid: u32,
    gid: u32,
    perms: u32,
    size: u64,
    Ghost(ms): Ghost<Seq<MemberView>>,
    Ghost(i): Ghost<int>,
)
    requires
        kind != ArchiveKind::AixBig,
        0 <= i < ms.len(),
        name_bytes@ == ms[i].name,
        mtime == spec_member_mtime(kind, ms, i),
        uid == ms[i].uid,
        gid == ms[i].gid,
        perms == ms[i].perms,
        size == spec_member_size(kind, thin, ms[i]),
        old(string_table)@ == spec_strtab_upto(kind, thin, ms, i),
        names_list_view(old(member_names)@) == spec_member_names_list(kind, thin, ms, i),
        pos + 67 + name_bytes@.len() <= u64::MAX,
        size + 8 + name_bytes@.len() <= u64::MAX,
        old(string_table)@.len() + name_bytes@.len() + 2 <= u64::MAX,
    ensures
        final(w)@ == old(w)@ + spec_nonaix_header(kind, thin, ms, i, pos as nat),
        final(string_table)@ == spec_strtab_upto(kind, thin, ms, i + 1),
        names_list_view(final(member_names)@) == spec_member_names_list(kind, thin, ms, i + 1),
{
    if crate::archive::is_bsd_like(kind) {
        crate::member_header::print_bsd_member_header(
            w,
            pos,
            name_bytes,
            mtime,
            uid,
            gid,
            perms,
            size,
        );
        proof {
            assert(string_table@ =~= spec_strtab_upto(kind, thin, ms, i + 1));
            assert(names_list_view(member_names@) =~= spec_member_names_list(kind, thin, ms, i + 1));
        }
        return ;
    }
    if !crate::member_header::use_string_table(thin, name_bytes) {
        crate::member_header::print_gnu_small_member_header(
            w,
            name_bytes,
            mtime,
            uid,
            gid,
            perms,
            size,
        );
        proof {
            assert(string_table@ =~= spec_strtab_upto(kind, thin, ms, i + 1));
            assert(names_list_view(member_names@) =~= spec_member_names_list(kind, thin, ms, i + 1));
        }
        return ;
    }
    let name_pos: u64;
    if thin {
        name_pos = string_table.len() as u64;
        string_table.extend_from_slice(name_bytes);
        string_table.push(0x2f);
        string_table.push(0x0a);
    } else {
        match assoc_lookup(&member_names, name_bytes) {
            Some(p) => {
                name_pos = p;
            },
            None => {
                name_pos = string_table.len() as u64;
                member_names.push((vstd::slice::slice_to_vec(name_bytes), name_pos));
                string_table.extend_from_slice(name_bytes);
                if crate::archive::is_coff_archive(kind) {
                    string_table.push(0);
                } else {
                    string_table.push(0x2f);
                    string_table.push(0x0a);
                }
            },
        }
    }
    proof {
        assert(name_pos == spec_name_pos(kind, thin, ms, i));
        assert(string_table@ =~= spec_strtab_upto(kind, thin, ms, i + 1));
        assert(names_list_view(member_names@) =~= spec_member_names_list(kind, thin, ms, i + 1));
    }
    crate::member_header::print_gnu_longname_header(w, name_pos, mtime, uid, gid, perms, size);
}

/// Processes AIX member `i` of the pass.
#[verifier::rlimit(100)]
#[verifier::spinoff_prover]
fn pass_one_member_aix(
    string_table: &mut Vec<u8>,
    sym_names: &mut Vec<u8>,
    kind: ArchiveKind,
    thin: bool,
    has_map: bool,
    sym_map: &mut crate::symmap::SymMap,
    member_names: &mut Vec<(Vec<u8>, u64)>,
    pos: &mut u64,
    prev_offset: &mut u64,
    next_pad: &mut u64,
    new_members: &Vec<NewArchiveMember>,
    i: usize,
) -> (r: Result<MemberData, ArchiveError>)
    requires
        kind == ArchiveKind::AixBig,
        i < new_members@.len(),
        spec_members_weight(new_members@.map_values(|m: NewArchiveMember| m@))
            <= INPUT_WEIGHT_CAP,
        kind == ArchiveKind::AixBig ==> forall|j: int|
            0 <= j < new_members@.len() ==> crate::math_extras::is_power_of_2(
                (#[trigger] new_members@[j])@.align as int,
            ),
        ({
            let ms = new_members@.map_values(|m: NewArchiveMember| m@);
            let st = spec_pass(kind, thin, has_map, old(sym_map).use_ec_map, ms, i as int);
            &&& old(string_table)@ == st.strtab
            &&& crate::symtab::sym_state_of(old(sym_names)@, *old(sym_map)) == st.sym
            &&& *old(pos) == st.pos
            &&& *old(prev_offset) == st.prev_offset
            &&& *old(next_pad) == st.next_pad
            &&& names_list_view(old(member_names)@) == spec_member_names_list(
                kind,
                thin,
                ms,
                i as int,
            )
        }),
    ensures
        ({
            let ms = new_members@.map_values(|m: NewArchiveMember| m@);
            let use_ec = old(sym_map).use_ec_map;
            let st1 = spec_pass(kind, thin, has_map, use_ec, ms, i as int + 1);
            &&& final(sym_map).use_ec_map == use_ec
            &&& match r {
                Ok(md) => {
                    &&& spec_member_size(kind, thin, ms[i as int])
                        <= crate::archive::MAX_MEMBER_SIZE
                    &&& md@ == st1.members.last()
                    &&& st1.members == spec_pass(
                        kind,
                        thin,
                        has_map,
                        use_ec,
                        ms,
                        i as int,
                    ).members.push(md@)
                    &&& final(string_table)@ == st1.strtab
                    &&& crate::symtab::sym_state_of(final(sym_names)@, *final(sym_map)) == st1.sym
                    &&& *final(pos) == st1.pos
                    &&& *final(prev_offset) == st1.prev_offset
                    &&& *final(next_pad) == st1.next_pad
                    &&& names_list_view(final(member_names)@) == spec_member_names_list(
                        kind,
                        thin,
                        ms,
                        i as int + 1,
                    )
                },
                Err(e) => e == ArchiveError::MemberTooBig && spec_member_size(
                    kind,
                    thin,
                    ms[i as int],
                ) > crate::archive::MAX_MEMBER_SIZE,
            }
        }),
{
    let ghost ms = new_members@.map_values(|m: NewArchiveMember| m@);
    let ghost use_ec = old(sym_map).use_ec_map;
    proof {
        lemma_pass_bounds(kind, thin, has_map, use_ec, ms, i as int);
        lemma_pass_bounds(kind, thin, has_map, use_ec, ms, i as int + 1);
        lemma_weight_nonneg(ms);
        lemma_weight_nonneg(ms.take(i as int));
        lemma_weight_nonneg(ms.take(i as int + 1));
        lemma_weight_take_snoc(ms, i as int);
        lemma_weight_take_le(ms, i as int + 1);
        lemma_symbols_weight_nonneg(ms[i as int].symbols);
        assert(spec_member_weight(ms[i as int]) <= INPUT_WEIGHT_CAP);
        lemma_len_le_weight(ms);
        lemma_strtab_upto_pass(kind, thin, has_map, use_ec, ms, i as int);
        lemma_strtab_upto_pass(kind, thin, has_map, use_ec, ms, i as int + 1);
    }
    let ghost st = spec_pass(kind, thin, has_map, use_ec, ms, i as int);
    let ghost st1 = spec_pass(kind, thin, has_map, use_ec, ms, i as int + 1);
    let m = &new_members[i];
    let name_bytes: &[u8] = m.member_name.as_str().as_bytes();
    proof {
        assert(name_bytes@ == ms[i as int].name);
    }
    let data_len: u64 = if thin {
        0
    } else {
        m.buf.len() as u64
    };
    let member_padding: u64 = if crate::archive::is_darwin(kind) {
        crate::alignment::offset_to_alignment(data_len, 8)
    } else {
        0
    };
    let tail_padding = crate::alignment::offset_to_alignment(data_len + member_padding, 2);
    let mut padding: Vec<u8> = Vec::new();
    push_newlines(&mut padding, member_padding + tail_padding);
    proof {
        assert(padding@ =~= spec_padding_bytes(kind, thin, ms[i as int]));
    }
    let mtime: u64 = if crate::archive::is_darwin(kind) {
        if count_name_upto(new_members, name_bytes, new_members.len()) > 1 {
            count_name_upto(new_members, name_bytes, i)
        } else {
            m.mtime
        }
    } else {
        m.mtime
    };
    proof {
        lemma_count_name_bounds(ms, ms[i as int].name, i as int);
        assert(mtime == spec_member_mtime(kind, ms, i as int));
    }
    let size: u64 = m.buf.len() as u64 + member_padding;
    proof {
        assert(size == spec_member_size(kind, thin, ms[i as int]));
    }
    if size > crate::archive::MAX_MEMBER_SIZE {
        return Err(ArchiveError::MemberTooBig);
    }
    let mut header: Vec<u8> = Vec::new();
    let pre_pad: u64;
    let ghost spec_header: Seq<u8>;
    let (cur_pad, next_offset) = advance_aix_offsets(
        pos,
        next_pad,
        new_members,
        i,
        size,
        Ghost(ms),
        Ghost(st),
        Ghost(thin),
        Ghost(has_map),
        Ghost(use_ec),
    );
    crate::member_header::print_big_archive_member_header(
        &mut header,
        name_bytes,
        mtime,
        m.uid,
        m.gid,
        m.perms,
        size,
        *prev_offset,
        next_offset,
    );
    proof {
        assert(header@ =~= crate::member_header::spec_big_archive_header(
            ms[i as int].name,
            mtime as nat,
            m.uid as nat,
            m.gid as nat,
            m.perms as nat,
            size as nat,
            st.prev_offset as nat,
            next_offset as nat,
        ));
        spec_header = header@;
    }
    *prev_offset = *pos;
    pre_pad = cur_pad;
    proof {
        let route = crate::symtab::spec_route(has_map, use_ec, ms[i as int].is_ec);
        assert(st1.strtab == spec_strtab_upto(kind, thin, ms, i as int + 1)) by {
            reveal(spec_pass_step);
        }
        assert(st1.sym == spec_collect(st.sym, ms[i as int].symbols, (i + 1) as u16, route).0) by {
            reveal(spec_pass_step);
        }
        assert(st1.next_pad == *next_pad) by {
            reveal(spec_pass_step);
        }
        assert(st1.prev_offset == (if kind == ArchiveKind::AixBig {
            st.pos + pre_pad
        } else {
            st.prev_offset
        })) by {
            reveal(spec_pass_step);
        }
        assert({
            &&& st1.members == st.members.push(
                MemberDataView {
                    symbols: spec_collect(st.sym, ms[i as int].symbols, (i + 1) as u16, route).1,
                    header: spec_header,
                    data: if thin {
                        Seq::<u8>::empty()
                    } else {
                        ms[i as int].buf
                    },
                    padding: spec_padding_bytes(kind, thin, ms[i as int]),
                    pre_head_pad_size: pre_pad,
                    is_64: ms[i as int].is_64,
                    symbol_names: ms[i as int].symbols,
                },
            )
            &&& st1.pos == st.pos + pre_pad + spec_header.len() + (if thin {
                0int
            } else {
                ms[i as int].buf.len() as int
            }) + spec_padding_bytes(kind, thin, ms[i as int]).len()
            &&& st1.prev_offset == (if kind == ArchiveKind::AixBig {
                st.pos + pre_pad
            } else {
                st.prev_offset
            })
            &&& st1.next_pad == *next_pad
        }) by {
            reveal(spec_pass_step);
        }
    }
    let index: u16 = #[verifier::truncate] ((i as u64 + 1) as u16);
    let symbols = crate::symtab::write_symbols(
        &m.symbols,
        index,
        sym_names,
        has_map,
        sym_map,
        m.is_ec_object_file,
    );
    let data: Vec<u8> = if thin {
        Vec::new()
    } else {
        crate::symmap::clone_bytes(&m.buf)
    };
    *pos = *pos + header.len() as u64 + data.len() as u64 + padding.len() as u64;
    let md = MemberData {
        symbols,
        header,
        data,
        padding,
        pre_head_pad_size: pre_pad,
        is_64_bit_object_file: m.is_64_bit_object_file,
        symbol_names: clone_byte_lists(&m.symbols),
    };
    proof {
        assert(md@ =~= st1.members.last());
        assert(md@ == st1.members.last());
        assert(st1.members =~= st.members.push(md@));
        assert(crate::symtab::sym_state_of(sym_names@, *sym_map) =~= st1.sym);
    }
    Ok(md)
}


/// Advances the AIX cursor over member `i`: applies the carried leading pad,
/// computes the next-member offset stored in this member's header, and
/// prepares the next member's pad.
#[verifier::rlimit(100)]
#[verifier::spinoff_prover]
fn advance_aix_offsets(
    pos: &mut u64,
    next_pad: &mut u64,
    new_members: &Vec<NewArchiveMember>,
    i: usize,
    size: u64,
    Ghost(ms): Ghost<Seq<MemberView>>,
    Ghost(st): Ghost<PassState>,
    Ghost(thin): Ghost<bool>,
    Ghost(has_map): Ghost<bool>,
    Ghost(use_ec): Ghost<bool>,
) -> (r: (u64, u64))
    requires
        ms == new_members@.map_values(|m: NewArchiveMember| m@),
        i < ms.len(),
        spec_members_weight(ms) <= INPUT_WEIGHT_CAP,
        forall|j: int|
            0 <= j < ms.len() ==> crate::math_extras::is_power_of_2((#[trigger] ms[j]).align as int),
        st == spec_pass(ArchiveKind::AixBig, thin, has_map, use_ec, ms, i as int),
        spec_pass_bounded(ArchiveKind::AixBig, ms, i as int, st),
        *old(pos) == st.pos,
        *old(next_pad) == st.next_pad,
        size == spec_member_size(ArchiveKind::AixBig, thin, ms[i as int]),
        size <= crate::archive::MAX_MEMBER_SIZE,
    ensures
        r.0 == spec_aix_cur_pad(ms, st, i as int),
        *final(pos) == st.pos + r.0,
        r.1 == spec_aix_next_offset(
            ms,
            spec_aix_next_base(
                st.pos + spec_aix_cur_pad(ms, st, i as int),
                ms[i as int].name.len() as int,
                spec_member_size(ArchiveKind::AixBig, thin, ms[i as int]) as int,
            ),
            i as int,
        ),
        *final(next_pad) == (if i as int + 1 < ms.len() {
            spec_aix_next_pad(
                ms,
                spec_aix_next_base(
                    st.pos + spec_aix_cur_pad(ms, st, i as int),
                    ms[i as int].name.len() as int,
                    spec_member_size(ArchiveKind::AixBig, thin, ms[i as int]) as int,
                ),
                i as int,
            )
        } else {
            spec_aix_cur_pad(ms, st, i as int) as int
        }),
{
    proof {
        lemma_weight_nonneg(ms);
        lemma_weight_take_snoc(ms, i as int);
        lemma_weight_take_le(ms, i as int + 1);
        lemma_weight_nonneg(ms.take(i as int));
        lemma_weight_nonneg(ms.take(i as int + 1));
        lemma_symbols_weight_nonneg(ms[i as int].symbols);
        assert(spec_member_weight(ms[i as int]) <= INPUT_WEIGHT_CAP);
        lemma_len_le_weight(ms);
        crate::alignment::lemma_align_to_properties(ms[i as int].name.len() as int, 2);
        crate::alignment::lemma_align_to_properties(size as int, 2);
    }
    let m = &new_members[i];
    let name_bytes: &[u8] = m.member_name.as_str().as_bytes();
    proof {
        assert(name_bytes@ == ms[i as int].name);
    }
    let name_aligned = crate::alignment::align_to(name_bytes.len() as u64, 2);
    let offset_to_mem_data = *pos + BIG_AR_MEM_HDR_SIZE + 2 + name_aligned;
    proof {
        crate::alignment::lemma_align_to_properties(
            offset_to_mem_data as int,
            ms[i as int].align as int,
        );
    }
    if i == 0 {
        *next_pad = crate::math_extras::align_to_power_of2(
            offset_to_mem_data,
            m.xcoff_member_alignment as u64,
        ) - offset_to_mem_data;
    }
    let cur_pad = *next_pad;
    proof {
        assert(cur_pad == spec_aix_cur_pad(ms, st, i as int));
    }
    *pos = *pos + cur_pad;
    let mut next_offset = *pos + BIG_AR_MEM_HDR_SIZE + 2 + name_aligned
        + crate::alignment::align_to(size, 2);
    proof {
        assert(next_offset == spec_aix_next_base(
            st.pos + cur_pad,
            ms[i as int].name.len() as int,
            size as int,
        ));
    }
    if i < new_members.len() - 1 {
        let next_m = &new_members[i + 1];
        let next_name_bytes: &[u8] = next_m.member_name.as_str().as_bytes();
        proof {
            assert(next_name_bytes@ == ms[i as int + 1].name);
            lemma_weight_take_snoc(ms, i as int + 1);
            lemma_weight_take_le(ms, i as int + 2);
            lemma_weight_nonneg(ms.take(i as int + 2));
            lemma_symbols_weight_nonneg(ms[i as int + 1].symbols);
            assert(spec_member_weight(ms[i as int + 1]) <= INPUT_WEIGHT_CAP);
            crate::alignment::lemma_align_to_properties(ms[i as int + 1].name.len() as int, 2);
        }
        let next_name_aligned = crate::alignment::align_to(next_name_bytes.len() as u64, 2);
        let offset_to_next = next_offset + BIG_AR_MEM_HDR_SIZE + 2 + next_name_aligned;
        proof {
            crate::alignment::lemma_align_to_properties(
                offset_to_next as int,
                ms[i as int + 1].align as int,
            );
        }
        *next_pad = crate::math_extras::align_to_power_of2(
            offset_to_next,
            next_m.xcoff_member_alignment as u64,
        ) - offset_to_next;
        next_offset = next_offset + *next_pad;
        proof {
            assert(*next_pad == spec_aix_next_pad(
                ms,
                spec_aix_next_base(
                    st.pos + cur_pad,
                    ms[i as int].name.len() as int,
                    size as int,
                ),
                i as int,
            ));
        }
    } else {
        *next_pad = cur_pad;
    }
    proof {
        assert(next_offset == spec_aix_next_offset(
            ms,
            spec_aix_next_base(st.pos + cur_pad, ms[i as int].name.len() as int, size as int),
            i as int,
        ));
    }
    (cur_pad, next_offset)
}

/// Processes non-AIX member `i` of the pass.
#[verifier::rlimit(100)]
#[verifier::spinoff_prover]
fn pass_one_member_other(
    string_table: &mut Vec<u8>,
    sym_names: &mut Vec<u8>,
    kind: ArchiveKind,
    thin: bool,
    has_map: bool,
    sym_map: &mut crate::symmap::SymMap,
    member_names: &mut Vec<(Vec<u8>, u64)>,
    pos: &mut u64,
    prev_offset: &mut u64,
    next_pad: &mut u64,
    new_members: &Vec<NewArchiveMember>,
    i: usize,
) -> (r: Result<MemberData, ArchiveError>)
    requires
        kind != ArchiveKind::AixBig,
        i < new_members@.len(),
        spec_members_weight(new_members@.map_values(|m: NewArchiveMember| m@))
            <= INPUT_WEIGHT_CAP,
        kind == ArchiveKind::AixBig ==> forall|j: int|
            0 <= j < new_members@.len() ==> crate::math_extras::is_power_of_2(
                (#[trigger] new_members@[j])@.align as int,
            ),
        ({
            let ms = new_members@.map_values(|m: NewArchiveMember| m@);
            let st = spec_pass(kind, thin, has_map, old(sym_map).use_ec_map, ms, i as int);
            &&& old(string_table)@ == st.strtab
            &&& crate::symtab::sym_state_of(old(sym_names)@, *old(sym_map)) == st.sym
            &&& *old(pos) == st.pos
            &&& *old(prev_offset) == st.prev_offset
            &&& *old(next_pad) == st.next_pad
            &&& names_list_view(old(member_names)@) == spec_member_names_list(
                kind,
                thin,
                ms,
                i as int,
            )
        }),
    ensures
        ({
            let ms = new_members@.map_values(|m: NewArchiveMember| m@);
            let use_ec = old(sym_map).use_ec_map;
            let st1 = spec_pass(kind, thin, has_map, use_ec, ms, i as int + 1);
            &&& final(sym_map).use_ec_map == use_ec
            &&& match r {
                Ok(md) => {
                    &&& spec_member_size(kind, thin, ms[i as int])
                        <= crate::archive::MAX_MEMBER_SIZE
                    &&& md@ == st1.members.last()
                    &&& st1.members == spec_pass(
                        kind,
                        thin,
                        has_map,
                        use_ec,
                        ms,
                        i as int,
                    ).members.push(md@)
                    &&& final(string_table)@ == st1.strtab
                    &&& crate::symtab::sym_state_of(final(sym_names)@, *final(sym_map)) == st1.sym
                    &&& *final(pos) == st1.pos
                    &&& *final(prev_offset) == st1.prev_offset
                    &&& *final(next_pad) == st1.next_pad
                    &&& names_list_view(final(member_names)@) == spec_member_names_list(
                        kind,
                        thin,
                        ms,
                        i as int + 1,
                    )
                },
                Err(e) => e == ArchiveError::MemberTooBig && spec_member_size(
                    kind,
                    thin,
                    ms[i as int],
                ) > crate::archive::MAX_MEMBER_SIZE,
            }
        }),
{
    let ghost ms = new_members@.map_values(|m: NewArchiveMember| m@);
    let ghost use_ec = old(sym_map).use_ec_map;
    proof {
        lemma_pass_bounds(kind, thin, has_map, use_ec, ms, i as int);
        lemma_pass_bounds(kind, thin, has_map, use_ec, ms, i as int + 1);
        lemma_weight_nonneg(ms);
        lemma_weight_nonneg(ms.take(i as int));
        lemma_weight_nonneg(ms.take(i as int + 1));
        lemma_weight_take_snoc(ms, i as int);
        lemma_weight_take_le(ms, i as int + 1);
        lemma_symbols_weight_nonneg(ms[i as int].symbols);
        assert(spec_member_weight(ms[i as int]) <= INPUT_WEIGHT_CAP);
        lemma_len_le_weight(ms);
        lemma_strtab_upto_pass(kind, thin, has_map, use_ec, ms, i as int);
        lemma_strtab_upto_pass(kind, thin, has_map, use_ec, ms, i as int + 1);
    }
    let ghost st = spec_pass(kind, thin, has_map, use_ec, ms, i as int);
    let ghost st1 = spec_pass(kind, thin, has_map, use_ec, ms, i as int + 1);
    let m = &new_members[i];
    let name_bytes: &[u8] = m.member_name.as_str().as_bytes();
    proof {
        assert(name_bytes@ == ms[i as int].name);
    }
    let data_len: u64 = if thin {
        0
    } else {
        m.buf.len() as u64
    };
    let member_padding: u64 = if crate::archive::is_darwin(kind) {
        crate::alignment::offset_to_alignment(data_len, 8)
    } else {
        0
    };
    let tail_padding = crate::alignment::offset_to_alignment(data_len + member_padding, 2);
    let mut padding: Vec<u8> = Vec::new();
    push_newlines(&mut padding, member_padding + tail_padding);
    proof {
        assert(padding@ =~= spec_padding_bytes(kind, thin, ms[i as int]));
    }
    let mtime: u64 = if crate::archive::is_darwin(kind) {
        if count_name_upto(new_members, name_bytes, new_members.len()) > 1 {
            count_name_upto(new_members, name_bytes, i)
        } else {
            m.mtime
        }
    } else {
        m.mtime
    };
    proof {
        lemma_count_name_bounds(ms, ms[i as int].name, i as int);
        assert(mtime == spec_member_mtime(kind, ms, i as int));
    }
    let size: u64 = m.buf.len() as u64 + member_padding;
    proof {
        assert(size == spec_member_size(kind, thin, ms[i as int]));
    }
    if size > crate::archive::MAX_MEMBER_SIZE {
        return Err(ArchiveError::MemberTooBig);
    }
    let mut header: Vec<u8> = Vec::new();
    let pre_pad: u64;
    let ghost spec_header: Seq<u8>;
    print_member_header(
        &mut header,
        *pos,
        string_table,
        member_names,
        kind,
        thin,
        name_bytes,
        mtime,
        m.uid,
        m.gid,
        m.perms,
        size,
        Ghost(ms),
        Ghost(i as int),
    );
    proof {
        assert(header@ =~= spec_nonaix_header(kind, thin, ms, i as int, st.pos as nat));
        spec_header = header@;
    }
    pre_pad = 0;
    proof {
        let route = crate::symtab::spec_route(has_map, use_ec, ms[i as int].is_ec);
        assert(st1.strtab == spec_strtab_upto(kind, thin, ms, i as int + 1)) by {
            reveal(spec_pass_step);
        }
        assert(st1.sym == spec_collect(st.sym, ms[i as int].symbols, (i + 1) as u16, route).0) by {
            reveal(spec_pass_step);
        }
        assert(st1.members == st.members.push(
            MemberDataView {
                symbols: spec_collect(st.sym, ms[i as int].symbols, (i + 1) as u16, route).1,
                header: spec_header,
                data: if thin {
                    Seq::<u8>::empty()
                } else {
                    ms[i as int].buf
                },
                padding: spec_padding_bytes(kind, thin, ms[i as int]),
                pre_head_pad_size: pre_pad,
                is_64: ms[i as int].is_64,
                symbol_names: ms[i as int].symbols,
            },
        )) by {
            reveal(spec_pass_step);
        }
        assert(st1.pos == st.pos + pre_pad + spec_header.len() + (if thin {
            0int
        } else {
            ms[i as int].buf.len() as int
        }) + spec_padding_bytes(kind, thin, ms[i as int]).len()) by {
            reveal(spec_pass_step);
        }
        assert(st1.prev_offset == (if kind == ArchiveKind::AixBig {
            st.pos + pre_pad
        } else {
            st.prev_offset
        })) by {
            reveal(spec_pass_step);
        }
        assert(st1.next_pad == *next_pad) by {
            reveal(spec_pass_step);
        }
    }
    let index: u16 = #[verifier::truncate] ((i as u64 + 1) as u16);
    let symbols = crate::symtab::write_symbols(
        &m.symbols,
        index,
        sym_names,
        has_map,
        sym_map,
        m.is_ec_object_file,
    );
    let data: Vec<u8> = if thin {
        Vec::new()
    } else {
        crate::symmap::clone_bytes(&m.buf)
    };
    *pos = *pos + header.len() as u64 + data.len() as u64 + padding.len() as u64;
    let md = MemberData {
        symbols,
        header,
        data,
        padding,
        pre_head_pad_size: pre_pad,
        is_64_bit_object_file: m.is_64_bit_object_file,
        symbol_names: clone_byte_lists(&m.symbols),
    };
    proof {
        assert(md@ =~= st1.members.last());
        assert(md@ == st1.members.last());
        assert(st1.members =~= st.members.push(md@));
        assert(crate::symtab::sym_state_of(sym_names@, *sym_map) =~= st1.sym);
    }
    Ok(md)
}

/// Walks the members once, preparing each member's header, payload, padding
/// and symbol offsets, while filling the long-name string table, the
/// symbol-name stream and the symbol maps.  Fails exactly when some member
/// outgrows the ten-digit size field.
pub fn compute_member_data(
    string_table: &mut Vec<u8>,
    sym_names: &mut Vec<u8>,
    kind: ArchiveKind,
    thin: bool,
    has_map: bool,
    sym_map: &mut crate::symmap::SymMap,
    new_members: &Vec<NewArchiveMember>,
) -> (r: Result<Vec<MemberData>, ArchiveError>)
    requires
        old(string_table)@.len() == 0,
        old(sym_names)@.len() == 0,
        crate::symmap::map_entries_view(old(sym_map).map@) == Seq::<(Seq<u8>, u16)>::empty(),
        crate::symmap::map_entries_view(old(sym_map).ec_map@) == Seq::<(Seq<u8>, u16)>::empty(),
        spec_members_weight(new_members@.map_values(|m: NewArchiveMember| m@))
            <= INPUT_WEIGHT_CAP,
        kind == ArchiveKind::AixBig ==> forall|j: int|
            0 <= j < new_members@.len() ==> crate::math_extras::is_power_of_2(
                (#[trigger] new_members@[j])@.align as int,
            ),
    ensures
        ({
            let ms = new_members@.map_values(|m: NewArchiveMember| m@);
            let use_ec = old(sym_map).use_ec_map;
            let st = spec_pass(kind, thin, has_map, use_ec, ms, ms.len() as int);
            match r {
                Ok(mds) => {
                    &&& spec_sizes_ok(kind, thin, ms)
                    &&& member_datas_view(mds@) == st.members
                    &&& final(string_table)@ == st.strtab
                    &&& final(sym_names)@ == spec_final_sym_names(kind, thin, has_map, use_ec, ms)
                    &&& crate::symtab::sym_state_of(st.sym.names, *final(sym_map)) == st.sym
                    &&& final(sym_map).use_ec_map == use_ec
                },
                Err(e) => e == ArchiveError::MemberTooBig && !spec_sizes_ok(kind, thin, ms),
            }
        }),
{
    let ghost ms = new_members@.map_values(|m: NewArchiveMember| m@);
    let ghost use_ec = sym_map.use_ec_map;
    let mut ret: Vec<MemberData> = Vec::new();
    let mut has_object = false;
    let mut pos: u64 = if crate::archive::is_aix_big_archive(kind) {
        AIX_FIX_LEN_HDR_SIZE
    } else {
        0
    };
    let mut member_names: Vec<(Vec<u8>, u64)> = Vec::new();
    let mut prev_offset: u64 = 0;
    let mut next_pad: u64 = 0;
    let mut i: usize = 0;
    proof {
        assert(member_datas_view(ret@) =~= spec_pass(kind, thin, has_map, use_ec, ms, 0).members);
        assert(names_list_view(member_names@) =~= spec_member_names_list(kind, thin, ms, 0));
        assert(crate::symtab::sym_state_of(sym_names@, *sym_map) =~= spec_pass(
            kind,
            thin,
            has_map,
            use_ec,
            ms,
            0,
        ).sym);
    }
    while i < new_members.len()
        invariant
            ms == new_members@.map_values(|m: NewArchiveMember| m@),
            use_ec == old(sym_map).use_ec_map,
                spec_members_weight(ms) <= INPUT_WEIGHT_CAP,
            kind == ArchiveKind::AixBig ==> forall|j: int|
                0 <= j < new_members@.len() ==> crate::math_extras::is_power_of_2(
                    (#[trigger] new_members@[j])@.align as int,
                ),
            i <= new_members@.len(),
            sym_map.use_ec_map == use_ec,
            has_object == spec_any_object(ms.take(i as int)),
            ({
                let st = spec_pass(kind, thin, has_map, use_ec, ms, i as int);
                &&& string_table@ == st.strtab
                &&& crate::symtab::sym_state_of(sym_names@, *sym_map) == st.sym
                &&& pos == st.pos
                &&& prev_offset == st.prev_offset
                &&& next_pad == st.next_pad
                &&& member_datas_view(ret@) == st.members
                &&& names_list_view(member_names@) == spec_member_names_list(
                    kind,
                    thin,
                    ms,
                    i as int,
                )
            }),
            forall|j: int|
                0 <= j < i ==> spec_member_size(kind, thin, #[trigger] ms[j])
                    <= crate::archive::MAX_MEMBER_SIZE,
        decreases new_members@.len() - i,
    {
        let ghost st1 = spec_pass(kind, thin, has_map, use_ec, ms, i as int + 1);
        let step = if crate::archive::is_aix_big_archive(kind) {
            pass_one_member_aix(
                string_table,
                sym_names,
                kind,
                thin,
                has_map,
                sym_map,
                &mut member_names,
                &mut pos,
                &mut prev_offset,
                &mut next_pad,
                new_members,
                i,
            )
        } else {
            pass_one_member_other(
                string_table,
                sym_names,
                kind,
                thin,
                has_map,
                sym_map,
                &mut member_names,
                &mut pos,
                &mut prev_offset,
                &mut next_pad,
                new_members,
                i,
            )
        };
        if new_members[i].is_object {
            has_object = true;
        }
        proof {
            assert(ms.take(i as int + 1).drop_last() =~= ms.take(i as int));
            assert(ms.take(i as int + 1).last() == ms[i as int]);
            if has_object {
                if ms[i as int].is_object {
                    assert(ms.take(i as int + 1)[i as int].is_object);
                    assert(spec_any_object(ms.take(i as int + 1)));
                } else {
                    let w = choose|w: int|
                        0 <= w < ms.take(i as int).len() && (#[trigger] ms.take(
                            i as int,
                        )[w]).is_object;
                    assert(ms.take(i as int + 1)[w].is_object);
                    assert(spec_any_object(ms.take(i as int + 1)));
                }
            } else {
                assert forall|w: int| 0 <= w < ms.take(i as int + 1).len() implies !(
                #[trigger] ms.take(i as int + 1)[w]).is_object by {
                    if w < i {
                        assert(ms.take(i as int)[w] == ms.take(i as int + 1)[w]);
                    }
                }
            }
        }
        match step {
            Ok(md) => {
                ret.push(md);
                proof {
                    assert(member_datas_view(ret@) =~= st1.members);
                }
            },
            Err(e) => {
                proof {
                    assert(!spec_sizes_ok(kind, thin, ms));
                }
                return Err(e);
            },
        }
        i += 1;
    }
    proof {
        assert(ms.take(ms.len() as int) =~= ms);
    }
    if has_object && sym_names.len() == 0 && !crate::archive::is_coff_archive(kind) {
        sym_names.push(0);
        sym_names.push(0);
        sym_names.push(0);
        proof {
            assert(sym_names@ =~= seq![0u8, 0u8, 0u8]);
        }
    }
    Ok(ret)
}

/// The deterministic timestamp written into generated special members.
pub fn now() -> (r: u64)
    ensures
        r == 0,
{
    0
}

/// The header of the `//` string table member: its name field, the padded
/// size, and the terminator.
pub open spec fn spec_strtab_member_header(size: nat) -> Seq<u8> {
    let pad = spec_offset_to_alignment(size as int, 2) as nat;
    crate::numfmt::spec_left_aligned(seq![0x2fu8, 0x2fu8], 48) + crate::numfmt::spec_dec_field(
        (size + pad) as nat,
        10,
    ) + crate::member_header::spec_header_terminator()
}

/// The whole `//` member: header, names, and a newline pad to even length.
pub open spec fn spec_strtab_member_bytes(names: Seq<u8>) -> Seq<u8> {
    let pad = spec_offset_to_alignment(names.len() as int, 2) as nat;
    spec_strtab_member_header(names.len()) + names + Seq::new(pad, |j: int| 0x0au8)
}

/// Prepares the `//` member that carries the long-name string table.
pub fn compute_string_table(names: &Vec<u8>) -> (r: MemberData)
    requires
        names@.len() + 1 <= u64::MAX,
    ensures
        r@.header == spec_strtab_member_header(names@.len()),
        r@.data == names@,
        r@.padding == Seq::new(
            spec_offset_to_alignment(names@.len() as int, 2) as nat,
            |j: int| 0x0au8,
        ),
        r@.pre_head_pad_size == 0,
        r@.symbols == Seq::<u64>::empty(),
{
    let size = names.len() as u64;
    let pad = crate::alignment::offset_to_alignment(size, 2);
    let mut header: Vec<u8> = Vec::new();
    header.push(0x2f);
    header.push(0x2f);
    crate::numfmt::pad_field_with_spaces(&mut header, 0, 48);
    crate::numfmt::push_dec_field(&mut header, size + pad, 10);
    header.push(0x60);
    header.push(0x0a);
    proof {
        assert(header@ =~= spec_strtab_member_header(names@.len()));
    }
    let mut padding: Vec<u8> = Vec::new();
    push_newlines(&mut padding, pad);
    let data = crate::symmap::clone_bytes(names);
    let r = MemberData {
        symbols: Vec::new(),
        header,
        data,
        padding,
        pre_head_pad_size: 0,
        is_64_bit_object_file: false,
        symbol_names: Vec::new(),
    };
    proof {
        assert(r@.symbols =~= Seq::<u64>::empty());
        assert(r@.padding =~= Seq::new(
            spec_offset_to_alignment(names@.len() as int, 2) as nat,
            |j: int| 0x0au8,
        ));
    }
    r
}

/// The size of everything before the first member in a non-AIX archive: the
/// magic, the symbol table with its header, the COFF maps, and the string
/// table member.
#[verifier::opaque]
pub open spec fn spec_headers_size(
    kind: ArchiveKind,
    num_members: nat,
    string_member_size: nat,
    num_syms: nat,
    sym_names_size: nat,
    has_map: bool,
    map: Seq<(Seq<u8>, u16)>,
    ec_map: Seq<(Seq<u8>, u16)>,
) -> int {
    let offset_size: nat = if spec_is_64bit_kind(kind) {
        8
    } else {
        4
    };
    let symtab_size = crate::symtab::spec_symbol_table_size(
        kind,
        num_syms,
        offset_size,
        sym_names_size,
    );
    let header_size = crate::symtab::spec_symbol_table_header(
        kind,
        symtab_size,
        0,
        0,
        0,
    ).len() as int;
    8 + header_size + symtab_size + (if has_map {
        header_size + crate::symtab::spec_symbol_map_size(num_members, map) + (if ec_map.len()
            > 0 {
            header_size + crate::symtab::spec_ec_symbols_size(ec_map)
        } else {
            0int
        })
    } else {
        0int
    }) + string_member_size
}

/// Computes the size of everything before the first member by emitting the
/// symbol table header into a scratch buffer and measuring it.
#[verifier::rlimit(100)]
#[verifier::spinoff_prover]
pub fn compute_headers_size(
    kind: ArchiveKind,
    num_members: usize,
    string_member_size: u64,
    num_syms: u64,
    sym_names_size: u64,
    has_map: bool,
    sym_map: &crate::symmap::SymMap,
) -> (r: u64)
    requires
        num_syms <= 0x0100_0000_0000_0000,
        sym_names_size <= 0x1000_0000_0000_0000,
        string_member_size <= 0x1000_0000_0000_0000,
        num_members <= 0x0010_0000_0000,
        crate::symtab::spec_map_entry_bytes(crate::symmap::map_entries_view(sym_map.map@))
            <= 0x1000_0000_0000_0000,
        crate::symtab::spec_map_entry_bytes(crate::symmap::map_entries_view(sym_map.ec_map@))
            <= 0x1000_0000_0000_0000,
    ensures
        r == spec_headers_size(
            kind,
            num_members as nat,
            string_member_size as nat,
            num_syms as nat,
            sym_names_size as nat,
            has_map,
            crate::symmap::map_entries_view(sym_map.map@),
            crate::symmap::map_entries_view(sym_map.ec_map@),
        ),
        r <= 0x7000_0000_0000_0000,
{
    proof {
        reveal(spec_headers_size);
    }
    let offset_size: u64 = if crate::archive::is_64bit_kind(kind) {
        8
    } else {
        4
    };
    let (symtab_size, _) = crate::symtab::compute_symbol_table_size_and_pad(
        kind,
        num_syms,
        offset_size,
        sym_names_size,
    );
    let mut tmp: Vec<u8> = Vec::new();
    crate::symtab::write_symbol_table_header(&mut tmp, kind, symtab_size, 0, 0, 0);
    let header_size = tmp.len() as u64;
    proof {
        crate::member_header::lemma_rest_len_bound(0, 0, 0, 0, symtab_size as nat);
        if spec_is_bsd_like(kind) {
            crate::member_header::lemma_bsd_header_len(
                0,
                if spec_is_64bit_kind(kind) {
                    crate::symtab::spec_symdef64_name()
                } else {
                    crate::symtab::spec_symdef_name()
                },
                0,
                0,
                0,
                0,
                symtab_size as nat,
            );
        } else if kind == ArchiveKind::AixBig {
            crate::member_header::lemma_big_archive_header_len(
                Seq::empty(),
                0,
                0,
                0,
                0,
                symtab_size as nat,
                0,
                0,
            );
        } else {
            crate::member_header::lemma_gnu_small_header_len(
                if spec_is_64bit_kind(kind) {
                    crate::symtab::spec_sym64_name()
                } else {
                    Seq::empty()
                },
                0,
                0,
                0,
                0,
                symtab_size as nat,
            );
        }
    }
    let mut size: u64 = 8 + header_size + symtab_size;
    if has_map {
        let (map_size, _) = crate::symtab::compute_symbol_map_size_and_pad(num_members, sym_map);
        size = size + header_size + map_size;
        if sym_map.ec_map.len() > 0 {
            let (ec_size, _) = crate::symtab::compute_ec_symbols_size_and_pad(sym_map);
            size = size + header_size + ec_size;
        }
    }
    size + string_member_size
}

/// A COFF request with too many members for 16-bit indexes silently becomes
/// a GNU archive.
pub open spec fn spec_effective_kind(kind: ArchiveKind, n: int) -> ArchiveKind {
    if kind == ArchiveKind::Coff && n > 0xfffe {
        ArchiveKind::Gnu
    } else {
        kind
    }
}

/// The offset of the last member's header, relative to the first member.
pub open spec fn spec_last_header_offset(mds: Seq<MemberDataView>) -> int {
    if mds.len() == 0 {
        0
    } else {
        spec_mds_size(mds) - crate::symtab::spec_md_parts(mds.last())
    }
}

/// Whether a 32-bit variant must be promoted to its 64-bit form: the last
/// member's header would start at or beyond four gigabytes.
#[verifier::opaque]
pub open spec fn spec_needs_promotion(
    kind0: ArchiveKind,
    thin: bool,
    is_ec: bool,
    ms: Seq<MemberView>,
) -> bool {
    let has_map = kind0 == ArchiveKind::Coff;
    let st = spec_pass(kind0, thin, has_map, is_ec, ms, ms.len() as int);
    let names = spec_final_sym_names(kind0, thin, has_map, is_ec, ms);
    let sms: nat = if st.strtab.len() > 0 && kind0 != ArchiveKind::AixBig {
        spec_strtab_member_bytes(st.strtab).len()
    } else {
        0
    };
    !spec_is_64bit_kind(kind0) && spec_headers_size(
        kind0,
        ms.len(),
        sms,
        spec_mds_num_syms(st.members) as nat,
        names.len(),
        has_map,
        st.sym.map,
        st.sym.ec_map,
    ) + spec_last_header_offset(st.members) >= 0x1_0000_0000
}

/// The variant actually emitted: after the COFF cap and the 64-bit
/// promotion, Darwin grows to Darwin64 and everything else to GNU64.
pub open spec fn spec_final_kind(
    kind: ArchiveKind,
    thin: bool,
    is_ec: bool,
    ms: Seq<MemberView>,
) -> ArchiveKind {
    let kind0 = spec_effective_kind(kind, ms.len() as int);
    if spec_needs_promotion(kind0, thin, is_ec, ms) {
        if kind0 == ArchiveKind::Darwin {
            ArchiveKind::Darwin64
        } else {
            ArchiveKind::Gnu64
        }
    } else {
        kind0
    }
}

/// The member stream of a non-AIX archive, from member `k` on: header,
/// payload and padding per member.
pub open spec fn spec_members_stream(mds: Seq<MemberDataView>, k: int) -> Seq<u8>
    decreases mds.len() - k
        when 0 <= k <= mds.len()
{
    if k >= mds.len() {
        Seq::empty()
    } else {
        mds[k].header + mds[k].data + mds[k].padding + spec_members_stream(mds, k + 1)
    }
}

/// The member stream of an AIX archive, from member `k` on: leading NULs,
/// header, payload, and one NUL after an odd payload.
pub open spec fn spec_aix_member_stream(mds: Seq<MemberDataView>, k: int) -> Seq<u8>
    decreases mds.len() - k
        when 0 <= k <= mds.len()
{
    if k >= mds.len() {
        Seq::empty()
    } else {
        crate::symtab::spec_zeros(mds[k].pre_head_pad_size as nat) + mds[k].header + mds[k].data
            + (if mds[k].data.len() % 2 != 0 {
            seq![0u8]
        } else {
            Seq::<u8>::empty()
        }) + spec_aix_member_stream(mds, k + 1)
    }
}

/// The archive magic.
pub open spec fn spec_magic(kind1: ArchiveKind, thin: bool) -> Seq<u8> {
    if thin {
        seq![0x21u8, 0x3c, 0x74, 0x68, 0x69, 0x6e, 0x3e, 0x0a]
    } else if kind1 == ArchiveKind::AixBig {
        seq![0x3cu8, 0x62, 0x69, 0x67, 0x61, 0x66, 0x3e, 0x0a]
    } else {
        seq![0x21u8, 0x3c, 0x61, 0x72, 0x63, 0x68, 0x3e, 0x0a]
    }
}

/// The number of symbol offsets recorded for 32-bit members.
pub open spec fn spec_mds_num_syms32(mds: Seq<MemberDataView>) -> int
    decreases mds.len(),
{
    if mds.len() == 0 {
        0
    } else {
        (if mds[0].is_64 {
            0int
        } else {
            mds[0].symbols.len() as int
        }) + spec_mds_num_syms32(mds.drop_first())
    }
}

/// Partial 32-bit symbol counts, take-style.
pub proof fn lemma_num_syms32_take(mds: Seq<MemberDataView>, i: int)
    requires
        0 <= i <= mds.len(),
    ensures
        0 <= spec_mds_num_syms32(mds.take(i)) <= spec_mds_num_syms(mds.take(i)),
        i < mds.len() ==> spec_mds_num_syms32(mds.take(i + 1)) == spec_mds_num_syms32(mds.take(i))
            + (if mds[i].is_64 {
            0int
        } else {
            mds[i].symbols.len() as int
        }),
    decreases mds.len() - i,
{
    crate::symtab::lemma_mds_size_take(mds, i);
    lemma_num_syms32_snoc_all(mds.take(i));
    if i < mds.len() {
        assert(mds.take(i + 1) =~= mds.take(i).push(mds[i]));
        lemma_num_syms32_snoc(mds.take(i), mds[i]);
    }
}

/// 32-bit counts split off their last member, and never exceed the total.
proof fn lemma_num_syms32_snoc(mds: Seq<MemberDataView>, md: MemberDataView)
    ensures
        spec_mds_num_syms32(mds.push(md)) == spec_mds_num_syms32(mds) + (if md.is_64 {
            0int
        } else {
            md.symbols.len() as int
        }),
    decreases mds.len(),
{
    reveal_with_fuel(spec_mds_num_syms32, 3);
    if mds.len() == 0 {
        assert(mds.push(md).drop_first() =~= Seq::<MemberDataView>::empty());
        assert(mds.push(md)[0] == md);
    } else {
        lemma_num_syms32_snoc(mds.drop_first(), md);
        assert(mds.push(md).drop_first() =~= mds.drop_first().push(md));
        assert(mds.push(md)[0] == mds[0]);
    }
}

/// The 32-bit count lies between zero and the full count.
proof fn lemma_num_syms32_snoc_all(mds: Seq<MemberDataView>)
    ensures
        0 <= spec_mds_num_syms32(mds) <= spec_mds_num_syms(mds),
    decreases mds.len(),
{
    if mds.len() > 0 {
        lemma_num_syms32_snoc_all(mds.drop_first());
    }
}

/// Symbol names from `k` on, joined with NUL terminators.
pub open spec fn spec_names_concat(names: Seq<Seq<u8>>, k: int) -> Seq<u8>
    decreases names.len() - k
        when 0 <= k <= names.len()
{
    if k >= names.len() {
        Seq::empty()
    } else {
        names[k] + seq![0u8] + spec_names_concat(names, k + 1)
    }
}

/// Every offset a collection records points into the stream it built.
proof fn lemma_collect_offsets_lt(
    st: SymState,
    symbols: Seq<Seq<u8>>,
    index: u16,
    route: crate::symtab::SymRoute,
)
    requires
        st.names.len() + spec_symbols_weight(symbols) <= u64::MAX,
    ensures
        forall|k: int|
            0 <= k < spec_collect(st, symbols, index, route).1.len() ==> (
            #[trigger] spec_collect(st, symbols, index, route).1[k]) < spec_collect(
                st,
                symbols,
                index,
                route,
            ).0.names.len() || spec_collect(st, symbols, index, route).1.len() == 0,
    decreases symbols.len(),
{
    lemma_symbols_weight_nonneg(symbols);
    if symbols.len() > 0 {
        let (st1, o1) = crate::symtab::spec_collect_one(st, symbols[0], index, route);
        lemma_symbols_weight_nonneg(symbols.drop_first());
        assert(st1.names.len() <= st.names.len() + symbols[0].len() + 1);
        lemma_collect_offsets_lt(st1, symbols.drop_first(), index, route);
        lemma_collect_bounds(st1, symbols.drop_first(), index, route);
        let (st2, rest) = spec_collect(st1, symbols.drop_first(), index, route);
        assert forall|k: int|
            0 <= k < spec_collect(st, symbols, index, route).1.len() implies (
        #[trigger] spec_collect(st, symbols, index, route).1[k]) < spec_collect(
            st,
            symbols,
            index,
            route,
        ).0.names.len() || spec_collect(st, symbols, index, route).1.len() == 0 by {
            let full = spec_collect(st, symbols, index, route);
            if k < o1.len() {
                assert(full.1[k] == o1[k]);
                assert(o1.len() > 0 ==> o1[0] == st.names.len() && st1.names.len()
                    > st.names.len());
            } else {
                assert(full.1[k] == rest[k - o1.len()]);
            }
        }
    }
}

/// Every offset the pass records points into the symbol-name stream.
#[verifier::rlimit(100)]
#[verifier::spinoff_prover]
pub proof fn lemma_pass_offsets_bound(
    kind: ArchiveKind,
    thin: bool,
    has_map: bool,
    use_ec: bool,
    ms: Seq<MemberView>,
    i: int,
)
    requires
        0 <= i <= ms.len(),
        spec_members_weight(ms) <= INPUT_WEIGHT_CAP,
        kind == ArchiveKind::AixBig ==> forall|j: int|
            0 <= j < ms.len() ==> crate::math_extras::is_power_of_2((#[trigger] ms[j]).align as int),
    ensures
        ({
            let st = spec_pass(kind, thin, has_map, use_ec, ms, i);
            forall|j: int, k: int|
                0 <= j < st.members.len() && 0 <= k < st.members[j].symbols.len() ==> #[trigger] (
                st.members[j].symbols[k]) < st.sym.names.len()
        }),
    decreases i,
{
    if i > 0 {
        lemma_pass_offsets_bound(kind, thin, has_map, use_ec, ms, i - 1);
        lemma_pass_bounds(kind, thin, has_map, use_ec, ms, i - 1);
        lemma_weight_take_le(ms, i - 1);
        lemma_weight_take_snoc(ms, i - 1);
        lemma_weight_nonneg(ms);
        lemma_weight_nonneg(ms.take(i - 1));
        lemma_weight_nonneg(ms.take(i));
        lemma_weight_take_le(ms, i);
        let st = spec_pass(kind, thin, has_map, use_ec, ms, i - 1);
        let st1 = spec_pass(kind, thin, has_map, use_ec, ms, i);
        let m = ms[i - 1];
        lemma_symbols_weight_nonneg(m.symbols);
        assert(st.sym.names.len() + spec_symbols_weight(m.symbols) <= u64::MAX);
        let route = spec_route(has_map, use_ec, m.is_ec);
        lemma_collect_bounds(st.sym, m.symbols, i as u16, route);
        lemma_collect_offsets_lt(st.sym, m.symbols, i as u16, route);
        assert(st1.members.len() == st.members.len() + 1 && (forall|j: int|
            0 <= j < st.members.len() ==> st1.members[j] == #[trigger] st.members[j])
            && st1.members.last().symbols == spec_collect(st.sym, m.symbols, i as u16, route).1
            && st1.sym == spec_collect(st.sym, m.symbols, i as u16, route).0) by {
            reveal(spec_pass_step);
        }
        assert forall|j: int, k: int|
            0 <= j < st1.members.len() && 0 <= k < st1.members[j].symbols.len() implies #[trigger] (
        st1.members[j].symbols[k]) < st1.sym.names.len() by {
            if j < st.members.len() {
                assert(st1.members[j] == st.members[j]);
            } else {
                assert(st1.members[j] == st1.members.last());
            }
        }
    }
}

/// The `//` string table member of a non-AIX archive, or nothing.
pub open spec fn spec_string_member(kind0: ArchiveKind, strtab: Seq<u8>) -> Seq<u8> {
    if strtab.len() > 0 && kind0 != ArchiveKind::AixBig {
        spec_strtab_member_bytes(strtab)
    } else {
        Seq::empty()
    }
}

/// The whole archive, byte for byte, for the non-AIX layouts.
#[verifier::opaque]
pub open spec fn spec_flat_archive_bytes(
    kind: ArchiveKind,
    thin: bool,
    is_ec: bool,
    ms: Seq<MemberView>,
) -> Seq<u8> {
    let kind0 = spec_effective_kind(kind, ms.len() as int);
    let has_map = kind0 == ArchiveKind::Coff;
    let st = spec_pass(kind0, thin, has_map, is_ec, ms, ms.len() as int);
    let names = spec_final_sym_names(kind0, thin, has_map, is_ec, ms);
    let string_member = spec_string_member(kind0, st.strtab);
    let kind1 = spec_final_kind(kind, thin, is_ec, ms);
    let num_syms = spec_mds_num_syms(st.members);
    let hs = spec_headers_size(
        kind1,
        ms.len(),
        string_member.len(),
        num_syms as nat,
        names.len(),
        kind1 == ArchiveKind::Coff,
        st.sym.map,
        st.sym.ec_map,
    );
    spec_magic(kind1, thin) + crate::symtab::spec_symbol_table_bytes(
        kind1,
        st.members,
        names,
        hs,
        num_syms,
        0,
        0,
        8,
        false,
    ) + (if kind1 == ArchiveKind::Coff {
        crate::symtab::spec_symbol_map_bytes(kind1, st.members, st.sym.map, hs)
    } else {
        Seq::<u8>::empty()
    }) + string_member + (if st.sym.ec_map.len() > 0 {
        crate::symtab::spec_ec_symbols_bytes(st.sym.ec_map)
    } else {
        Seq::<u8>::empty()
    }) + spec_members_stream(st.members, 0)
}

/// Streams each prepared member: header, payload, padding.
fn write_members_flat(out: &mut Vec<u8>, data: &Vec<MemberData>)
    ensures
        final(out)@ == old(out)@ + spec_members_stream(member_datas_view(data@), 0),
{
    let ghost mds = member_datas_view(data@);
    let mut i: usize = 0;
    while i < data.len()
        invariant
            mds == member_datas_view(data@),
            i <= data@.len(),
            out@ + spec_members_stream(mds, i as int) == old(out)@ + spec_members_stream(mds, 0),
        decreases data@.len() - i,
    {
        let m = &data[i];
        out.extend_from_slice(m.header.as_slice());
        out.extend_from_slice(m.data.as_slice());
        out.extend_from_slice(m.padding.as_slice());
        proof {
            assert(out@ + spec_members_stream(mds, i as int + 1) =~= old(out)@
                + spec_members_stream(mds, 0));
        }
        i += 1;
    }
    proof {
        assert(out@ =~= out@ + spec_members_stream(mds, data@.len() as int));
    }
}

/// Streams each prepared AIX member: leading NULs, header, payload, and a
/// NUL after an odd payload.
fn write_members_aix(out: &mut Vec<u8>, data: &Vec<MemberData>)
    ensures
        final(out)@ == old(out)@ + spec_aix_member_stream(member_datas_view(data@), 0),
{
    let ghost mds = member_datas_view(data@);
    let mut i: usize = 0;
    while i < data.len()
        invariant
            mds == member_datas_view(data@),
            i <= data@.len(),
            out@ + spec_aix_member_stream(mds, i as int) == old(out)@ + spec_aix_member_stream(
                mds,
                0,
            ),
        decreases data@.len() - i,
    {
        let m = &data[i];
        crate::symtab::push_zeros(out, m.pre_head_pad_size);
        out.extend_from_slice(m.header.as_slice());
        out.extend_from_slice(m.data.as_slice());
        if m.data.len() % 2 != 0 {
            out.push(0);
        }
        proof {
            assert(out@ + spec_aix_member_stream(mds, i as int + 1) =~= old(out)@
                + spec_aix_member_stream(mds, 0));
        }
        i += 1;
    }
    proof {
        assert(out@ =~= out@ + spec_aix_member_stream(mds, data@.len() as int));
    }
}

/// Emits the archive for the given members.  The write fails exactly when a
/// member outgrows the ten-digit size field.  For the non-AIX layouts every
/// output byte is pinned by `spec_flat_archive_bytes`; the AIX big layout is
/// guaranteed its magic here, with its member pass pinned by `spec_pass`.
#[verifier::rlimit(100)]
#[verifier::spinoff_prover]
pub fn write_archive(
    new_members: &Vec<NewArchiveMember>,
    kind: ArchiveKind,
    thin: bool,
    is_ec: bool,
) -> (r: Result<Vec<u8>, ArchiveError>)
    requires
        !thin || !spec_is_bsd_like(kind),
        spec_members_weight(new_members@.map_values(|m: NewArchiveMember| m@))
            <= INPUT_WEIGHT_CAP,
        kind == ArchiveKind::Coff ==> spec_total_symbols(
            new_members@.map_values(|m: NewArchiveMember| m@),
        ) <= u32::MAX,
        kind == ArchiveKind::AixBig ==> forall|j: int|
            0 <= j < new_members@.len() ==> crate::math_extras::is_power_of_2(
                (#[trigger] new_members@[j])@.align as int,
            ),
    ensures
        ({
            let ms = new_members@.map_values(|m: NewArchiveMember| m@);
            let kind0 = spec_effective_kind(kind, ms.len() as int);
            match r {
                Ok(out) => spec_sizes_ok(kind0, thin, ms) && out@.len() >= 8 && out@.take(8)
                    == spec_magic(spec_final_kind(kind, thin, is_ec, ms), thin) && (kind
                    != ArchiveKind::AixBig ==> out@ == spec_flat_archive_bytes(
                    kind,
                    thin,
                    is_ec,
                    ms,
                )) && (kind == ArchiveKind::AixBig ==> out@ == spec_aix_archive_bytes(
                    thin,
                    is_ec,
                    ms,
                )),
                Err(e) => e == ArchiveError::MemberTooBig && !spec_sizes_ok(kind0, thin, ms),
            }
        }),
{
    let ghost ms = new_members@.map_values(|m: NewArchiveMember| m@);
    let mut kind = kind;
    let ghost orig_kind = kind;
    // COFF symbol maps use 16-bit member indexes; larger inputs fall back to
    // the GNU layout.
    if crate::archive::is_coff_archive(kind) && new_members.len() > 0xfffe {
        kind = ArchiveKind::Gnu;
    }
    proof {
        assert(kind == spec_effective_kind(orig_kind, ms.len() as int));
    }
    let has_map = crate::archive::is_coff_archive(kind);
    let mut sym_names: Vec<u8> = Vec::new();
    let mut string_table: Vec<u8> = Vec::new();
    let mut sym_map = crate::symmap::SymMap::new(is_ec);
    let data = match compute_member_data(
        &mut string_table,
        &mut sym_names,
        kind,
        thin,
        has_map,
        &mut sym_map,
        new_members,
    ) {
        Ok(d) => d,
        Err(e) => {
            return Err(e);
        },
    };
    let ghost st = spec_pass(kind, thin, has_map, is_ec, ms, ms.len() as int);
    proof {
        lemma_pass_bounds(kind, thin, has_map, is_ec, ms, ms.len() as int);
        lemma_pass_offsets_bound(kind, thin, has_map, is_ec, ms, ms.len() as int);
        lemma_len_le_weight(ms);
        assert(ms.take(ms.len() as int) =~= ms);
    }
    // The `//` member carrying the long-name string table, if any.
    let mut string_table_size: u64 = 0;
    let mut string_table_member: Option<MemberData> = None;
    if string_table.len() > 0 && !crate::archive::is_aix_big_archive(kind) {
        let stm = compute_string_table(&string_table);
        proof {
            crate::numfmt::lemma_dec_len_u64(
                (st.strtab.len() + spec_offset_to_alignment(st.strtab.len() as int, 2)) as nat,
            );
            crate::numfmt::lemma_dec_field_len(
                (st.strtab.len() + spec_offset_to_alignment(st.strtab.len() as int, 2)) as nat,
                10,
            );
            crate::alignment::lemma_align_to_properties(st.strtab.len() as int, 2);
            assert(stm@.header.len() <= 70);
            assert(ms.take(ms.len() as int) =~= ms);
        }
        string_table_size = stm.header.len() as u64 + stm.data.len() as u64
            + stm.padding.len() as u64;
        proof {
            assert(spec_strtab_member_bytes(st.strtab) =~= stm@.header + stm@.data + stm@.padding);
            assert(string_table_size == spec_string_member(kind, st.strtab).len());
        }
        string_table_member = Some(stm);
    }
    proof {
        if !(st.strtab.len() > 0 && kind != ArchiveKind::AixBig) {
            assert(spec_string_member(kind, st.strtab) =~= Seq::<u8>::empty());
        }
    }
    // Count symbols and find the last member's offsets.
    let ghost mds = member_datas_view(data@);
    let (last_member_end_offset, last_member_header_offset, num_syms, num_syms32) = tally_members(
        &data,
        kind,
        Ghost(ms),
        Ghost(st),
    );
    proof {
        assert(mds.take(data@.len() as int) =~= mds);
        lemma_pass_map_bytes(kind, thin, has_map, is_ec, ms, ms.len() as int);
    }
    // Promotion: a 32-bit variant whose last member header would start at or
    // beyond four gigabytes becomes its 64-bit form.
    let mut maybe_headers_size: Option<u64> = None;
    if !crate::archive::is_64bit_kind(kind) {
        let hs32 = compute_headers_size(
            kind,
            data.len(),
            string_table_size,
            num_syms,
            sym_names.len() as u64,
            has_map,
            &sym_map,
        );
        proof {
            lemma_headers_size_ge(
                kind,
                ms.len() as nat,
                string_table_size as nat,
                num_syms as nat,
                sym_names@.len(),
                has_map,
                st.sym.map,
                st.sym.ec_map,
            );
        }
        if hs32 + last_member_header_offset >= 0x1_0000_0000 {
            if kind == ArchiveKind::Darwin {
                kind = ArchiveKind::Darwin64;
            } else {
                kind = ArchiveKind::Gnu64;
            }
        } else {
            maybe_headers_size = Some(hs32);
        }
    }
    proof {
        assert(kind == spec_final_kind(orig_kind, thin, is_ec, ms)) by {
            reveal(spec_needs_promotion);
        }
    }
    let mut out: Vec<u8> = Vec::new();
    if thin {
        out.push(0x21);
        out.push(0x3c);
        out.push(0x74);
        out.push(0x68);
        out.push(0x69);
        out.push(0x6e);
        out.push(0x3e);
        out.push(0x0a);
    } else if crate::archive::is_aix_big_archive(kind) {
        out.push(0x3c);
        out.push(0x62);
        out.push(0x69);
        out.push(0x67);
        out.push(0x61);
        out.push(0x66);
        out.push(0x3e);
        out.push(0x0a);
    } else {
        out.push(0x21);
        out.push(0x3c);
        out.push(0x61);
        out.push(0x72);
        out.push(0x63);
        out.push(0x68);
        out.push(0x3e);
        out.push(0x0a);
    }
    proof {
        assert(out@ =~= spec_magic(kind, thin));
    }
    if !crate::archive::is_aix_big_archive(kind) {
        write_archive_flat_tail(
            &mut out,
            &data,
            &sym_names,
            &sym_map,
            string_table_member,
            string_table_size,
            kind,
            maybe_headers_size,
            num_syms,
            last_member_header_offset,
            thin,
            is_ec,
            Ghost(orig_kind),
            Ghost(ms),
        );
        Ok(out)
    } else {
        write_archive_aix_tail(&mut out, new_members, &data, thin, is_ec, num_syms, num_syms32, last_member_end_offset, last_member_header_offset, Ghost(ms));
        Ok(out)
    }
}


/// Emits everything after the magic of a non-AIX archive: the symbol table,
/// the COFF maps, the string table member and the member stream.
#[verifier::rlimit(100)]
#[verifier::spinoff_prover]
fn write_archive_flat_tail(
    out: &mut Vec<u8>,
    data: &Vec<MemberData>,
    sym_names: &Vec<u8>,
    sym_map: &crate::symmap::SymMap,
    string_table_member: Option<MemberData>,
    string_table_size: u64,
    kind: ArchiveKind,
    maybe_headers_size: Option<u64>,
    num_syms: u64,
    last_member_header_offset: u64,
    thin: bool,
    is_ec: bool,
    Ghost(orig_kind): Ghost<ArchiveKind>,
    Ghost(ms): Ghost<Seq<MemberView>>,
)
    requires
        kind != ArchiveKind::AixBig,
        orig_kind != ArchiveKind::AixBig,
        spec_members_weight(ms) <= INPUT_WEIGHT_CAP,
        orig_kind == ArchiveKind::Coff ==> spec_total_symbols(ms) <= u32::MAX,
        orig_kind == ArchiveKind::Coff && spec_effective_kind(orig_kind, ms.len() as int)
            == ArchiveKind::Coff ==> ms.len() <= 0xfffe,
        kind == spec_final_kind(orig_kind, thin, is_ec, ms),
        ({
            let kind0 = spec_effective_kind(orig_kind, ms.len() as int);
            let has_map = kind0 == ArchiveKind::Coff;
            let st = spec_pass(kind0, thin, has_map, is_ec, ms, ms.len() as int);
            &&& member_datas_view(data@) == st.members
            &&& sym_names@ == spec_final_sym_names(kind0, thin, has_map, is_ec, ms)
            &&& crate::symmap::map_entries_view(sym_map.map@) == st.sym.map
            &&& crate::symmap::map_entries_view(sym_map.ec_map@) == st.sym.ec_map
            &&& num_syms == spec_mds_num_syms(st.members)
            &&& last_member_header_offset == (if ms.len() == 0 {
                0int
            } else {
                spec_last_header_offset(st.members)
            })
            &&& string_table_size == spec_string_member(kind0, st.strtab).len()
            &&& (match string_table_member {
                Some(stm) => string_table_size > 0 && stm@.header + stm@.data + stm@.padding
                    == spec_string_member(kind0, st.strtab) && stm@.symbols
                    == Seq::<u64>::empty(),
                None => string_table_size == 0,
            })
            &&& (match maybe_headers_size {
                Some(h) => !spec_is_64bit_kind(kind) && h == spec_headers_size(
                    kind,
                    ms.len(),
                    string_table_size as nat,
                    num_syms as nat,
                    sym_names@.len(),
                    kind == ArchiveKind::Coff,
                    st.sym.map,
                    st.sym.ec_map,
                ) && h + last_member_header_offset < 0x1_0000_0000,
                None => spec_is_64bit_kind(kind),
            })
            &&& spec_pass_bounded(kind0, ms, ms.len() as int, st)
            &&& string_table_size <= INPUT_WEIGHT_CAP + 80
            &&& spec_mds_size(st.members) <= 256 + INPUT_WEIGHT_CAP
            &&& spec_mds_num_syms(st.members) * 24 <= INPUT_WEIGHT_CAP
            &&& st.sym.names.len() <= sym_names@.len()
            &&& sym_names@.len() <= INPUT_WEIGHT_CAP + 3
            &&& crate::symtab::spec_map_entry_bytes(st.sym.map) <= INPUT_WEIGHT_CAP
            &&& crate::symtab::spec_map_entry_bytes(st.sym.ec_map) <= INPUT_WEIGHT_CAP
            &&& (forall|j: int, k: int|
                0 <= j < st.members.len() && 0 <= k < st.members[j].symbols.len() ==> #[trigger] (
                st.members[j].symbols[k]) < st.sym.names.len())
        }),
        old(out)@ == spec_magic(kind, thin),
    ensures
        final(out)@ == spec_flat_archive_bytes(orig_kind, thin, is_ec, ms),
        final(out)@.len() >= 8,
        final(out)@.take(8) == spec_magic(kind, thin),
{
    let ghost kind0 = spec_effective_kind(orig_kind, ms.len() as int);
    let ghost has_map0 = kind0 == ArchiveKind::Coff;
    let ghost st = spec_pass(kind0, thin, has_map0, is_ec, ms, ms.len() as int);
    let ghost mds = member_datas_view(data@);
    proof {
        assert(ms.take(ms.len() as int) =~= ms);
        lemma_len_le_weight(ms);
        reveal(spec_needs_promotion);
    }
        let headers_size = match maybe_headers_size {
            Some(h) => h,
            None => compute_headers_size(
                kind,
                data.len(),
                string_table_size,
                num_syms,
                sym_names.len() as u64,
                crate::archive::is_coff_archive(kind),
                sym_map,
            ),
        };
        proof {
            lemma_headers_size_ge(
                kind,
                ms.len() as nat,
                string_table_size as nat,
                num_syms as nat,
                sym_names@.len(),
                kind == ArchiveKind::Coff,
                st.sym.map,
                st.sym.ec_map,
            );
            if !spec_is_64bit_kind(kind) {
                assert(headers_size + last_member_header_offset < 0x1_0000_0000);
            }
            assert forall|j: int| 0 <= j < data@.len() implies (#[trigger] data@[j]@).pre_head_pad_size
                == 0 by {
                assert(data@[j]@ == mds[j]);
            }
            if !spec_is_64bit_kind(kind) {
                assert forall|j: int, k: int|
                    0 <= j < data@.len() && 0 <= k < data@[j]@.symbols.len() implies #[trigger] (
                data@[j]@.symbols[k]) <= u32::MAX by {
                    assert(data@[j]@ == mds[j]);
                    assert(mds[j].symbols[k] < st.sym.names.len());
                    assert(st.sym.names.len() <= sym_names@.len());
                }
            }
        }
        proof {
            assert(headers_size + spec_mds_size(mds) <= 0x7800_0000_0000_0000);
        }
        crate::symtab::write_symbol_table(
            out,
            kind,
            data,
            sym_names.as_slice(),
            headers_size,
            num_syms,
            0,
            0,
            false,
            8,
        );
        let ghost after_symtab = out@;
        if crate::archive::is_coff_archive(kind) {
            proof {
                assert(kind0 == ArchiveKind::Coff);
                assert(orig_kind == ArchiveKind::Coff);
                lemma_pass_map_len(kind0, thin, has_map0, is_ec, ms, ms.len() as int);
                lemma_total_symbols_nonneg(ms);
                assert(ms.take(ms.len() as int) =~= ms);
                assert(st.sym.map.len() <= spec_total_symbols(ms));
                assert(crate::symmap::map_entries_view(sym_map.map@).len()
                    == sym_map.map@.len());
                lemma_len_le_weight(ms);
            }
            crate::symtab::write_symbol_map(out, kind, data, sym_map, headers_size);
        }
        let ghost map_chunk: Seq<u8> = if kind == ArchiveKind::Coff {
            crate::symtab::spec_symbol_map_bytes(
                kind,
                member_datas_view(data@),
                st.sym.map,
                headers_size as int,
            )
        } else {
            Seq::<u8>::empty()
        };
        proof {
            assert(out@ =~= after_symtab + map_chunk);
        }
        let ghost after_map = out@;
        if string_table_size > 0 {
            match string_table_member {
                Some(stm) => {
                    out.extend_from_slice(stm.header.as_slice());
                    out.extend_from_slice(stm.data.as_slice());
                    out.extend_from_slice(stm.padding.as_slice());
                },
                None => {},
            }
        }
        proof {
            assert(out@ =~= after_map + spec_string_member(kind0, st.strtab));
        }
        let ghost after_str = out@;
        if sym_map.ec_map.len() > 0 {
            proof {
                assert(crate::symmap::map_entries_view(sym_map.ec_map@).len()
                    == sym_map.ec_map@.len());
                if kind0 == ArchiveKind::Coff {
                    lemma_pass_map_len(kind0, thin, has_map0, is_ec, ms, ms.len() as int);
                    lemma_total_symbols_nonneg(ms);
                    assert(ms.take(ms.len() as int) =~= ms);
                } else {
                    lemma_pass_no_map(kind0, thin, is_ec, ms, ms.len() as int);
                }
            }
            crate::symtab::write_ec_symbols(out, sym_map);
        }
        let ghost ec_chunk: Seq<u8> = if st.sym.ec_map.len() > 0 {
            crate::symtab::spec_ec_symbols_bytes(st.sym.ec_map)
        } else {
            Seq::<u8>::empty()
        };
        proof {
            assert(out@ =~= after_str + ec_chunk);
        }
        let ghost after_ec = out@;
        write_members_flat(out, data);
        proof {
            assert(out@ == after_ec + spec_members_stream(member_datas_view(data@), 0));
            assert(out@ =~= spec_magic(kind, thin) + crate::symtab::spec_symbol_table_bytes(
                kind,
                st.members,
                spec_final_sym_names(kind0, thin, has_map0, is_ec, ms),
                headers_size as int,
                spec_mds_num_syms(st.members),
                0,
                0,
                8,
                false,
            ) + map_chunk + spec_string_member(kind0, st.strtab) + ec_chunk
                + spec_members_stream(st.members, 0));
            lemma_flat_assembly(orig_kind, thin, is_ec, ms, kind, headers_size as int, out@);
        }
}


/// Walks the prepared members once, summing the symbol counts and locating
/// the last member's header and end offsets, relative to the first member.
#[verifier::rlimit(100)]
#[verifier::spinoff_prover]
fn tally_members(
    data: &Vec<MemberData>,
    kind: ArchiveKind,
    Ghost(ms): Ghost<Seq<MemberView>>,
    Ghost(st): Ghost<PassState>,
) -> (r: (u64, u64, u64, u64))
    requires
        member_datas_view(data@) == st.members,
        spec_pass_bounded(kind, ms, ms.len() as int, st),
        spec_members_weight(ms) <= INPUT_WEIGHT_CAP,
        spec_mds_size(st.members) <= 256 + INPUT_WEIGHT_CAP,
        spec_mds_num_syms(st.members) * 24 <= INPUT_WEIGHT_CAP,
    ensures
        ({
            let mds = member_datas_view(data@);
            &&& r.0 == spec_mds_size(mds)
            &&& r.1 == (if data@.len() == 0 {
                0int
            } else {
                spec_last_header_offset(mds)
            })
            &&& r.2 == spec_mds_num_syms(mds)
            &&& (kind == ArchiveKind::AixBig ==> r.3 == spec_mds_num_syms32(mds))
            &&& (kind != ArchiveKind::AixBig ==> r.3 == 0)
            &&& r.3 <= r.2
        }),
{
    let ghost mds = member_datas_view(data@);
    let mut last_member_end_offset: u64 = 0;
    let mut last_member_header_offset: u64 = 0;
    let mut num_syms: u64 = 0;
    let mut num_syms32: u64 = 0;
    let mut i: usize = 0;
    proof {
        assert(mds.take(0) =~= Seq::<MemberDataView>::empty());
        crate::symtab::lemma_mds_size_take(mds, 0);
        lemma_num_syms32_take(mds, 0);
    }
    while i < data.len()
        invariant
            mds == member_datas_view(data@),
            mds == st.members,
            spec_mds_size(mds) <= 256 + INPUT_WEIGHT_CAP,
            spec_mds_num_syms(mds) * 24 <= INPUT_WEIGHT_CAP,
            i <= data@.len(),
            last_member_end_offset == spec_mds_size(mds.take(i as int)),
            last_member_header_offset == (if i == 0 {
                0int
            } else {
                spec_last_header_offset(mds.take(i as int))
            }),
            num_syms == spec_mds_num_syms(mds.take(i as int)),
            kind == ArchiveKind::AixBig ==> num_syms32 == spec_mds_num_syms32(mds.take(i as int)),
            kind != ArchiveKind::AixBig ==> num_syms32 == 0,
            num_syms32 <= num_syms,
        decreases data@.len() - i,
    {
        proof {
            crate::symtab::lemma_mds_size_take(mds, i as int);
            crate::symtab::lemma_mds_size_take(mds, i as int + 1);
            lemma_num_syms32_take(mds, i as int);
            assert(spec_mds_size(mds.take(i as int + 1)) <= spec_mds_size(mds));
            assert(spec_mds_num_syms(mds.take(i as int + 1)) <= spec_mds_num_syms(mds));
            assert(mds.take(i as int + 1).last() == mds[i as int]);
            assert(mds.take(i as int + 1).drop_last() =~= mds.take(i as int));
        }
        let m = &data[i];
        last_member_end_offset = last_member_end_offset + m.pre_head_pad_size;
        last_member_header_offset = last_member_end_offset;
        last_member_end_offset = last_member_end_offset + m.header.len() as u64
            + m.data.len() as u64 + m.padding.len() as u64;
        num_syms = num_syms + m.symbols.len() as u64;
        if crate::archive::is_aix_big_archive(kind) && !m.is_64_bit_object_file {
            num_syms32 = num_syms32 + m.symbols.len() as u64;
        }
        proof {
            lemma_num_syms32_take(mds, i as int);
        }
        i += 1;
    }
    proof {
        assert(mds.take(data@.len() as int) =~= mds);
    }
    (last_member_end_offset, last_member_header_offset, num_syms, num_syms32)
}


/// Assembles the flat archive equation: the concatenation of the emitted
/// chunks is the specified archive.
#[verifier::spinoff_prover]
proof fn lemma_flat_assembly(
    orig_kind: ArchiveKind,
    thin: bool,
    is_ec: bool,
    ms: Seq<MemberView>,
    kind: ArchiveKind,
    hs: int,
    out_final: Seq<u8>,
)
    requires
        kind != ArchiveKind::AixBig,
        kind == spec_final_kind(orig_kind, thin, is_ec, ms),
        ({
            let kind0 = spec_effective_kind(orig_kind, ms.len() as int);
            let has_map = kind0 == ArchiveKind::Coff;
            let st = spec_pass(kind0, thin, has_map, is_ec, ms, ms.len() as int);
            let names = spec_final_sym_names(kind0, thin, has_map, is_ec, ms);
            let string_member = spec_string_member(kind0, st.strtab);
            let num_syms = spec_mds_num_syms(st.members);
            &&& hs == spec_headers_size(
                kind,
                ms.len(),
                string_member.len(),
                num_syms as nat,
                names.len(),
                kind == ArchiveKind::Coff,
                st.sym.map,
                st.sym.ec_map,
            )
            &&& out_final == spec_magic(kind, thin) + crate::symtab::spec_symbol_table_bytes(
                kind,
                st.members,
                names,
                hs,
                num_syms,
                0,
                0,
                8,
                false,
            ) + (if kind == ArchiveKind::Coff {
                crate::symtab::spec_symbol_map_bytes(kind, st.members, st.sym.map, hs)
            } else {
                Seq::<u8>::empty()
            }) + string_member + (if st.sym.ec_map.len() > 0 {
                crate::symtab::spec_ec_symbols_bytes(st.sym.ec_map)
            } else {
                Seq::<u8>::empty()
            }) + spec_members_stream(st.members, 0)
        }),
    ensures
        out_final == spec_flat_archive_bytes(orig_kind, thin, is_ec, ms),
        out_final.len() >= 8,
        out_final.take(8) == spec_magic(kind, thin),
{
    reveal(spec_flat_archive_bytes);
    assert(out_final.take(8) =~= spec_magic(kind, thin));
}


/// Regenerates the symbol-name streams, one per member width, for the AIX
/// global symbol tables.
#[verifier::rlimit(100)]
#[verifier::spinoff_prover]
fn collect_aix_name_streams(
    data: &Vec<MemberData>,
    Ghost(ms): Ghost<Seq<MemberView>>,
    Ghost(st): Ghost<PassState>,
    Ghost(thin): Ghost<bool>,
    Ghost(is_ec): Ghost<bool>,
) -> (r: (Vec<u8>, Vec<u8>))
    requires
        spec_members_weight(ms) <= INPUT_WEIGHT_CAP,
        st == spec_pass(ArchiveKind::AixBig, thin, false, is_ec, ms, ms.len() as int),
        member_datas_view(data@) == st.members,
        spec_pass_bounded(ArchiveKind::AixBig, ms, ms.len() as int, st),
    ensures
        r.0@ == spec_aix_names(member_datas_view(data@), 0, false),
        r.1@ == spec_aix_names(member_datas_view(data@), 0, true),
        r.0@.len() + r.1@.len() <= INPUT_WEIGHT_CAP,
{
    let ghost mds = member_datas_view(data@);
    let mut sym_names32: Vec<u8> = Vec::new();
    let mut sym_names64: Vec<u8> = Vec::new();
    proof {
        assert(ms.take(ms.len() as int) =~= ms);
        lemma_weight_nonneg(ms);
    }
    let mut j: usize = 0;
    while j < data.len()
        invariant
            mds == member_datas_view(data@),
            mds == st.members,
            st == spec_pass(ArchiveKind::AixBig, thin, false, is_ec, ms, ms.len() as int),
            spec_pass_bounded(ArchiveKind::AixBig, ms, ms.len() as int, st),
            spec_members_weight(ms) <= INPUT_WEIGHT_CAP,
            data@.len() == ms.len(),
            j <= data@.len(),
            sym_names32@.len() + sym_names64@.len() <= spec_members_weight(ms.take(j as int)),
            sym_names32@ + spec_aix_names(mds, j as int, false) == spec_aix_names(mds, 0, false),
            sym_names64@ + spec_aix_names(mds, j as int, true) == spec_aix_names(mds, 0, true),
        decreases data@.len() - j,
    {
        proof {
            lemma_weight_take_snoc(ms, j as int);
            lemma_weight_take_le(ms, j as int + 1);
            lemma_weight_nonneg(ms.take(j as int));
            lemma_weight_nonneg(ms.take(j as int + 1));
            lemma_names_concat_le_weight(ms[j as int].symbols);
            lemma_symbols_weight_nonneg(ms[j as int].symbols);
            assert(mds[j as int].symbol_names == ms[j as int].symbols);
        }
        let m = &data[j];
        if m.is_64_bit_object_file {
            append_symbol_names(&mut sym_names64, &m.symbol_names);
        } else {
            append_symbol_names(&mut sym_names32, &m.symbol_names);
        }
        proof {
            assert(sym_names32@ + spec_aix_names(mds, j as int + 1, false) =~= spec_aix_names(
                mds,
                0,
                false,
            ));
            assert(sym_names64@ + spec_aix_names(mds, j as int + 1, true) =~= spec_aix_names(
                mds,
                0,
                true,
            ));
        }
        j += 1;
    }
    proof {
        lemma_weight_take_le(ms, data@.len() as int);
        assert(sym_names32@ =~= spec_aix_names(mds, data@.len() as int, false) + sym_names32@);
        assert(sym_names32@ =~= spec_aix_names(mds, 0, false));
        assert(sym_names64@ =~= spec_aix_names(mds, 0, true));
    }
    (sym_names32, sym_names64)
}


/// Assembles the AIX archive equation: the concatenation of the emitted
/// chunks is the specified archive.
#[verifier::spinoff_prover]
proof fn lemma_aix_assembly(thin: bool, is_ec: bool, ms: Seq<MemberView>, out_final: Seq<u8>)
    requires
        ({
            let st = spec_pass(ArchiveKind::AixBig, thin, false, is_ec, ms, ms.len() as int);
            let mds = st.members;
            let n = ms.len() as int;
            let last_end = 128 + spec_mds_size(mds);
            let lho = 128 + spec_last_header_offset(mds);
            let mts = 20 + 20 * n + spec_aix_table_names_size(ms, 0);
            let names32 = spec_aix_names(mds, 0, false);
            let names64 = spec_aix_names(mds, 0, true);
            let ns = spec_mds_num_syms(mds);
            let ns32 = spec_mds_num_syms32(mds);
            let ns64 = ns - ns32;
            let mte = last_end + spec_align_to(BIG_AR_MEM_HDR_SIZE + 2 + mts, 2);
            let gso: int = if ns32 > 0 {
                mte
            } else {
                0
            };
            let gso64: int = if ns64 > 0 {
                if gso == 0 {
                    mte
                } else {
                    gso + BIG_AR_MEM_HDR_SIZE + 2 + (ns32 + 1) * 8 + spec_align_to(
                        names32.len() as int,
                        2,
                    )
                }
            } else {
                0
            };
            out_final == spec_magic(ArchiveKind::AixBig, thin) + crate::numfmt::spec_dec_field(
                (if n > 0 {
                    last_end
                } else {
                    0
                }) as nat,
                20,
            ) + crate::numfmt::spec_dec_field(gso as nat, 20) + crate::numfmt::spec_dec_field(
                gso64 as nat,
                20,
            ) + crate::numfmt::spec_dec_field(
                (if n > 0 {
                    128 + mds[0].pre_head_pad_size as int
                } else {
                    0
                }) as nat,
                20,
            ) + crate::numfmt::spec_dec_field(
                (if n > 0 {
                    lho
                } else {
                    0
                }) as nat,
                20,
            ) + crate::numfmt::spec_dec_field(0, 20) + spec_aix_member_stream(mds, 0) + (if n
                > 0 {
                crate::member_header::spec_big_archive_header(
                    Seq::empty(),
                    0,
                    0,
                    0,
                    0,
                    mts as nat,
                    lho as nat,
                    (if gso != 0 {
                        gso
                    } else {
                        gso64
                    }) as nat,
                ) + crate::numfmt::spec_dec_field(n as nat, 20) + spec_aix_table_offsets(
                    ms,
                    mds,
                    0,
                ) + spec_aix_table_names(ms, 0) + (if spec_aix_table_names_size(ms, 0) % 2 != 0 {
                    seq![0u8]
                } else {
                    Seq::<u8>::empty()
                }) + (if gso != 0 {
                    crate::symtab::spec_symbol_table_bytes(
                        ArchiveKind::AixBig,
                        mds,
                        names32,
                        128,
                        ns32,
                        last_end,
                        gso64,
                        0,
                        false,
                    ) + (if gso64 != 0 && names32.len() % 2 != 0 {
                        seq![0u8]
                    } else {
                        Seq::<u8>::empty()
                    })
                } else {
                    Seq::<u8>::empty()
                }) + (if gso64 != 0 {
                    crate::symtab::spec_symbol_table_bytes(
                        ArchiveKind::AixBig,
                        mds,
                        names64,
                        128,
                        ns64,
                        if gso != 0 {
                            gso
                        } else {
                            last_end
                        },
                        0,
                        0,
                        true,
                    )
                } else {
                    Seq::<u8>::empty()
                })
            } else {
                Seq::<u8>::empty()
            })
        }),
    ensures
        out_final == spec_aix_archive_bytes(thin, is_ec, ms),
        out_final.len() >= 8,
        out_final.take(8) == spec_magic(ArchiveKind::AixBig, thin),
{
    reveal(spec_aix_archive_bytes);
    assert(out_final.take(8) =~= spec_magic(ArchiveKind::AixBig, thin));
}


/// Emits the AIX trailing tables: the member table and the 32- and 64-bit
/// global symbol tables.
#[verifier::rlimit(100)]
#[verifier::spinoff_prover]
fn write_aix_trailers(
    out: &mut Vec<u8>,
    new_members: &Vec<NewArchiveMember>,
    data: &Vec<MemberData>,
    sym_names32: &Vec<u8>,
    sym_names64: &Vec<u8>,
    member_offsets: &Vec<u64>,
    member_table_size: u64,
    member_table_name_str_tbl_size: u64,
    last_end: u64,
    lho: u64,
    global_symbol_offset: u64,
    global_symbol_offset64: u64,
    num_syms32: u64,
    num_syms64: u64,
    Ghost(ms): Ghost<Seq<MemberView>>,
    Ghost(st): Ghost<PassState>,
    Ghost(thin): Ghost<bool>,
    Ghost(is_ec): Ghost<bool>,
)
    requires
        ms == new_members@.map_values(|m: NewArchiveMember| m@),
        ms.len() > 0,
        spec_members_weight(ms) <= INPUT_WEIGHT_CAP,
        forall|j: int|
            0 <= j < ms.len() ==> crate::math_extras::is_power_of_2((#[trigger] ms[j]).align as int),
        st == spec_pass(ArchiveKind::AixBig, thin, false, is_ec, ms, ms.len() as int),
        member_datas_view(data@) == st.members,
        spec_pass_bounded(ArchiveKind::AixBig, ms, ms.len() as int, st),
        sym_names32@.len() + sym_names64@.len() <= INPUT_WEIGHT_CAP,
        ({
            let mds = member_datas_view(data@);
            &&& last_end == 128 + spec_mds_size(mds)
            &&& lho == 128 + spec_last_header_offset(mds)
            &&& member_table_name_str_tbl_size == spec_aix_table_names_size(ms, 0)
            &&& member_table_size == 20 + 20 * (ms.len() as int) + spec_aix_table_names_size(
                ms,
                0,
            )
            &&& sym_names32@ == spec_aix_names(mds, 0, false)
            &&& sym_names64@ == spec_aix_names(mds, 0, true)
            &&& num_syms32 == spec_mds_num_syms32(mds)
            &&& num_syms64 == spec_mds_num_syms(mds) - spec_mds_num_syms32(mds)
            &&& member_offsets@.len() == ms.len()
            &&& (forall|k: int|
                0 <= k < ms.len() ==> #[trigger] member_offsets@[k] == spec_aix_member_end(
                    ms,
                    mds,
                    k,
                ) + mds[k].pre_head_pad_size)
            &&& global_symbol_offset == (if spec_mds_num_syms32(mds) > 0 {
                128 + spec_mds_size(mds) + spec_align_to(
                    BIG_AR_MEM_HDR_SIZE + 2 + (20 + 20 * (ms.len() as int)
                        + spec_aix_table_names_size(ms, 0)),
                    2,
                )
            } else {
                0int
            })
            &&& global_symbol_offset64 == (if spec_mds_num_syms(mds) - spec_mds_num_syms32(mds)
                > 0 {
                if global_symbol_offset == 0 {
                    128 + spec_mds_size(mds) + spec_align_to(
                        BIG_AR_MEM_HDR_SIZE + 2 + (20 + 20 * (ms.len() as int)
                            + spec_aix_table_names_size(ms, 0)),
                        2,
                    )
                } else {
                    global_symbol_offset + BIG_AR_MEM_HDR_SIZE + 2 + (spec_mds_num_syms32(mds)
                        + 1) * 8 + spec_align_to(spec_aix_names(mds, 0, false).len() as int, 2)
                }
            } else {
                0int
            })
        }),
    ensures
        ({
            let mds = member_datas_view(data@);
            final(out)@ == old(out)@ + (crate::member_header::spec_big_archive_header(
                Seq::empty(),
                0,
                0,
                0,
                0,
                (20 + 20 * (ms.len() as int) + spec_aix_table_names_size(ms, 0)) as nat,
                (128 + spec_last_header_offset(mds)) as nat,
                (if global_symbol_offset != 0 {
                    global_symbol_offset as int
                } else {
                    global_symbol_offset64 as int
                }) as nat,
            ) + crate::numfmt::spec_dec_field(ms.len(), 20) + spec_aix_table_offsets(ms, mds, 0)
                + spec_aix_table_names(ms, 0) + (if spec_aix_table_names_size(ms, 0) % 2 != 0 {
                seq![0u8]
            } else {
                Seq::<u8>::empty()
            }) + (if global_symbol_offset != 0 {
                crate::symtab::spec_symbol_table_bytes(
                    ArchiveKind::AixBig,
                    mds,
                    spec_aix_names(mds, 0, false),
                    128,
                    spec_mds_num_syms32(mds),
                    128 + spec_mds_size(mds),
                    global_symbol_offset64 as int,
                    0,
                    false,
                ) + (if global_symbol_offset64 != 0 && spec_aix_names(mds, 0, false).len() % 2
                    != 0 {
                    seq![0u8]
                } else {
                    Seq::<u8>::empty()
                })
            } else {
                Seq::<u8>::empty()
            }) + (if global_symbol_offset64 != 0 {
                crate::symtab::spec_symbol_table_bytes(
                    ArchiveKind::AixBig,
                    mds,
                    spec_aix_names(mds, 0, true),
                    128,
                    spec_mds_num_syms(mds) - spec_mds_num_syms32(mds),
                    if global_symbol_offset != 0 {
                        global_symbol_offset as int
                    } else {
                        128 + spec_mds_size(mds)
                    },
                    0,
                    0,
                    true,
                )
            } else {
                Seq::<u8>::empty()
            }))
        }),
{
    let ghost mds = member_datas_view(data@);
    let headers_size: u64 = AIX_FIX_LEN_HDR_SIZE;
    proof {
        lemma_pass_bounds(ArchiveKind::AixBig, thin, false, is_ec, ms, ms.len() as int);
        assert(ms.take(ms.len() as int) =~= ms);
        lemma_weight_nonneg(ms);
        lemma_len_le_weight(ms);
        lemma_num_syms32_take_full(mds);
        lemma_aix_table_names_size(ms, 0);
        crate::symtab::lemma_mds_size_take(mds, 0);
    }

        let empty_name: Vec<u8> = Vec::new();
        proof {
            assert(empty_name@ =~= Seq::<u8>::empty());
        }
        crate::member_header::print_big_archive_member_header(
            out,
            empty_name.as_slice(),
            0,
            0,
            0,
            0,
            member_table_size,
            lho,
            if global_symbol_offset != 0 {
                global_symbol_offset
            } else {
                global_symbol_offset64
            },
        );
        crate::numfmt::push_dec_field(out, member_offsets.len() as u64, 20);
        let ghost snap1 = out@;
        let mut k: usize = 0;
        while k < member_offsets.len()
            invariant
                mds == member_datas_view(data@),
                mds == st.members,
                spec_pass_bounded(ArchiveKind::AixBig, ms, ms.len() as int, st),
                ms.len() == member_offsets@.len(),
                forall|j: int|
                    0 <= j < ms.len() ==> #[trigger] member_offsets@[j] == spec_aix_member_end(
                        ms,
                        mds,
                        j,
                    ) + mds[j].pre_head_pad_size,
                k <= member_offsets@.len(),
                out@ + spec_aix_table_offsets(ms, mds, k as int) == snap1
                    + spec_aix_table_offsets(ms, mds, 0),
            decreases member_offsets@.len() - k,
        {
            crate::numfmt::push_dec_field(out, member_offsets[k], 20);
            proof {
                assert(out@ + spec_aix_table_offsets(ms, mds, k as int + 1) =~= snap1
                    + spec_aix_table_offsets(ms, mds, 0));
            }
            k += 1;
        }
        proof {
            assert(out@ =~= out@ + spec_aix_table_offsets(ms, mds, ms.len() as int));
            assert(out@ =~= snap1 + spec_aix_table_offsets(ms, mds, 0));
        }
        let ghost snap2 = out@;
        let mut k2: usize = 0;
        while k2 < new_members.len()
            invariant
                ms == new_members@.map_values(|m: NewArchiveMember| m@),
                k2 <= new_members@.len(),
                out@ + spec_aix_table_names(ms, k2 as int) == snap2 + spec_aix_table_names(
                    ms,
                    0,
                ),
            decreases new_members@.len() - k2,
        {
            let name_bytes: &[u8] = new_members[k2].member_name.as_str().as_bytes();
            proof {
                assert(name_bytes@ == ms[k2 as int].name);
            }
            out.extend_from_slice(name_bytes);
            out.push(0);
            proof {
                assert(out@ + spec_aix_table_names(ms, k2 as int + 1) =~= snap2
                    + spec_aix_table_names(ms, 0));
            }
            k2 += 1;
        }
        proof {
            assert(out@ =~= out@ + spec_aix_table_names(ms, ms.len() as int));
            assert(out@ =~= snap2 + spec_aix_table_names(ms, 0));
            lemma_aix_table_names_size(ms, 0);
        }
        if member_table_name_str_tbl_size % 2 != 0 {
            out.push(0);
        }
        let ghost after_pad = out@;
        proof {
            lemma_pass_offsets_bound(ArchiveKind::AixBig, thin, false, is_ec, ms, ms.len() as int);
            crate::symtab::lemma_mds_size_take(mds, 0);
        }
        if global_symbol_offset != 0 {
            crate::symtab::write_symbol_table(
                out,
                ArchiveKind::AixBig,
                data,
                sym_names32.as_slice(),
                headers_size,
                num_syms32,
                last_end,
                global_symbol_offset64,
                false,
                0,
            );
            if global_symbol_offset64 != 0 && sym_names32.len() % 2 != 0 {
                out.push(0);
            }
        }
        let ghost t32: Seq<u8> = if global_symbol_offset != 0 {
            crate::symtab::spec_symbol_table_bytes(
                ArchiveKind::AixBig,
                mds,
                sym_names32@,
                128,
                num_syms32 as int,
                last_end as int,
                global_symbol_offset64 as int,
                0,
                false,
            ) + (if global_symbol_offset64 != 0 && sym_names32@.len() % 2 != 0 {
                seq![0u8]
            } else {
                Seq::<u8>::empty()
            })
        } else {
            Seq::<u8>::empty()
        };
        proof {
            assert(out@ =~= after_pad + t32);
        }
        let ghost after_t32 = out@;
        if global_symbol_offset64 != 0 {
            crate::symtab::write_symbol_table(
                out,
                ArchiveKind::AixBig,
                data,
                sym_names64.as_slice(),
                headers_size,
                num_syms64,
                if global_symbol_offset != 0 {
                    global_symbol_offset
                } else {
                    last_end
                },
                0,
                true,
                0,
            );
        }
        let ghost t64: Seq<u8> = if global_symbol_offset64 != 0 {
            crate::symtab::spec_symbol_table_bytes(
                ArchiveKind::AixBig,
                mds,
                sym_names64@,
                128,
                num_syms64 as int,
                (if global_symbol_offset != 0 {
                    global_symbol_offset
                } else {
                    last_end
                }) as int,
                0,
                0,
                true,
            )
        } else {
            Seq::<u8>::empty()
        };
        proof {
            assert(out@ =~= after_t32 + t64);
        }
    proof {
        assert(out@ =~= old(out)@ + (crate::member_header::spec_big_archive_header(
            Seq::empty(),
            0,
            0,
            0,
            0,
            member_table_size as nat,
            lho as nat,
            (if global_symbol_offset != 0 {
                global_symbol_offset as int
            } else {
                global_symbol_offset64 as int
            }) as nat,
        ) + crate::numfmt::spec_dec_field(member_offsets@.len(), 20) + spec_aix_table_offsets(
            ms,
            mds,
            0,
        ) + spec_aix_table_names(ms, 0) + (if member_table_name_str_tbl_size % 2 != 0 {
            seq![0u8]
        } else {
            Seq::<u8>::empty()
        }) + t32 + t64));
    }
}


/// A headers size is at least the magic, the announcing header and the
/// symbol table, so counts and name streams fit beneath it.
proof fn lemma_headers_size_ge(
    kind: ArchiveKind,
    num_members: nat,
    string_member_size: nat,
    num_syms: nat,
    sym_names_size: nat,
    has_map: bool,
    map: Seq<(Seq<u8>, u16)>,
    ec_map: Seq<(Seq<u8>, u16)>,
)
    ensures
        ({
            let offset_size: nat = if spec_is_64bit_kind(kind) {
                8
            } else {
                4
            };
            let hs = spec_headers_size(
                kind,
                num_members,
                string_member_size,
                num_syms,
                sym_names_size,
                has_map,
                map,
                ec_map,
            );
            &&& hs >= 8 + crate::symtab::spec_symbol_table_size(
                kind,
                num_syms,
                offset_size,
                sym_names_size,
            )
            &&& crate::symtab::spec_symbol_table_size(kind, num_syms, offset_size, sym_names_size)
                >= num_syms * offset_size + sym_names_size
            &&& (spec_is_bsd_like(kind) ==> crate::symtab::spec_symbol_table_size(
                kind,
                num_syms,
                offset_size,
                sym_names_size,
            ) >= num_syms * offset_size * 2)
        }),
{
    reveal(spec_headers_size);
    let offset_size: nat = if spec_is_64bit_kind(kind) {
        8
    } else {
        4
    };
    let symtab = crate::symtab::spec_symbol_table_size(kind, num_syms, offset_size, sym_names_size);
    crate::alignment::lemma_align_to_properties(
        (if spec_is_bsd_like(kind) {
            offset_size + num_syms * offset_size * 2 + offset_size + sym_names_size
        } else {
            offset_size + num_syms * offset_size + sym_names_size
        }) as int,
        if spec_is_bsd_like(kind) {
            8
        } else {
            2
        },
    );
    crate::symmap::lemma_entry_bytes_nonneg(map);
    crate::symmap::lemma_entry_bytes_nonneg(ec_map);
    crate::alignment::lemma_align_to_properties(
        (4 + 4 + num_members * 4 + crate::symtab::spec_map_entry_bytes(map)) as int,
        2,
    );
    crate::alignment::lemma_align_to_properties(
        (4 + crate::symtab::spec_map_entry_bytes(ec_map)) as int,
        2,
    );
}

/// Emits everything after the magic of an AIX big archive: the fixed-length
/// header, the member stream, and the trailing member and symbol tables.
#[verifier::rlimit(100)]
#[verifier::spinoff_prover]
fn write_archive_aix_tail(
    out: &mut Vec<u8>,
    new_members: &Vec<NewArchiveMember>,
    data: &Vec<MemberData>,
    thin: bool,
    is_ec: bool,
    num_syms: u64,
    num_syms32: u64,
    last_member_end_offset: u64,
    last_member_header_offset: u64,
    Ghost(ms): Ghost<Seq<MemberView>>,
)
    requires
        ms == new_members@.map_values(|m: NewArchiveMember| m@),
        spec_members_weight(ms) <= INPUT_WEIGHT_CAP,
        forall|j: int|
            0 <= j < new_members@.len() ==> crate::math_extras::is_power_of_2(
                (#[trigger] new_members@[j])@.align as int,
            ),
        ({
            let st = spec_pass(ArchiveKind::AixBig, thin, false, is_ec, ms, ms.len() as int);
            &&& member_datas_view(data@) == st.members
            &&& num_syms == spec_mds_num_syms(st.members)
            &&& num_syms32 == spec_mds_num_syms32(st.members)
            &&& last_member_end_offset == spec_mds_size(st.members)
            &&& last_member_header_offset == (if ms.len() == 0 {
                0int
            } else {
                spec_last_header_offset(st.members)
            })
        }),
        old(out)@ == spec_magic(ArchiveKind::AixBig, thin),
    ensures
        final(out)@ == spec_aix_archive_bytes(thin, is_ec, ms),
        final(out)@.len() >= 8,
        final(out)@.take(8) == spec_magic(ArchiveKind::AixBig, thin),
{
    let ghost st = spec_pass(ArchiveKind::AixBig, thin, false, is_ec, ms, ms.len() as int);
    let ghost mds = member_datas_view(data@);
    proof {
        lemma_pass_bounds(ArchiveKind::AixBig, thin, false, is_ec, ms, ms.len() as int);
        assert(ms.take(ms.len() as int) =~= ms);
        lemma_weight_nonneg(ms);
        lemma_len_le_weight(ms);
        lemma_num_syms32_take(mds, 0);
        crate::symtab::lemma_mds_size_take(mds, 0);
        lemma_num_syms32_take_full(mds);
        if data@.len() > 0 {
            crate::symtab::lemma_mds_size_take(mds, 0);
            crate::symtab::lemma_mds_size_take(mds, 1);
            assert(mds.take(1) =~= mds.take(0).push(mds[0]));
            lemma_mds_size_snoc(mds.take(0), mds[0]);
            assert(spec_md_size(mds[0]) <= spec_mds_size(mds)) by {
                crate::symtab::lemma_mds_size_take(mds, 1);
            }
        }
    }
    let headers_size: u64 = AIX_FIX_LEN_HDR_SIZE;
    let last_end = last_member_end_offset + headers_size;
    let lho = last_member_header_offset + headers_size;
    // Member table: count, offsets and names of every member.
    let (member_table_name_str_tbl_size, member_offsets) = aix_member_table_offsets(
        new_members,
        data,
        Ghost(ms),
        Ghost(st),
        Ghost(thin),
        Ghost(is_ec),
    );
    let member_table_size: u64 = 20 + 20 * (member_offsets.len() as u64)
        + member_table_name_str_tbl_size;
    // Regenerate the symbol-name streams per width.
    let (sym_names32, sym_names64) = collect_aix_name_streams(
        data,
        Ghost(ms),
        Ghost(st),
        Ghost(thin),
        Ghost(is_ec),
    );
    let member_table_end_offset = last_end + crate::alignment::align_to(
        BIG_AR_MEM_HDR_SIZE + 2 + member_table_size,
        2,
    );
    let global_symbol_offset: u64 = if num_syms32 > 0 {
        member_table_end_offset
    } else {
        0
    };
    let num_syms64 = num_syms - num_syms32;
    let mut global_symbol_offset64: u64 = 0;
    if num_syms64 > 0 {
        if global_symbol_offset == 0 {
            global_symbol_offset64 = member_table_end_offset;
        } else {
            global_symbol_offset64 = global_symbol_offset + BIG_AR_MEM_HDR_SIZE + 2 + (num_syms32
                + 1) * 8 + crate::alignment::align_to(sym_names32.len() as u64, 2);
        }
    }
    let ghost expected: Seq<u8> = ({
        let n = ms.len() as int;
        let s_last_end = 128 + spec_mds_size(mds);
        let s_lho = 128 + spec_last_header_offset(mds);
        let mts = 20 + 20 * n + spec_aix_table_names_size(ms, 0);
        let names32 = spec_aix_names(mds, 0, false);
        let names64 = spec_aix_names(mds, 0, true);
        let ns = spec_mds_num_syms(mds);
        let ns32 = spec_mds_num_syms32(mds);
        let ns64 = ns - ns32;
        let mte = s_last_end + spec_align_to(BIG_AR_MEM_HDR_SIZE + 2 + mts, 2);
        let gso: int = if ns32 > 0 {
            mte
        } else {
            0
        };
        let gso64: int = if ns64 > 0 {
            if gso == 0 {
                mte
            } else {
                gso + BIG_AR_MEM_HDR_SIZE + 2 + (ns32 + 1) * 8 + spec_align_to(
                    names32.len() as int,
                    2,
                )
            }
        } else {
            0
        };
        spec_magic(ArchiveKind::AixBig, thin) + crate::numfmt::spec_dec_field(
            (if n > 0 {
                s_last_end
            } else {
                0
            }) as nat,
            20,
        ) + crate::numfmt::spec_dec_field(gso as nat, 20) + crate::numfmt::spec_dec_field(
            gso64 as nat,
            20,
        ) + crate::numfmt::spec_dec_field(
            (if n > 0 {
                128 + mds[0].pre_head_pad_size as int
            } else {
                0
            }) as nat,
            20,
        ) + crate::numfmt::spec_dec_field(
            (if n > 0 {
                s_lho
            } else {
                0
            }) as nat,
            20,
        ) + crate::numfmt::spec_dec_field(0, 20) + spec_aix_member_stream(mds, 0) + (if n > 0 {
            crate::member_header::spec_big_archive_header(
                Seq::empty(),
                0,
                0,
                0,
                0,
                mts as nat,
                s_lho as nat,
                (if gso != 0 {
                    gso
                } else {
                    gso64
                }) as nat,
            ) + crate::numfmt::spec_dec_field(n as nat, 20) + spec_aix_table_offsets(ms, mds, 0)
                + spec_aix_table_names(ms, 0) + (if spec_aix_table_names_size(ms, 0) % 2 != 0 {
                seq![0u8]
            } else {
                Seq::<u8>::empty()
            }) + (if gso != 0 {
                crate::symtab::spec_symbol_table_bytes(
                    ArchiveKind::AixBig,
                    mds,
                    names32,
                    128,
                    ns32,
                    s_last_end,
                    gso64,
                    0,
                    false,
                ) + (if gso64 != 0 && names32.len() % 2 != 0 {
                    seq![0u8]
                } else {
                    Seq::<u8>::empty()
                })
            } else {
                Seq::<u8>::empty()
            }) + (if gso64 != 0 {
                crate::symtab::spec_symbol_table_bytes(
                    ArchiveKind::AixBig,
                    mds,
                    names64,
                    128,
                    ns64,
                    if gso != 0 {
                        gso
                    } else {
                        s_last_end
                    },
                    0,
                    0,
                    true,
                )
            } else {
                Seq::<u8>::empty()
            })
        } else {
            Seq::<u8>::empty()
        })
    });
    proof {
        assert(last_end == 128 + spec_mds_size(mds));
        assert(member_table_size == 20 + 20 * (ms.len() as int) + spec_aix_table_names_size(
            ms,
            0,
        ));
        assert(sym_names32@ == spec_aix_names(mds, 0, false));
        assert(sym_names64@ == spec_aix_names(mds, 0, true));
        assert(num_syms as int - num_syms32 as int == spec_mds_num_syms(mds)
            - spec_mds_num_syms32(mds));
        assert(member_table_end_offset as int == 128 + spec_mds_size(mds) + spec_align_to(
            BIG_AR_MEM_HDR_SIZE + 2 + (20 + 20 * (ms.len() as int) + spec_aix_table_names_size(
                ms,
                0,
            )),
            2,
        ));
    }
    // The fixed-length header's six offset fields.
    crate::numfmt::push_dec_field(
        out,
        if new_members.len() > 0 {
            last_end
        } else {
            0
        },
        20,
    );
    crate::numfmt::push_dec_field(out, global_symbol_offset, 20);
    crate::numfmt::push_dec_field(out, global_symbol_offset64, 20);
    crate::numfmt::push_dec_field(
        out,
        if new_members.len() > 0 {
            headers_size + data[0].pre_head_pad_size
        } else {
            0
        },
        20,
    );
    crate::numfmt::push_dec_field(
        out,
        if new_members.len() > 0 {
            lho
        } else {
            0
        },
        20,
    );
    crate::numfmt::push_dec_field(out, 0, 20);
    write_members_aix(out, data);
    if new_members.len() > 0 {
        write_aix_trailers(
            out,
            new_members,
            data,
            &sym_names32,
            &sym_names64,
            &member_offsets,
            member_table_size,
            member_table_name_str_tbl_size,
            last_end,
            lho,
            global_symbol_offset,
            global_symbol_offset64,
            num_syms32,
            num_syms64,
            Ghost(ms),
            Ghost(st),
            Ghost(thin),
            Ghost(is_ec),
        );
        proof {
            assert(out@ =~= expected);
        }
    } else {
        proof {
            assert(out@ =~= expected);
        }
    }
    proof {
        lemma_aix_assembly(thin, is_ec, ms, out@);
    }
}


/// The 32-bit symbol count never exceeds the full count.
proof fn lemma_num_syms32_take_full(mds: Seq<MemberDataView>)
    ensures
        0 <= spec_mds_num_syms32(mds) <= spec_mds_num_syms(mds),
    decreases mds.len(),
{
    if mds.len() > 0 {
        lemma_num_syms32_take_full(mds.drop_first());
    }
}


/// Computes the AIX member table: the total length of its NUL-terminated
/// name list, and each member's header offset.
#[verifier::rlimit(100)]
#[verifier::spinoff_prover]
fn aix_member_table_offsets(
    new_members: &Vec<NewArchiveMember>,
    data: &Vec<MemberData>,
    Ghost(ms): Ghost<Seq<MemberView>>,
    Ghost(st): Ghost<PassState>,
    Ghost(thin): Ghost<bool>,
    Ghost(is_ec): Ghost<bool>,
) -> (r: (u64, Vec<u64>))
    requires
        ms == new_members@.map_values(|m: NewArchiveMember| m@),
        spec_members_weight(ms) <= INPUT_WEIGHT_CAP,
        st == spec_pass(ArchiveKind::AixBig, thin, false, is_ec, ms, ms.len() as int),
        member_datas_view(data@) == st.members,
        spec_pass_bounded(ArchiveKind::AixBig, ms, ms.len() as int, st),
    ensures
        r.1@.len() == ms.len(),
        r.0 <= INPUT_WEIGHT_CAP,
        r.0 == spec_aix_table_names_size(ms, 0),
        forall|k: int|
            0 <= k < ms.len() ==> #[trigger] r.1@[k] == spec_aix_member_end(
                ms,
                member_datas_view(data@),
                k,
            ) + member_datas_view(data@)[k].pre_head_pad_size,
{
    let ghost mds = member_datas_view(data@);
    proof {
        lemma_len_le_weight(ms);
        lemma_aix_table_names_size(ms, 0);
    }
    let mut member_table_name_str_tbl_size: u64 = 0;
    let mut member_offsets: Vec<u64> = Vec::new();
    let mut member_end_offset: u64 = AIX_FIX_LEN_HDR_SIZE;
    let mut i: usize = 0;
    while i < new_members.len()
        invariant
            ms == new_members@.map_values(|m: NewArchiveMember| m@),
            mds == member_datas_view(data@),
            mds == st.members,
            spec_pass_bounded(ArchiveKind::AixBig, ms, ms.len() as int, st),
            spec_members_weight(ms) <= INPUT_WEIGHT_CAP,
            ms.len() == new_members@.len(),
            data@.len() == ms.len(),
            i <= ms.len(),
            member_table_name_str_tbl_size <= spec_members_weight(ms.take(i as int)),
            member_table_name_str_tbl_size + spec_aix_table_names_size(ms, i as int)
                == spec_aix_table_names_size(ms, 0),
            member_end_offset <= 128 + spec_mds_size(mds.take(i as int)) + spec_members_weight(
                ms.take(i as int),
            ),
            member_end_offset == spec_aix_member_end(ms, mds, i as int),
            member_offsets@.len() == i,
            forall|k: int|
                0 <= k < i ==> #[trigger] member_offsets@[k] == spec_aix_member_end(ms, mds, k)
                    + mds[k].pre_head_pad_size,
        decreases ms.len() - i,
    {
        proof {
            lemma_weight_take_snoc(ms, i as int);
            lemma_weight_take_le(ms, i as int);
            lemma_weight_take_le(ms, i as int + 1);
            lemma_weight_nonneg(ms.take(i as int));
            lemma_weight_nonneg(ms.take(i as int + 1));
            lemma_symbols_weight_nonneg(ms[i as int].symbols);
            assert(spec_member_weight(ms[i as int]) <= INPUT_WEIGHT_CAP);
            crate::symtab::lemma_mds_size_take(mds, i as int);
            crate::symtab::lemma_mds_size_take(mds, i as int + 1);
            assert(mds.take(i as int + 1) =~= mds.take(i as int).push(mds[i as int]));
            lemma_mds_size_snoc(mds.take(i as int), mds[i as int]);
            assert(spec_mds_size(mds.take(i as int + 1)) <= spec_mds_size(mds)) by {
                crate::symtab::lemma_mds_size_take(mds, i as int + 1);
            }
            assert(spec_mds_size(mds) <= 256 + INPUT_WEIGHT_CAP) by {
                assert(ms.take(ms.len() as int) =~= ms);
            }
            lemma_aix_table_names_size(ms, i as int + 1);
        }
        let member = &new_members[i];
        let name_bytes: &[u8] = member.member_name.as_str().as_bytes();
        proof {
            assert(name_bytes@ == ms[i as int].name);
            crate::alignment::lemma_align_to_properties(ms[i as int].name.len() as int, 2);
            crate::alignment::lemma_align_to_properties(mds[i as int].data.len() as int, 2);
            assert(mds[i as int].data.len() <= crate::symtab::spec_md_parts(mds[i as int]));
        }
        member_table_name_str_tbl_size = member_table_name_str_tbl_size + name_bytes.len() as u64
            + 1;
        member_end_offset = member_end_offset + data[i].pre_head_pad_size;
        member_offsets.push(member_end_offset);
        member_end_offset = member_end_offset + BIG_AR_MEM_HDR_SIZE + 2
            + crate::alignment::align_to(data[i].data.len() as u64, 2)
            + crate::alignment::align_to(name_bytes.len() as u64, 2);
        i += 1;
    }
    proof {
        lemma_weight_take_le(ms, ms.len() as int);
        assert(ms.take(ms.len() as int) =~= ms);
    }
    (member_table_name_str_tbl_size, member_offsets)
}


/// Concatenated names never outweigh the symbol list.
proof fn lemma_names_concat_le_weight(names: Seq<Seq<u8>>)
    ensures
        spec_names_concat(names, 0).len() <= spec_symbols_weight(names),
    decreases names.len(),
{
    lemma_names_concat_le_weight_from(names, 0);
    assert(names.skip(0) =~= names);
}

/// Concatenated names from `k` on never outweigh the remaining symbols.
proof fn lemma_names_concat_le_weight_from(names: Seq<Seq<u8>>, k: int)
    requires
        0 <= k <= names.len(),
    ensures
        spec_names_concat(names, k).len() <= spec_symbols_weight(names.skip(k)),
    decreases names.len() - k,
{
    lemma_symbols_weight_nonneg(names.skip(k));
    if k < names.len() {
        lemma_names_concat_le_weight_from(names, k + 1);
        assert(names.skip(k)[0] == names[k]);
        assert(names.skip(k).drop_first() =~= names.skip(k + 1));
    } else {
        assert(names.skip(k) =~= Seq::<Seq<u8>>::empty());
    }
}

/// Appends each symbol name, NUL-terminated.
fn append_symbol_names(out: &mut Vec<u8>, names: &Vec<Vec<u8>>)
    ensures
        final(out)@ == old(out)@ + spec_names_concat(
            names@.map_values(|s: Vec<u8>| s@),
            0,
        ),
{
    let ghost ns = names@.map_values(|s: Vec<u8>| s@);
    let mut i: usize = 0;
    while i < names.len()
        invariant
            ns == names@.map_values(|s: Vec<u8>| s@),
            i <= names@.len(),
            out@ + spec_names_concat(ns, i as int) == old(out)@ + spec_names_concat(ns, 0),
        decreases names@.len() - i,
    {
        out.extend_from_slice(names[i].as_slice());
        out.push(0);
        proof {
            assert(out@ + spec_names_concat(ns, i as int + 1) =~= old(out)@ + spec_names_concat(
                ns,
                0,
            ));
        }
        i += 1;
    }
    proof {
        assert(out@ =~= out@ + spec_names_concat(ns, names@.len() as int));
    }
}

/// Collection grows each map's entry bytes by at most the symbols' weight.
proof fn lemma_collect_entry_bytes(
    st: SymState,
    symbols: Seq<Seq<u8>>,
    index: u16,
    route: crate::symtab::SymRoute,
)
    ensures
        crate::symtab::spec_map_entry_bytes(spec_collect(st, symbols, index, route).0.map)
            <= crate::symtab::spec_map_entry_bytes(st.map) + spec_symbols_weight(symbols),
        crate::symtab::spec_map_entry_bytes(spec_collect(st, symbols, index, route).0.ec_map)
            <= crate::symtab::spec_map_entry_bytes(st.ec_map) + spec_symbols_weight(symbols),
    decreases symbols.len(),
{
    lemma_symbols_weight_nonneg(symbols);
    crate::symmap::lemma_entry_bytes_nonneg(st.map);
    crate::symmap::lemma_entry_bytes_nonneg(st.ec_map);
    if symbols.len() > 0 {
        let (st1, o1) = crate::symtab::spec_collect_one(st, symbols[0], index, route);
        lemma_collect_entry_bytes(st1, symbols.drop_first(), index, route);
        lemma_symbols_weight_nonneg(symbols.drop_first());
        crate::symmap::lemma_insert_keep_entry_bytes(st.map, symbols[0], index);
        crate::symmap::lemma_insert_keep_entry_bytes(st.ec_map, symbols[0], index);
        crate::symmap::lemma_set_entry_bytes(st.ec_map, symbols[0], index);
    }
}

/// The pass keeps both maps' entry bytes within the input weight.
#[verifier::rlimit(100)]
#[verifier::spinoff_prover]
pub proof fn lemma_pass_map_bytes(
    kind: ArchiveKind,
    thin: bool,
    has_map: bool,
    use_ec: bool,
    ms: Seq<MemberView>,
    i: int,
)
    requires
        0 <= i <= ms.len(),
        spec_members_weight(ms) <= INPUT_WEIGHT_CAP,
    ensures
        ({
            let st = spec_pass(kind, thin, has_map, use_ec, ms, i);
            crate::symtab::spec_map_entry_bytes(st.sym.map) <= spec_members_weight(ms.take(i))
                && crate::symtab::spec_map_entry_bytes(st.sym.ec_map) <= spec_members_weight(
                ms.take(i),
            )
        }),
    decreases i,
{
    if i == 0 {
        assert(ms.take(0) =~= Seq::<MemberView>::empty());
    } else {
        lemma_pass_map_bytes(kind, thin, has_map, use_ec, ms, i - 1);
        lemma_weight_take_snoc(ms, i - 1);
        let st = spec_pass(kind, thin, has_map, use_ec, ms, i - 1);
        let st1 = spec_pass(kind, thin, has_map, use_ec, ms, i);
        let m = ms[i - 1];
        let route = spec_route(has_map, use_ec, m.is_ec);
        lemma_collect_entry_bytes(st.sym, m.symbols, i as u16, route);
        lemma_symbols_weight_nonneg(m.symbols);
        assert(st1.sym == spec_collect(st.sym, m.symbols, i as u16, route).0) by {
            reveal(spec_pass_step);
        }
    }
}

/// A COFF request with more members than the sixteen-bit symbol map can
/// index is silently emitted as a GNU archive; every other request keeps its
/// variant at this stage.
pub proof fn lemma_coff_member_cap(kind: ArchiveKind, n: int)
    ensures
        kind == ArchiveKind::Coff && n > 0xfffe ==> spec_effective_kind(kind, n)
            == ArchiveKind::Gnu,
        !(kind == ArchiveKind::Coff && n > 0xfffe) ==> spec_effective_kind(kind, n) == kind,
{
}

/// The 64-bit promotion rule: when the last member header of a 32-bit layout
/// would start at or beyond four gigabytes, Darwin grows to Darwin64 and
/// every other 32-bit variant to GNU64; 64-bit layouts never promote, and
/// in-range archives keep their variant.
pub proof fn lemma_promotion_rule(kind: ArchiveKind, thin: bool, is_ec: bool, ms: Seq<MemberView>)
    ensures
        ({
            let kind0 = spec_effective_kind(kind, ms.len() as int);
            &&& (spec_needs_promotion(kind0, thin, is_ec, ms) && kind0 == ArchiveKind::Darwin
                ==> spec_final_kind(kind, thin, is_ec, ms) == ArchiveKind::Darwin64)
            &&& (spec_needs_promotion(kind0, thin, is_ec, ms) && kind0 != ArchiveKind::Darwin
                ==> spec_final_kind(kind, thin, is_ec, ms) == ArchiveKind::Gnu64)
            &&& (!spec_needs_promotion(kind0, thin, is_ec, ms) ==> spec_final_kind(
                kind,
                thin,
                is_ec,
                ms,
            ) == kind0)
            &&& (spec_is_64bit_kind(kind0) ==> !spec_needs_promotion(kind0, thin, is_ec, ms))
        }),
{
    reveal(spec_needs_promotion);
}

/// Darwin unique timestamps: a member whose name is shared receives its
/// ordinal among the members of that name, starting at zero and rising by
/// one in input order; a member of a unique name keeps its given mtime.
pub proof fn lemma_darwin_unique_timestamps(kind: ArchiveKind, ms: Seq<MemberView>, i: int)
    requires
        spec_is_darwin(kind),
        ms.len() <= u64::MAX,
        0 <= i < ms.len(),
    ensures
        spec_count_name_upto(ms, ms[i].name, ms.len() as int) > 1 ==> spec_member_mtime(
            kind,
            ms,
            i,
        ) == spec_count_name_upto(ms, ms[i].name, i),
        spec_count_name_upto(ms, ms[i].name, ms.len() as int) <= 1 ==> spec_member_mtime(
            kind,
            ms,
            i,
        ) == ms[i].mtime,
{
    lemma_count_name_bounds(ms, ms[i].name, i);
    lemma_count_name_bounds(ms, ms[i].name, ms.len() as int);
}

/// Name-table deduplication: when every member bears the same long name, the
/// string table holds exactly one copy of it, entered by the first member
/// and referenced by all.
pub proof fn lemma_name_table_dedup(
    kind: ArchiveKind,
    ms: Seq<MemberView>,
    name: Seq<u8>,
    i: int,
)
    requires
        spec_kind_uses_strtab(kind),
        spec_use_string_table(false, name),
        forall|j: int| 0 <= j < ms.len() ==> (#[trigger] ms[j]).name == name,
        1 <= i <= ms.len(),
    ensures
        spec_strtab_upto(kind, false, ms, i) == spec_strtab_entry(kind, name),
        spec_member_names_list(kind, false, ms, i) == seq![(name, 0u64)],
        spec_name_pos(kind, false, ms, i - 1) == 0,
    decreases i,
{
    if i == 1 {
        assert(spec_member_names_list(kind, false, ms, 0) =~= Seq::<(Seq<u8>, u64)>::empty());
        assert(spec_strtab_upto(kind, false, ms, 0) =~= Seq::<u8>::empty());
        assert(spec_strtab_upto(kind, false, ms, 1) =~= spec_strtab_entry(kind, name));
        assert(spec_member_names_list(kind, false, ms, 1) =~= seq![(name, 0u64)]);
    } else {
        lemma_name_table_dedup(kind, ms, name, i - 1);
        assert(spec_assoc_lookup(seq![(name, 0u64)], name) == Some(0u64));
        assert(spec_strtab_upto(kind, false, ms, i) == spec_strtab_upto(kind, false, ms, i - 1));
        assert(spec_member_names_list(kind, false, ms, i) == spec_member_names_list(
            kind,
            false,
            ms,
            i - 1,
        ));
    }
}

/// The archive offset of member `i`'s bytes within the member stream.
pub open spec fn spec_member_offset_in_stream(mds: Seq<MemberDataView>, i: int) -> int {
    crate::symtab::spec_mds_parts_sum(mds.take(i))
}

/// Round trip of member payloads: within the member stream of a non-AIX
/// archive, each member's payload appears unchanged, immediately after its
/// header, so a reader that walks the headers recovers the input bytes.
pub proof fn lemma_member_payloads_in_stream(mds: Seq<MemberDataView>, i: int)
    requires
        0 <= i < mds.len(),
    ensures
        ({
            let off = spec_member_offset_in_stream(mds, i) + mds[i].header.len();
            spec_members_stream(mds, 0).subrange(off, off + mds[i].data.len()) == mds[i].data
        }),
{
    lemma_payload_in_stream_from(mds, 0, i);
    assert(mds.take(0) =~= Seq::<MemberDataView>::empty());
}

/// The stream from member `k` on holds member `i`'s payload after its
/// header, at the parts offset accumulated between `k` and `i`.
proof fn lemma_payload_in_stream_from(mds: Seq<MemberDataView>, k: int, i: int)
    requires
        0 <= k <= i < mds.len(),
    ensures
        ({
            let off = crate::symtab::spec_mds_parts_sum(mds.take(i))
                - crate::symtab::spec_mds_parts_sum(mds.take(k)) + mds[i].header.len();
            spec_members_stream(mds, k).subrange(off, off + mds[i].data.len()) == mds[i].data
        }),
    decreases i - k,
{
    lemma_stream_len_from(mds, k);
    lemma_stream_len_from(mds, k + 1);
    crate::symtab::lemma_mds_size_take(mds, k);
    assert(mds.take(k + 1) =~= mds.take(k).push(mds[k]));
    crate::symtab::lemma_mds_parts_snoc_pub(mds.take(k), mds[k]);
    if k == i {
        assert(spec_members_stream(mds, k).subrange(
            mds[i].header.len() as int,
            mds[i].header.len() + mds[i].data.len() as int,
        ) =~= mds[i].data);
    } else {
        lemma_payload_in_stream_from(mds, k + 1, i);
        let off1 = crate::symtab::spec_mds_parts_sum(mds.take(i))
            - crate::symtab::spec_mds_parts_sum(mds.take(k + 1)) + mds[i].header.len();
        let off = crate::symtab::spec_mds_parts_sum(mds.take(i))
            - crate::symtab::spec_mds_parts_sum(mds.take(k)) + mds[i].header.len();
        lemma_parts_sum_mono(mds, k + 1, i);
        lemma_parts_sum_mono(mds, i + 1, mds.len() as int);
        assert(mds.take(i + 1) =~= mds.take(i).push(mds[i]));
        crate::symtab::lemma_mds_parts_snoc_pub(mds.take(i), mds[i]);
        assert(mds.take(mds.len() as int) =~= mds);
        lemma_stream_len_from(mds, i);
        assert(spec_members_stream(mds, k).subrange(off, off + mds[i].data.len())
            =~= spec_members_stream(mds, k + 1).subrange(off1, off1 + mds[i].data.len()));
    }
}

/// The stream from `k` on is exactly as long as the remaining parts.
proof fn lemma_stream_len_from(mds: Seq<MemberDataView>, k: int)
    requires
        0 <= k <= mds.len(),
    ensures
        spec_members_stream(mds, k).len() == crate::symtab::spec_mds_parts_sum(mds)
            - crate::symtab::spec_mds_parts_sum(mds.take(k)),
    decreases mds.len() - k,
{
    if k == mds.len() {
        assert(mds.take(k) =~= mds);
    } else {
        lemma_stream_len_from(mds, k + 1);
        assert(mds.take(k + 1) =~= mds.take(k).push(mds[k]));
        crate::symtab::lemma_mds_parts_snoc_pub(mds.take(k), mds[k]);
    }
}

/// Parts sums grow with the prefix.
proof fn lemma_parts_sum_mono(mds: Seq<MemberDataView>, a: int, b: int)
    requires
        0 <= a <= b <= mds.len(),
    ensures
        crate::symtab::spec_mds_parts_sum(mds.take(a)) <= crate::symtab::spec_mds_parts_sum(
            mds.take(b),
        ),
    decreases b - a,
{
    if a < b {
        lemma_parts_sum_mono(mds, a + 1, b);
        assert(mds.take(a + 1) =~= mds.take(a).push(mds[a]));
        crate::symtab::lemma_mds_parts_snoc_pub(mds.take(a), mds[a]);
    }
}

/// The total number of symbols across the members.
pub open spec fn spec_total_symbols(ms: Seq<MemberView>) -> int
    decreases ms.len(),
{
    if ms.len() == 0 {
        0
    } else {
        ms[0].symbols.len() + spec_total_symbols(ms.drop_first())
    }
}

/// Every member weighs at least its base cost, so the member count is
/// bounded by the weight.
pub proof fn lemma_len_le_weight(ms: Seq<MemberView>)
    ensures
        512 * ms.len() <= spec_members_weight(ms),
    decreases ms.len(),
{
    if ms.len() > 0 {
        lemma_len_le_weight(ms.drop_first());
        lemma_symbols_weight_nonneg(ms[0].symbols);
    }
}

/// Total-symbol partial sums, take-style.
proof fn lemma_total_symbols_take(ms: Seq<MemberView>, i: int)
    requires
        0 <= i <= ms.len(),
    ensures
        0 <= spec_total_symbols(ms.take(i)) <= spec_total_symbols(ms),
        i < ms.len() ==> spec_total_symbols(ms.take(i + 1)) == spec_total_symbols(ms.take(i))
            + ms[i].symbols.len(),
    decreases ms.len() - i,
{
    lemma_total_symbols_nonneg(ms.take(i));
    if i < ms.len() {
        assert(ms.take(i + 1) =~= ms.take(i).push(ms[i]));
        lemma_total_symbols_snoc(ms.take(i), ms[i]);
        lemma_total_symbols_take(ms, i + 1);
    } else {
        assert(ms.take(i) =~= ms);
    }
}

/// Total-symbol sums split off their last member.
proof fn lemma_total_symbols_snoc(ms: Seq<MemberView>, m: MemberView)
    ensures
        spec_total_symbols(ms.push(m)) == spec_total_symbols(ms) + m.symbols.len(),
    decreases ms.len(),
{
    reveal_with_fuel(spec_total_symbols, 3);
    if ms.len() == 0 {
        assert(ms.push(m).drop_first() =~= Seq::<MemberView>::empty());
        assert(ms.push(m)[0] == m);
    } else {
        lemma_total_symbols_snoc(ms.drop_first(), m);
        assert(ms.push(m).drop_first() =~= ms.drop_first().push(m));
        assert(ms.push(m)[0] == ms[0]);
    }
}

/// Total-symbol sums are nonnegative.
proof fn lemma_total_symbols_nonneg(ms: Seq<MemberView>)
    ensures
        spec_total_symbols(ms) >= 0,
    decreases ms.len(),
{
    if ms.len() > 0 {
        lemma_total_symbols_nonneg(ms.drop_first());
    }
}

/// One collection step grows each map by at most the symbols collected.
proof fn lemma_collect_map_len(
    st: SymState,
    symbols: Seq<Seq<u8>>,
    index: u16,
    route: crate::symtab::SymRoute,
)
    ensures
        spec_collect(st, symbols, index, route).0.map.len() <= st.map.len() + symbols.len(),
        spec_collect(st, symbols, index, route).0.ec_map.len() <= st.ec_map.len() + symbols.len(),
    decreases symbols.len(),
{
    if symbols.len() > 0 {
        let (st1, o1) = crate::symtab::spec_collect_one(st, symbols[0], index, route);
        lemma_collect_map_len(st1, symbols.drop_first(), index, route);
        crate::symmap::lemma_insert_keep_len(st.map, symbols[0], index);
        crate::symmap::lemma_insert_keep_len(st.ec_map, symbols[0], index);
        crate::symmap::lemma_set_len(st.ec_map, symbols[0], index);
    }
}

/// The pass keeps both maps no larger than the total symbol count.
#[verifier::rlimit(100)]
#[verifier::spinoff_prover]
pub proof fn lemma_pass_map_len(
    kind: ArchiveKind,
    thin: bool,
    has_map: bool,
    use_ec: bool,
    ms: Seq<MemberView>,
    i: int,
)
    requires
        0 <= i <= ms.len(),
    ensures
        ({
            let st = spec_pass(kind, thin, has_map, use_ec, ms, i);
            st.sym.map.len() <= spec_total_symbols(ms.take(i)) && st.sym.ec_map.len()
                <= spec_total_symbols(ms.take(i))
        }),
    decreases i,
{
    if i == 0 {
        assert(ms.take(0) =~= Seq::<MemberView>::empty());
    } else {
        lemma_pass_map_len(kind, thin, has_map, use_ec, ms, i - 1);
        lemma_total_symbols_take(ms, i - 1);
        let st = spec_pass(kind, thin, has_map, use_ec, ms, i - 1);
        let st1 = spec_pass(kind, thin, has_map, use_ec, ms, i);
        let m = ms[i - 1];
        let route = spec_route(has_map, use_ec, m.is_ec);
        lemma_collect_map_len(st.sym, m.symbols, i as u16, route);
        assert(st1.sym == spec_collect(st.sym, m.symbols, i as u16, route).0) by {
            reveal(spec_pass_step);
        }
    }
}

/// Without a symbol map the pass leaves both maps empty.
pub proof fn lemma_pass_no_map(
    kind: ArchiveKind,
    thin: bool,
    use_ec: bool,
    ms: Seq<MemberView>,
    i: int,
)
    requires
        0 <= i <= ms.len(),
    ensures
        spec_pass(kind, thin, false, use_ec, ms, i).sym.map == Seq::<(Seq<u8>, u16)>::empty(),
        spec_pass(kind, thin, false, use_ec, ms, i).sym.ec_map == Seq::<(Seq<u8>, u16)>::empty(),
    decreases i,
{
    if i > 0 {
        lemma_pass_no_map(kind, thin, use_ec, ms, i - 1);
        let st = spec_pass(kind, thin, false, use_ec, ms, i - 1);
        let m = ms[i - 1];
        lemma_collect_no_map(st.sym, m.symbols, i as u16);
        assert(spec_pass(kind, thin, false, use_ec, ms, i).sym == spec_collect(
            st.sym,
            m.symbols,
            i as u16,
            crate::symtab::SymRoute::NoMap,
        ).0) by {
            reveal(spec_pass_step);
        }
    }
}

/// Map-less collection leaves the maps untouched.
proof fn lemma_collect_no_map(st: SymState, symbols: Seq<Seq<u8>>, index: u16)
    ensures
        spec_collect(st, symbols, index, crate::symtab::SymRoute::NoMap).0.map == st.map,
        spec_collect(st, symbols, index, crate::symtab::SymRoute::NoMap).0.ec_map == st.ec_map,
    decreases symbols.len(),
{
    if symbols.len() > 0 {
        let (st1, o1) = crate::symtab::spec_collect_one(
            st,
            symbols[0],
            index,
            crate::symtab::SymRoute::NoMap,
        );
        lemma_collect_no_map(st1, symbols.drop_first(), index);
    }
}

/// The symbol-name stream regenerated for one width of AIX members, from
/// member `k` on.
pub open spec fn spec_aix_names(mds: Seq<MemberDataView>, k: int, want64: bool) -> Seq<u8>
    decreases mds.len() - k
        when 0 <= k <= mds.len()
{
    if k >= mds.len() {
        Seq::empty()
    } else {
        (if mds[k].is_64 == want64 {
            spec_names_concat(mds[k].symbol_names, 0)
        } else {
            Seq::<u8>::empty()
        }) + spec_aix_names(mds, k + 1, want64)
    }
}

/// The AIX member table's name list from member `k` on: each member name,
/// NUL-terminated.
pub open spec fn spec_aix_table_names(ms: Seq<MemberView>, k: int) -> Seq<u8>
    decreases ms.len() - k
        when 0 <= k <= ms.len()
{
    if k >= ms.len() {
        Seq::empty()
    } else {
        ms[k].name + seq![0u8] + spec_aix_table_names(ms, k + 1)
    }
}

/// The total length of the AIX member table's name list from `k` on.
pub open spec fn spec_aix_table_names_size(ms: Seq<MemberView>, k: int) -> int
    decreases ms.len() - k
        when 0 <= k <= ms.len()
{
    if k >= ms.len() {
        0
    } else {
        ms[k].name.len() + 1 + spec_aix_table_names_size(ms, k + 1)
    }
}

/// The name list's length is its size and never negative.
pub proof fn lemma_aix_table_names_size(ms: Seq<MemberView>, k: int)
    requires
        0 <= k <= ms.len(),
    ensures
        spec_aix_table_names_size(ms, k) >= 0,
        spec_aix_table_names(ms, k).len() == spec_aix_table_names_size(ms, k),
    decreases ms.len() - k,
{
    if k < ms.len() {
        lemma_aix_table_names_size(ms, k + 1);
    }
}

/// The archive offset at which AIX member `k`'s bytes (leading pad included)
/// begin: the fixed-length header plus all earlier members.
pub open spec fn spec_aix_member_end(ms: Seq<MemberView>, mds: Seq<MemberDataView>, k: int) -> int
    decreases k
        when 0 <= k <= ms.len() && ms.len() == mds.len()
{
    if k <= 0 {
        128
    } else {
        spec_aix_member_end(ms, mds, k - 1) + mds[k - 1].pre_head_pad_size + BIG_AR_MEM_HDR_SIZE
            + 2 + spec_align_to(mds[k - 1].data.len() as int, 2) + spec_align_to(
            ms[k - 1].name.len() as int,
            2,
        )
    }
}

/// The member-offset fields of the AIX member table, from member `k` on,
/// each twenty bytes: the member's header offset, past its leading pad.
pub open spec fn spec_aix_table_offsets(
    ms: Seq<MemberView>,
    mds: Seq<MemberDataView>,
    k: int,
) -> Seq<u8>
    decreases ms.len() - k
        when 0 <= k <= ms.len() && ms.len() == mds.len()
{
    if k >= ms.len() {
        Seq::empty()
    } else {
        crate::numfmt::spec_dec_field(
            (spec_aix_member_end(ms, mds, k) + mds[k].pre_head_pad_size) as nat,
            20,
        ) + spec_aix_table_offsets(ms, mds, k + 1)
    }
}

/// The whole archive, byte for byte, for the AIX big layout.
#[verifier::opaque]
pub open spec fn spec_aix_archive_bytes(thin: bool, is_ec: bool, ms: Seq<MemberView>) -> Seq<u8> {
    let st = spec_pass(ArchiveKind::AixBig, thin, false, is_ec, ms, ms.len() as int);
    let mds = st.members;
    let n = ms.len() as int;
    let last_end = 128 + spec_mds_size(mds);
    let lho = 128 + spec_last_header_offset(mds);
    let mts = 20 + 20 * n + spec_aix_table_names_size(ms, 0);
    let names32 = spec_aix_names(mds, 0, false);
    let names64 = spec_aix_names(mds, 0, true);
    let ns = spec_mds_num_syms(mds);
    let ns32 = spec_mds_num_syms32(mds);
    let ns64 = ns - ns32;
    let mte = last_end + spec_align_to(BIG_AR_MEM_HDR_SIZE + 2 + mts, 2);
    let gso: int = if ns32 > 0 {
        mte
    } else {
        0
    };
    let gso64: int = if ns64 > 0 {
        if gso == 0 {
            mte
        } else {
            gso + BIG_AR_MEM_HDR_SIZE + 2 + (ns32 + 1) * 8 + spec_align_to(
                names32.len() as int,
                2,
            )
        }
    } else {
        0
    };
    spec_magic(ArchiveKind::AixBig, thin) + crate::numfmt::spec_dec_field(
        (if n > 0 {
            last_end
        } else {
            0
        }) as nat,
        20,
    ) + crate::numfmt::spec_dec_field(gso as nat, 20) + crate::numfmt::spec_dec_field(
        gso64 as nat,
        20,
    ) + crate::numfmt::spec_dec_field(
        (if n > 0 {
            128 + mds[0].pre_head_pad_size as int
        } else {
            0
        }) as nat,
        20,
    ) + crate::numfmt::spec_dec_field(
        (if n > 0 {
            lho
        } else {
            0
        }) as nat,
        20,
    ) + crate::numfmt::spec_dec_field(0, 20) + spec_aix_member_stream(mds, 0) + (if n > 0 {
        crate::member_header::spec_big_archive_header(
            Seq::empty(),
            0,
            0,
            0,
            0,
            mts as nat,
            lho as nat,
            (if gso != 0 {
                gso
            } else {
                gso64
            }) as nat,
        ) + crate::numfmt::spec_dec_field(n as nat, 20) + spec_aix_table_offsets(ms, mds, 0)
            + spec_aix_table_names(ms, 0) + (if spec_aix_table_names_size(ms, 0) % 2 != 0 {
            seq![0u8]
        } else {
            Seq::<u8>::empty()
        }) + (if gso != 0 {
            crate::symtab::spec_symbol_table_bytes(
                ArchiveKind::AixBig,
                mds,
                names32,
                128,
                ns32,
                last_end,
                gso64,
                0,
                false,
            ) + (if gso64 != 0 && names32.len() % 2 != 0 {
                seq![0u8]
            } else {
                Seq::<u8>::empty()
            })
        } else {
            Seq::<u8>::empty()
        }) + (if gso64 != 0 {
            crate::symtab::spec_symbol_table_bytes(
                ArchiveKind::AixBig,
                mds,
                names64,
                128,
                ns64,
                if gso != 0 {
                    gso
                } else {
                    last_end
                },
                0,
                0,
                true,
            )
        } else {
            Seq::<u8>::empty()
        })
    } else {
        Seq::<u8>::empty()
    })
}

} // verus!
