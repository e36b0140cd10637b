//! Symbol collection: names flow into a shared NUL-terminated name stream,
//! and in COFF mode into the ordered symbol map, routed to the EC side map
//! for EC object files.  Import-descriptor symbols of non-EC members are
//! copied into the EC map.

use vstd::prelude::*;

use crate::archive::ArchiveKind;
use crate::archive::is_aix_big_archive;
use crate::archive::is_bsd_like;
use crate::archive::is_64bit_kind;
use crate::archive::spec_is_bsd_like;
use crate::archive::spec_is_64bit_kind;
use crate::symmap::SymMap;
use crate::symmap::map_entries_view;
use crate::symmap::map_insert_keep;
use crate::symmap::map_set;
use crate::symmap::spec_map_contains_prefixed;
use crate::symmap::spec_map_insert_keep;
use crate::symmap::spec_map_set;

verus! {

/// The prefix of import-descriptor symbols created for import libraries.
pub open spec fn spec_import_descriptor_prefix() -> Seq<u8> {
    seq![
        0x5fu8,
        0x5f,
        0x49,
        0x4d,
        0x50,
        0x4f,
        0x52,
        0x54,
        0x5f,
        0x44,
        0x45,
        0x53,
        0x43,
        0x52,
        0x49,
        0x50,
        0x54,
        0x4f,
        0x52,
        0x5f,
    ]
}

/// The name of the null import descriptor symbol.
pub open spec fn spec_null_import_descriptor_name() -> Seq<u8> {
    seq![
        0x5fu8,
        0x5f,
        0x4e,
        0x55,
        0x4c,
        0x4c,
        0x5f,
        0x49,
        0x4d,
        0x50,
        0x4f,
        0x52,
        0x54,
        0x5f,
        0x44,
        0x45,
        0x53,
        0x43,
        0x52,
        0x49,
        0x50,
        0x54,
        0x4f,
        0x52,
    ]
}

/// The suffix of null-thunk symbols; their first byte is 0x7f.
pub open spec fn spec_null_thunk_suffix() -> Seq<u8> {
    seq![
        0x5fu8,
        0x4e,
        0x55,
        0x4c,
        0x4c,
        0x5f,
        0x54,
        0x48,
        0x55,
        0x4e,
        0x4b,
        0x5f,
        0x44,
        0x41,
        0x54,
        0x41,
    ]
}

/// The import-descriptor prefix, as bytes.
pub fn import_descriptor_prefix() -> (r: Vec<u8>)
    ensures
        r@ == spec_import_descriptor_prefix(),
{
    let mut r: Vec<u8> = Vec::new();
    r.push(0x5f);
    r.push(0x5f);
    r.push(0x49);
    r.push(0x4d);
    r.push(0x50);
    r.push(0x4f);
    r.push(0x52);
    r.push(0x54);
    r.push(0x5f);
    r.push(0x44);
    r.push(0x45);
    r.push(0x53);
    r.push(0x43);
    r.push(0x52);
    r.push(0x49);
    r.push(0x50);
    r.push(0x54);
    r.push(0x4f);
    r.push(0x52);
    r.push(0x5f);
    proof {
        assert(r@ =~= spec_import_descriptor_prefix());
    }
    r
}

/// The null import descriptor symbol name, as bytes.
pub fn null_import_descriptor_name() -> (r: Vec<u8>)
    ensures
        r@ == spec_null_import_descriptor_name(),
{
    let mut r: Vec<u8> = Vec::new();
    r.push(0x5f);
    r.push(0x5f);
    r.push(0x4e);
    r.push(0x55);
    r.push(0x4c);
    r.push(0x4c);
    r.push(0x5f);
    r.push(0x49);
    r.push(0x4d);
    r.push(0x50);
    r.push(0x4f);
    r.push(0x52);
    r.push(0x54);
    r.push(0x5f);
    r.push(0x44);
    r.push(0x45);
    r.push(0x53);
    r.push(0x43);
    r.push(0x52);
    r.push(0x49);
    r.push(0x50);
    r.push(0x54);
    r.push(0x4f);
    r.push(0x52);
    proof {
        assert(r@ =~= spec_null_import_descriptor_name());
    }
    r
}

/// The null-thunk symbol suffix, as bytes.
pub fn null_thunk_suffix() -> (r: Vec<u8>)
    ensures
        r@ == spec_null_thunk_suffix(),
{
    let mut r: Vec<u8> = Vec::new();
    r.push(0x5f);
    r.push(0x4e);
    r.push(0x55);
    r.push(0x4c);
    r.push(0x4c);
    r.push(0x5f);
    r.push(0x54);
    r.push(0x48);
    r.push(0x55);
    r.push(0x4e);
    r.push(0x4b);
    r.push(0x5f);
    r.push(0x44);
    r.push(0x41);
    r.push(0x54);
    r.push(0x41);
    proof {
        assert(r@ =~= spec_null_thunk_suffix());
    }
    r
}

/// Whether `name` is one of the import-descriptor shapes that must reach the
/// EC map even when collected from a non-EC member.
pub open spec fn spec_is_import_descriptor(name: Seq<u8>) -> bool {
    ||| (name.len() >= 20 && name.take(20) == spec_import_descriptor_prefix())
    ||| name == spec_null_import_descriptor_name()
    ||| (name.len() >= 17 && name[0] == 0x7fu8 && name.skip(name.len() - 16)
        == spec_null_thunk_suffix())
}

/// True when `a` begins with `p`.
fn bytes_starts_with(a: &[u8], p: &Vec<u8>) -> (r: bool)
    ensures
        r == (a@.len() >= p@.len() && a@.take(p@.len() as int) == p@),
{
    if a.len() < p.len() {
        return false;
    }
    let mut i: usize = 0;
    while i < p.len()
        invariant
            p@.len() <= a@.len(),
            i <= p@.len(),
            forall|j: int| 0 <= j < i ==> a@[j] == p@[j],
        decreases p@.len() - i,
    {
        if a[i] != p[i] {
            proof {
                assert(a@.take(p@.len() as int)[i as int] != p@[i as int]);
            }
            return false;
        }
        i += 1;
    }
    proof {
        assert(a@.take(p@.len() as int) =~= p@);
    }
    true
}

/// True when `a` ends with `p`.
fn bytes_ends_with(a: &[u8], p: &Vec<u8>) -> (r: bool)
    ensures
        r == (a@.len() >= p@.len() && a@.skip(a@.len() - p@.len()) == p@),
{
    if a.len() < p.len() {
        return false;
    }
    let alen = a.len();
    let base = alen - p.len();
    let mut i: usize = 0;
    while i < p.len()
        invariant
            alen == a@.len(),
            p@.len() <= a@.len(),
            base == a@.len() - p@.len(),
            i <= p@.len(),
            forall|j: int| 0 <= j < i ==> a@[base + j] == p@[j],
        decreases p@.len() - i,
    {
        if a[base + i] != p[i] {
            proof {
                assert(a@.skip(a@.len() - p@.len())[i as int] != p@[i as int]);
            }
            return false;
        }
        i += 1;
    }
    proof {
        assert(a@.skip(a@.len() - p@.len()) =~= p@);
    }
    true
}

/// True when `a` and `b` hold the same bytes.
pub fn bytes_eq(a: &[u8], b: &[u8]) -> (r: bool)
    ensures
        r == (a@ == b@),
{
    if a.len() != b.len() {
        proof {
            assert(a@ != b@);
        }
        return false;
    }
    let mut i: usize = 0;
    while i < a.len()
        invariant
            a@.len() == b@.len(),
            i <= a@.len(),
            forall|j: int| 0 <= j < i ==> a@[j] == b@[j],
        decreases a@.len() - i,
    {
        if a[i] != b[i] {
            return false;
        }
        i += 1;
    }
    proof {
        assert(a@ =~= b@);
    }
    true
}

/// Whether `name` matches one of the import-descriptor symbol shapes.
pub fn is_import_descriptor(name: &[u8]) -> (r: bool)
    ensures
        r == spec_is_import_descriptor(name@),
{
    let prefix = import_descriptor_prefix();
    if bytes_starts_with(name, &prefix) {
        return true;
    }
    let null_name = null_import_descriptor_name();
    if bytes_eq(name, null_name.as_slice()) {
        return true;
    }
    let suffix = null_thunk_suffix();
    if name.len() >= 17 && name[0] == 0x7f && bytes_ends_with(name, &suffix) {
        return true;
    }
    false
}

/// Where a member's symbols go: nowhere but the name stream, into the main
/// map, or into the EC side map.
pub enum SymRoute {
    NoMap,
    Main,
    Ec,
}

/// The collection state: the shared name stream and the two ordered maps.
#[verifier::ext_equal]
pub struct SymState {
    pub names: Seq<u8>,
    pub map: Seq<(Seq<u8>, u16)>,
    pub ec_map: Seq<(Seq<u8>, u16)>,
}

/// One symbol's effect on the collection state, and the name-stream offsets
/// it records.
pub open spec fn spec_collect_one(st: SymState, name: Seq<u8>, index: u16, route: SymRoute) -> (
    SymState,
    Seq<u64>,
) {
    match route {
        SymRoute::NoMap => (
            SymState { names: st.names + name + seq![0u8], ..st },
            seq![st.names.len() as u64],
        ),
        SymRoute::Ec => (SymState { ec_map: spec_map_insert_keep(st.ec_map, name, index), ..st }, Seq::empty()),
        SymRoute::Main => {
            if spec_map_contains_prefixed(st.map, name) {
                (st, Seq::empty())
            } else {
                (
                    SymState {
                        names: st.names + name + seq![0u8],
                        map: spec_map_insert_keep(st.map, name, index),
                        ec_map: if spec_is_import_descriptor(name) {
                            spec_map_set(st.ec_map, name, index)
                        } else {
                            st.ec_map
                        },
                    },
                    seq![st.names.len() as u64],
                )
            }
        },
    }
}

/// The effect of a member's whole symbol list on the collection state, with
/// the offsets recorded for the member.
pub open spec fn spec_collect(
    st: SymState,
    symbols: Seq<Seq<u8>>,
    index: u16,
    route: SymRoute,
) -> (SymState, Seq<u64>)
    decreases symbols.len(),
{
    if symbols.len() == 0 {
        (st, Seq::empty())
    } else {
        let (st1, o1) = spec_collect_one(st, symbols[0], index, route);
        let (st2, rest) = spec_collect(st1, symbols.drop_first(), index, route);
        (st2, o1 + rest)
    }
}

/// Collecting a list and then one more symbol is one more step.
pub proof fn lemma_collect_snoc(
    st: SymState,
    symbols: Seq<Seq<u8>>,
    x: Seq<u8>,
    index: u16,
    route: SymRoute,
)
    ensures
        spec_collect(st, symbols.push(x), index, route).0 == spec_collect_one(
            spec_collect(st, symbols, index, route).0,
            x,
            index,
            route,
        ).0,
        spec_collect(st, symbols.push(x), index, route).1 == spec_collect(
            st,
            symbols,
            index,
            route,
        ).1 + spec_collect_one(spec_collect(st, symbols, index, route).0, x, index, route).1,
    decreases symbols.len(),
{
    reveal_with_fuel(spec_collect, 3);
    if symbols.len() == 0 {
        let p = symbols.push(x);
        assert(p[0] == x);
        assert(p.drop_first() =~= Seq::<Seq<u8>>::empty());
        let (st1, o1) = spec_collect_one(st, x, index, route);
        assert(Seq::<u64>::empty() + o1 =~= o1);
        assert(o1 + Seq::<u64>::empty() =~= o1);
    } else {
        lemma_collect_snoc(
            spec_collect_one(st, symbols[0], index, route).0,
            symbols.drop_first(),
            x,
            index,
            route,
        );
        let p = symbols.push(x);
        assert(p[0] == symbols[0]);
        assert(p.drop_first() =~= symbols.drop_first().push(x));
        let (st1, o1) = spec_collect_one(st, symbols[0], index, route);
        let (sta, oa) = spec_collect(st1, symbols.drop_first(), index, route);
        let (stb, ob) = spec_collect_one(sta, x, index, route);
        assert(o1 + (oa + ob) =~= (o1 + oa) + ob);
    }
}

/// The current collection state of the writer.
pub open spec fn sym_state_of(sym_names: Seq<u8>, m: SymMap) -> SymState {
    SymState {
        names: sym_names,
        map: map_entries_view(m.map@),
        ec_map: map_entries_view(m.ec_map@),
    }
}

/// The route a member's symbols take.
pub open spec fn spec_route(has_map: bool, use_ec_map: bool, is_ec_obj: bool) -> SymRoute {
    if !has_map {
        SymRoute::NoMap
    } else if use_ec_map && is_ec_obj {
        SymRoute::Ec
    } else {
        SymRoute::Main
    }
}

/// Collects one member's symbols into the name stream and the maps, and
/// returns the name-stream offsets recorded for the member.
pub fn write_symbols(
    symbols: &Vec<Vec<u8>>,
    index: u16,
    sym_names: &mut Vec<u8>,
    has_map: bool,
    sym_map: &mut SymMap,
    is_ec_obj: bool,
) -> (offsets: Vec<u64>)
    ensures
        ({
            let route = spec_route(has_map, old(sym_map).use_ec_map, is_ec_obj);
            let (st, offs) = spec_collect(
                sym_state_of(old(sym_names)@, *old(sym_map)),
                symbols@.map_values(|s: Vec<u8>| s@),
                index,
                route,
            );
            &&& sym_state_of(final(sym_names)@, *final(sym_map)) == st
            &&& offsets@ == offs
            &&& final(sym_map).use_ec_map == old(sym_map).use_ec_map
        }),
{
    let ghost st0 = sym_state_of(old(sym_names)@, *old(sym_map));
    let ghost syms = symbols@.map_values(|s: Vec<u8>| s@);
    let ghost route = spec_route(has_map, old(sym_map).use_ec_map, is_ec_obj);
    let use_ec = sym_map.use_ec_map;
    let mut offsets: Vec<u64> = Vec::new();
    let mut i: usize = 0;
    proof {
        assert(syms.take(0) =~= Seq::<Seq<u8>>::empty());
    }
    while i < symbols.len()
        invariant
            st0 == sym_state_of(old(sym_names)@, *old(sym_map)),
            syms == symbols@.map_values(|s: Vec<u8>| s@),
            route == spec_route(has_map, old(sym_map).use_ec_map, is_ec_obj),
            use_ec == old(sym_map).use_ec_map,
            i <= symbols@.len(),
            sym_map.use_ec_map == use_ec,
            ({
                let (st, offs) = spec_collect(st0, syms.take(i as int), index, route);
                sym_state_of(sym_names@, *sym_map) == st && offsets@ == offs
            }),
        decreases symbols@.len() - i,
    {
        let name = &symbols[i];
        let ghost pre_st = sym_state_of(sym_names@, *sym_map);
        let ghost pre_offs = offsets@;
        if has_map {
            if use_ec && is_ec_obj {
                let _ = map_insert_keep(&mut sym_map.ec_map, name, index);
            } else {
                let inserted = map_insert_keep(&mut sym_map.map, name, index);
                if inserted {
                    offsets.push(sym_names.len() as u64);
                    sym_names.extend_from_slice(name.as_slice());
                    sym_names.push(0);
                    if is_import_descriptor(name.as_slice()) {
                        map_set(&mut sym_map.ec_map, name, index);
                    }
                }
            }
        } else {
            offsets.push(sym_names.len() as u64);
            sym_names.extend_from_slice(name.as_slice());
            sym_names.push(0);
        }
        proof {
            lemma_collect_snoc(st0, syms.take(i as int), syms[i as int], index, route);
            assert(syms.take(i as int).push(syms[i as int]) =~= syms.take(i as int + 1));
            let (st1, o1) = spec_collect(st0, syms.take(i as int), index, route);
            let (st2, o2) = spec_collect_one(st1, syms[i as int], index, route);
            assert(pre_st == st1);
            assert(syms[i as int] == symbols@[i as int]@);
            match route {
                SymRoute::NoMap => {
                    assert(sym_names@ =~= st1.names + syms[i as int] + seq![0u8]);
                    assert(offsets@ =~= pre_offs + o2);
                },
                SymRoute::Ec => {
                    assert(offsets@ =~= pre_offs + o2);
                },
                SymRoute::Main => {
                    if spec_map_contains_prefixed(st1.map, syms[i as int]) {
                        crate::symmap::lemma_insert_keep_contained(st1.map, syms[i as int], index);
                        assert(offsets@ =~= pre_offs + o2);
                    } else {
                        assert(sym_names@ =~= st1.names + syms[i as int] + seq![0u8]);
                        assert(offsets@ =~= pre_offs + o2);
                    }
                },
            }
            assert(sym_names@ == st2.names);
            assert(map_entries_view(sym_map.map@) == st2.map);
            assert(map_entries_view(sym_map.ec_map@) == st2.ec_map);
            assert(sym_state_of(sym_names@, *sym_map) =~= st2);
        }
        i += 1;
    }
    proof {
        assert(syms.take(symbols@.len() as int) =~= syms);
    }
    offsets
}

/// The name bytes of the BSD symbol table member.
pub open spec fn spec_symdef_name() -> Seq<u8> {
    seq![0x5fu8, 0x5f, 0x2e, 0x53, 0x59, 0x4d, 0x44, 0x45, 0x46]
}

/// The name bytes of the BSD 64-bit symbol table member.
pub open spec fn spec_symdef64_name() -> Seq<u8> {
    seq![0x5fu8, 0x5f, 0x2e, 0x53, 0x59, 0x4d, 0x44, 0x45, 0x46, 0x5f, 0x36, 0x34]
}

/// The name bytes of the GNU 64-bit symbol table member.
pub open spec fn spec_sym64_name() -> Seq<u8> {
    seq![0x2fu8, 0x53, 0x59, 0x4d, 0x36, 0x34]
}

/// `__.SYMDEF`, as bytes.
pub fn symdef_name() -> (r: Vec<u8>)
    ensures
        r@ == spec_symdef_name(),
{
    let mut r: Vec<u8> = Vec::new();
    r.push(0x5f);
    r.push(0x5f);
    r.push(0x2e);
    r.push(0x53);
    r.push(0x59);
    r.push(0x4d);
    r.push(0x44);
    r.push(0x45);
    r.push(0x46);
    proof {
        assert(r@ =~= spec_symdef_name());
    }
    r
}

/// `__.SYMDEF_64`, as bytes.
pub fn symdef64_name() -> (r: Vec<u8>)
    ensures
        r@ == spec_symdef64_name(),
{
    let mut r: Vec<u8> = Vec::new();
    r.push(0x5f);
    r.push(0x5f);
    r.push(0x2e);
    r.push(0x53);
    r.push(0x59);
    r.push(0x4d);
    r.push(0x44);
    r.push(0x45);
    r.push(0x46);
    r.push(0x5f);
    r.push(0x36);
    r.push(0x34);
    proof {
        assert(r@ =~= spec_symdef64_name());
    }
    r
}

/// `/SYM64`, as bytes.
pub fn sym64_name() -> (r: Vec<u8>)
    ensures
        r@ == spec_sym64_name(),
{
    let mut r: Vec<u8> = Vec::new();
    r.push(0x2f);
    r.push(0x53);
    r.push(0x59);
    r.push(0x4d);
    r.push(0x36);
    r.push(0x34);
    proof {
        assert(r@ =~= spec_sym64_name());
    }
    r
}

/// The byte size of a symbol table body: the entry-count word, the offset
/// words (pairs on BSD-like variants), the BSD byte-count word, the name
/// stream, and the alignment pad.
pub open spec fn spec_symbol_table_size(
    kind: ArchiveKind,
    num_syms: nat,
    offset_size: nat,
    string_table_size: nat,
) -> nat {
    let base = if spec_is_bsd_like(kind) {
        offset_size + num_syms * offset_size * 2 + offset_size + string_table_size
    } else {
        offset_size + num_syms * offset_size + string_table_size
    };
    (base + spec_symbol_table_pad(kind, num_syms, offset_size, string_table_size)) as nat
}

/// The alignment pad closing a symbol table: none on AIX, 8-byte alignment
/// on BSD-like variants, 2-byte alignment elsewhere.
pub open spec fn spec_symbol_table_pad(
    kind: ArchiveKind,
    num_syms: nat,
    offset_size: nat,
    string_table_size: nat,
) -> nat {
    let base = if spec_is_bsd_like(kind) {
        offset_size + num_syms * offset_size * 2 + offset_size + string_table_size
    } else {
        offset_size + num_syms * offset_size + string_table_size
    };
    if kind == ArchiveKind::AixBig {
        0
    } else {
        crate::alignment::spec_offset_to_alignment(
            base as int,
            if spec_is_bsd_like(kind) {
                8
            } else {
                2
            },
        ) as nat
    }
}

/// Computes the byte size of the symbol table and its trailing pad.
pub fn compute_symbol_table_size_and_pad(
    kind: ArchiveKind,
    num_syms: u64,
    offset_size: u64,
    string_table_size: u64,
) -> (r: (u64, u64))
    requires
        offset_size == 4 || offset_size == 8,
        num_syms <= 0x0100_0000_0000_0000,
        string_table_size <= 0x1000_0000_0000_0000,
    ensures
        r.0 == spec_symbol_table_size(
            kind,
            num_syms as nat,
            offset_size as nat,
            string_table_size as nat,
        ),
        r.1 == spec_symbol_table_pad(
            kind,
            num_syms as nat,
            offset_size as nat,
            string_table_size as nat,
        ),
        r.0 <= 0x3000_0000_0000_0010,
{
    let mut size: u64 = offset_size;
    if is_bsd_like(kind) {
        proof {
            assert(num_syms * offset_size * 2 <= 0x0100_0000_0000_0000 * 16) by (nonlinear_arith)
                requires
                    num_syms <= 0x0100_0000_0000_0000,
                    offset_size <= 8,
            ;
        }
        size = size + num_syms * offset_size * 2;
        size = size + offset_size;
    } else {
        proof {
            assert(num_syms * offset_size <= 0x0100_0000_0000_0000 * 8) by (nonlinear_arith)
                requires
                    num_syms <= 0x0100_0000_0000_0000,
                    offset_size <= 8,
            ;
        }
        size = size + num_syms * offset_size;
    }
    size = size + string_table_size;
    let pad: u64 = if is_aix_big_archive(kind) {
        0
    } else {
        crate::alignment::offset_to_alignment(
            size,
            if is_bsd_like(kind) {
                8
            } else {
                2
            },
        )
    };
    size = size + pad;
    (size, pad)
}

/// The total name bytes of a map: each entry costs its index word, its name
/// and a NUL.
pub open spec fn spec_map_entry_bytes(m: Seq<(Seq<u8>, u16)>) -> nat
    decreases m.len(),
{
    if m.len() == 0 {
        0nat
    } else {
        (2 + m[0].0.len() + 1 + spec_map_entry_bytes(m.drop_first())) as nat
    }
}

/// The byte size of the COFF symbol map member: two count words, a member
/// offset table, the entries, and an even-alignment pad.
pub open spec fn spec_symbol_map_size(num_obj: nat, m: Seq<(Seq<u8>, u16)>) -> nat {
    let base = 4 + 4 + num_obj * 4 + spec_map_entry_bytes(m);
    (base + spec_symbol_map_pad(num_obj, m)) as nat
}

/// The even-alignment pad of the COFF symbol map member.
pub open spec fn spec_symbol_map_pad(num_obj: nat, m: Seq<(Seq<u8>, u16)>) -> nat {
    crate::alignment::spec_offset_to_alignment(
        (4 + 4 + num_obj * 4 + spec_map_entry_bytes(m)) as int,
        2,
    ) as nat
}

/// Sums the per-entry byte cost of a map.
fn map_entry_bytes(entries: &Vec<(Vec<u8>, u16)>) -> (r: u64)
    requires
        spec_map_entry_bytes(map_entries_view(entries@)) <= u64::MAX,
    ensures
        r == spec_map_entry_bytes(map_entries_view(entries@)),
{
    let ghost m = map_entries_view(entries@);
    let mut total: u64 = 0;
    let mut i: usize = 0;
    proof {
        lemma_map_entry_bytes_split(m, 0);
    }
    while i < entries.len()
        invariant
            m == map_entries_view(entries@),
            i <= entries@.len(),
            spec_map_entry_bytes(m) <= u64::MAX,
            total == spec_map_entry_bytes(m.take(i as int)),
            spec_map_entry_bytes(m) == spec_map_entry_bytes(m.take(i as int))
                + spec_map_entry_bytes(m.skip(i as int)),
        decreases entries@.len() - i,
    {
        proof {
            lemma_map_entry_bytes_split(m, i as int + 1);
            assert(m.skip(i as int)[0] == m[i as int]);
            assert(m.skip(i as int).drop_first() =~= m.skip(i as int + 1));
            assert(m.take(i as int + 1).drop_last() =~= m.take(i as int));
            lemma_map_entry_bytes_snoc(m.take(i as int + 1));
        }
        let name_len = entries[i].0.len() as u64;
        total = total + 2 + name_len + 1;
        i += 1;
    }
    proof {
        assert(m.take(entries@.len() as int) =~= m);
    }
    total
}

/// The entry-byte sum splits at any position.
proof fn lemma_map_entry_bytes_split(m: Seq<(Seq<u8>, u16)>, i: int)
    requires
        0 <= i <= m.len(),
    ensures
        spec_map_entry_bytes(m) == spec_map_entry_bytes(m.take(i)) + spec_map_entry_bytes(
            m.skip(i),
        ),
    decreases i,
{
    if i == 0 {
        assert(m.take(0) =~= Seq::<(Seq<u8>, u16)>::empty());
        assert(m.skip(0) =~= m);
    } else {
        lemma_map_entry_bytes_split(m.drop_first(), i - 1);
        assert(m.take(i).drop_first() =~= m.drop_first().take(i - 1));
        assert(m.skip(i) =~= m.drop_first().skip(i - 1));
        assert(spec_map_entry_bytes(m.take(i)) == 2 + m[0].0.len() + 1 + spec_map_entry_bytes(
            m.take(i).drop_first(),
        ));
    }
}

/// The entry-byte sum of a non-empty map counts its last entry once.
proof fn lemma_map_entry_bytes_snoc(m: Seq<(Seq<u8>, u16)>)
    requires
        m.len() > 0,
    ensures
        spec_map_entry_bytes(m) == spec_map_entry_bytes(m.drop_last()) + 2 + m.last().0.len() + 1,
    decreases m.len(),
{
    if m.len() == 1 {
        assert(m.drop_last() =~= Seq::<(Seq<u8>, u16)>::empty());
        assert(m.drop_first() =~= Seq::<(Seq<u8>, u16)>::empty());
    } else {
        lemma_map_entry_bytes_snoc(m.drop_first());
        assert(m.drop_last().drop_first() =~= m.drop_first().drop_last());
        assert(m.drop_first().last() == m.last());
        assert(spec_map_entry_bytes(m.drop_last()) == 2 + m[0].0.len() + 1
            + spec_map_entry_bytes(m.drop_last().drop_first()));
    }
}

/// Computes the byte size of the COFF symbol map member and its pad.
pub fn compute_symbol_map_size_and_pad(num_obj: usize, sym_map: &SymMap) -> (r: (u64, u64))
    requires
        num_obj <= 0x0010_0000_0000,
        spec_map_entry_bytes(map_entries_view(sym_map.map@)) <= 0x1000_0000_0000_0000,
    ensures
        r.0 == spec_symbol_map_size(num_obj as nat, map_entries_view(sym_map.map@)),
        r.1 == spec_symbol_map_pad(num_obj as nat, map_entries_view(sym_map.map@)),
{
    let mut size: u64 = 8;
    size = size + (num_obj as u64) * 4;
    size = size + map_entry_bytes(&sym_map.map);
    let pad = crate::alignment::offset_to_alignment(size, 2);
    size = size + pad;
    (size, pad)
}

/// The byte size of the EC symbols member: a count word, the entries, and
/// an even-alignment pad.
pub open spec fn spec_ec_symbols_size(m: Seq<(Seq<u8>, u16)>) -> nat {
    let base = 4 + spec_map_entry_bytes(m);
    (base + spec_ec_symbols_pad(m)) as nat
}

/// The even-alignment pad of the EC symbols member.
pub open spec fn spec_ec_symbols_pad(m: Seq<(Seq<u8>, u16)>) -> nat {
    crate::alignment::spec_offset_to_alignment((4 + spec_map_entry_bytes(m)) as int, 2) as nat
}

/// Computes the byte size of the EC symbols member and its pad.
pub fn compute_ec_symbols_size_and_pad(sym_map: &SymMap) -> (r: (u64, u64))
    requires
        spec_map_entry_bytes(map_entries_view(sym_map.ec_map@)) <= 0x1000_0000_0000_0000,
    ensures
        r.0 == spec_ec_symbols_size(map_entries_view(sym_map.ec_map@)),
        r.1 == spec_ec_symbols_pad(map_entries_view(sym_map.ec_map@)),
{
    let mut size: u64 = 4;
    size = size + map_entry_bytes(&sym_map.ec_map);
    let pad = crate::alignment::offset_to_alignment(size, 2);
    size = size + pad;
    (size, pad)
}

/// A symbol-table word: four or eight bytes wide by variant, little-endian
/// on BSD-like variants and big-endian elsewhere.
pub open spec fn spec_n_bits(kind: ArchiveKind, val: nat) -> Seq<u8> {
    if spec_is_64bit_kind(kind) {
        if spec_is_bsd_like(kind) {
            crate::numfmt::spec_le_bytes(val, 8)
        } else {
            crate::numfmt::spec_be_bytes(val, 8)
        }
    } else {
        if spec_is_bsd_like(kind) {
            crate::numfmt::spec_le_bytes(val, 4)
        } else {
            crate::numfmt::spec_be_bytes(val, 4)
        }
    }
}

/// Appends one symbol-table word in the variant's width and endianness.
pub fn print_n_bits(w: &mut Vec<u8>, kind: ArchiveKind, val: u64)
    requires
        !spec_is_64bit_kind(kind) ==> val <= u32::MAX,
    ensures
        final(w)@ == old(w)@ + spec_n_bits(kind, val as nat),
{
    if is_64bit_kind(kind) {
        if is_bsd_like(kind) {
            crate::numfmt::push_le_bytes(w, val, 8);
        } else {
            crate::numfmt::push_be_bytes(w, val, 8);
        }
    } else {
        if is_bsd_like(kind) {
            crate::numfmt::push_le_bytes(w, val, 4);
        } else {
            crate::numfmt::push_be_bytes(w, val, 4);
        }
    }
}

/// The header announcing a symbol table: a BSD header named `__.SYMDEF` or
/// `__.SYMDEF_64`, an unnamed AIX record, or a GNU header named `/SYM64` or
/// left empty.  `pos` is the archive offset at which the header starts.
pub open spec fn spec_symbol_table_header(
    kind: ArchiveKind,
    size: nat,
    prev_member_offset: nat,
    next_member_offset: nat,
    pos: nat,
) -> Seq<u8> {
    if spec_is_bsd_like(kind) {
        crate::member_header::spec_bsd_header(
            pos,
            if spec_is_64bit_kind(kind) {
                spec_symdef64_name()
            } else {
                spec_symdef_name()
            },
            0,
            0,
            0,
            0,
            size,
        )
    } else if kind == ArchiveKind::AixBig {
        crate::member_header::spec_big_archive_header(
            Seq::empty(),
            0,
            0,
            0,
            0,
            size,
            prev_member_offset,
            next_member_offset,
        )
    } else {
        crate::member_header::spec_gnu_small_header(
            if spec_is_64bit_kind(kind) {
                spec_sym64_name()
            } else {
                Seq::empty()
            },
            0,
            0,
            0,
            0,
            size,
        )
    }
}

/// Appends the member header that announces a symbol table of `size` bytes
/// starting at archive offset `pos`.
pub fn write_symbol_table_header(
    w: &mut Vec<u8>,
    kind: ArchiveKind,
    size: u64,
    prev_member_offset: u64,
    next_member_offset: u64,
    pos: u64,
)
    requires
        pos + 80 <= u64::MAX,
        size + 20 <= u64::MAX,
    ensures
        final(w)@ == old(w)@ + spec_symbol_table_header(
            kind,
            size as nat,
            prev_member_offset as nat,
            next_member_offset as nat,
            pos as nat,
        ),
{
    let mtime = crate::archive_writer::now();
    if is_bsd_like(kind) {
        let name = if is_64bit_kind(kind) {
            symdef64_name()
        } else {
            symdef_name()
        };
        crate::member_header::print_bsd_member_header(
            w,
            pos,
            name.as_slice(),
            mtime,
            0,
            0,
            0,
            size,
        );
    } else if is_aix_big_archive(kind) {
        let name: Vec<u8> = Vec::new();
        crate::member_header::print_big_archive_member_header(
            w,
            name.as_slice(),
            mtime,
            0,
            0,
            0,
            size,
            prev_member_offset,
            next_member_offset,
        );
        proof {
            assert(name@ =~= Seq::<u8>::empty());
        }
    } else {
        let name = if is_64bit_kind(kind) {
            sym64_name()
        } else {
            Vec::new()
        };
        crate::member_header::print_gnu_small_member_header(
            w,
            name.as_slice(),
            mtime,
            0,
            0,
            0,
            size,
        );
        proof {
            if !spec_is_64bit_kind(kind) {
                assert(name@ =~= Seq::<u8>::empty());
            }
        }
    }
}

/// The `//` member name field and the EC symbols member name, as used in
/// their GNU headers.
pub open spec fn spec_ecsymbols_name() -> Seq<u8> {
    seq![0x2fu8, 0x3c, 0x45, 0x43, 0x53, 0x59, 0x4d, 0x42, 0x4f, 0x4c, 0x53, 0x3e]
}

/// `/<ECSYMBOLS>`, as bytes.
pub fn ecsymbols_name() -> (r: Vec<u8>)
    ensures
        r@ == spec_ecsymbols_name(),
{
    let mut r: Vec<u8> = Vec::new();
    r.push(0x2f);
    r.push(0x3c);
    r.push(0x45);
    r.push(0x43);
    r.push(0x53);
    r.push(0x59);
    r.push(0x4d);
    r.push(0x42);
    r.push(0x4f);
    r.push(0x4c);
    r.push(0x53);
    r.push(0x3e);
    proof {
        assert(r@ =~= spec_ecsymbols_name());
    }
    r
}

/// The parts one prepared member streams after its leading pad.
pub open spec fn spec_md_parts(md: crate::archive_writer::MemberDataView) -> int {
    md.header.len() + md.data.len() + md.padding.len() as int
}

/// The offset words one member contributes to a symbol table: BSD-like
/// variants write a string-offset and member-offset pair per symbol, others
/// the member offset alone.
pub open spec fn spec_sym_words(kind: ArchiveKind, syms: Seq<u64>, pos: int) -> Seq<u8>
    decreases syms.len(),
{
    if syms.len() == 0 {
        Seq::empty()
    } else {
        (if spec_is_bsd_like(kind) {
            spec_n_bits(kind, syms[0] as nat)
        } else {
            Seq::<u8>::empty()
        }) + spec_n_bits(kind, pos as nat) + spec_sym_words(kind, syms.drop_first(), pos)
    }
}

/// The offset words of a whole symbol table: members are visited in order;
/// on AIX, members of the other width are skipped.
pub open spec fn spec_symtab_body(
    kind: ArchiveKind,
    mds: Seq<crate::archive_writer::MemberDataView>,
    pos: int,
    is_64: bool,
) -> Seq<u8>
    decreases mds.len(),
{
    if mds.len() == 0 {
        Seq::empty()
    } else {
        let m = mds[0];
        let pos1 = pos + (if kind == ArchiveKind::AixBig {
            m.pre_head_pad_size as int
        } else {
            0int
        });
        if kind == ArchiveKind::AixBig && m.is_64 != is_64 {
            spec_symtab_body(kind, mds.drop_first(), pos1 + spec_md_parts(m), is_64)
        } else {
            spec_sym_words(kind, m.symbols, pos1) + spec_symtab_body(
                kind,
                mds.drop_first(),
                pos1 + spec_md_parts(m),
                is_64,
            )
        }
    }
}

/// `n` NUL bytes.
pub open spec fn spec_zeros(n: nat) -> Seq<u8> {
    Seq::new(n, |j: int| 0u8)
}

/// A symbol table member, head to pad: the announcing header, the count
/// word (BSD-like variants count pair bytes), the offset words, the BSD
/// byte-count of the name stream, the stream, and the pad.
#[verifier::opaque]
pub open spec fn spec_symbol_table_bytes(
    kind: ArchiveKind,
    mds: Seq<crate::archive_writer::MemberDataView>,
    names: Seq<u8>,
    members_offset: int,
    num_syms: int,
    prev: int,
    next: int,
    pos: int,
    is_64: bool,
) -> Seq<u8> {
    if names.len() == 0 && !crate::archive::spec_is_darwin(kind) && kind != ArchiveKind::Coff {
        Seq::empty()
    } else {
        let offset_size: nat = if spec_is_64bit_kind(kind) {
            8
        } else {
            4
        };
        let size = spec_symbol_table_size(kind, num_syms as nat, offset_size, names.len());
        let pad = spec_symbol_table_pad(kind, num_syms as nat, offset_size, names.len());
        spec_symbol_table_header(kind, size, prev as nat, next as nat, pos as nat) + (if
        spec_is_bsd_like(kind) {
            spec_n_bits(kind, (num_syms * 2 * offset_size) as nat)
        } else {
            spec_n_bits(kind, num_syms as nat)
        }) + spec_symtab_body(kind, mds, members_offset, is_64) + (if spec_is_bsd_like(kind) {
            spec_n_bits(kind, names.len())
        } else {
            Seq::<u8>::empty()
        }) + names + spec_zeros(pad)
    }
}

/// Sizes and symbol counts of prepared members are nonnegative.
pub proof fn lemma_mds_size_nonneg(mds: Seq<crate::archive_writer::MemberDataView>)
    ensures
        crate::archive_writer::spec_mds_size(mds) >= 0,
        crate::archive_writer::spec_mds_num_syms(mds) >= 0,
        spec_mds_pre_pads(mds) >= 0,
    decreases mds.len(),
{
    if mds.len() > 0 {
        lemma_mds_size_nonneg(mds.drop_first());
    }
}

/// Partial sums over the prepared members are bounded by the total.
pub proof fn lemma_mds_size_take(mds: Seq<crate::archive_writer::MemberDataView>, i: int)
    requires
        0 <= i <= mds.len(),
    ensures
        0 <= crate::archive_writer::spec_mds_size(mds.take(i))
            <= crate::archive_writer::spec_mds_size(mds),
        i < mds.len() ==> crate::archive_writer::spec_mds_size(mds.take(i + 1))
            == crate::archive_writer::spec_mds_size(mds.take(i))
            + crate::archive_writer::spec_md_size(mds[i]),
        0 <= crate::archive_writer::spec_mds_num_syms(mds.take(i))
            <= crate::archive_writer::spec_mds_num_syms(mds),
        i < mds.len() ==> crate::archive_writer::spec_mds_num_syms(mds.take(i + 1))
            == crate::archive_writer::spec_mds_num_syms(mds.take(i)) + mds[i].symbols.len(),
    decreases mds.len() - i,
{
    lemma_mds_size_nonneg(mds.take(i));
    if i < mds.len() {
        assert(mds.take(i + 1).drop_last() =~= mds.take(i));
        assert(mds.take(i + 1) =~= mds.take(i).push(mds[i]));
        crate::archive_writer::lemma_mds_size_snoc(mds.take(i), mds[i]);
        lemma_mds_size_take(mds, i + 1);
    } else {
        assert(mds.take(i) =~= mds);
    }
}

/// Emits the offset words of one member's symbols.
fn write_member_sym_words(w: &mut Vec<u8>, kind: ArchiveKind, syms: &Vec<u64>, pos: u64)
    requires
        !spec_is_64bit_kind(kind) ==> pos <= u32::MAX && forall|j: int|
            0 <= j < syms@.len() ==> #[trigger] syms@[j] <= u32::MAX,
    ensures
        final(w)@ == old(w)@ + spec_sym_words(kind, syms@, pos as int),
{
    let mut k: usize = 0;
    proof {
        assert(syms@.skip(0) =~= syms@);
    }
    while k < syms.len()
        invariant
            k <= syms@.len(),
            !spec_is_64bit_kind(kind) ==> pos <= u32::MAX && forall|j: int|
                0 <= j < syms@.len() ==> #[trigger] syms@[j] <= u32::MAX,
            w@ == old(w)@ + spec_sym_words(kind, syms@.take(k as int), pos as int),
            spec_sym_words(kind, syms@, pos as int) == spec_sym_words(
                kind,
                syms@.take(k as int),
                pos as int,
            ) + spec_sym_words(kind, syms@.skip(k as int), pos as int),
        decreases syms@.len() - k,
    {
        proof {
            assert(syms@.skip(k as int)[0] == syms@[k as int]);
            assert(syms@.skip(k as int).drop_first() =~= syms@.skip(k as int + 1));
            assert(syms@.take(k as int + 1).drop_last() =~= syms@.take(k as int));
        }
        if crate::archive::is_bsd_like(kind) {
            print_n_bits(w, kind, syms[k]);
        }
        print_n_bits(w, kind, pos);
        proof {
            lemma_sym_words_snoc(kind, syms@.take(k as int + 1), pos as int);
            assert(w@ =~= old(w)@ + spec_sym_words(kind, syms@.take(k as int + 1), pos as int));
        }
        k += 1;
    }
    proof {
        assert(syms@.take(syms@.len() as int) =~= syms@);
    }
}

/// The words of a non-empty list split off their last symbol.
proof fn lemma_sym_words_snoc(kind: ArchiveKind, syms: Seq<u64>, pos: int)
    requires
        syms.len() > 0,
    ensures
        spec_sym_words(kind, syms, pos) == spec_sym_words(kind, syms.drop_last(), pos) + (if
        spec_is_bsd_like(kind) {
            spec_n_bits(kind, syms.last() as nat)
        } else {
            Seq::<u8>::empty()
        }) + spec_n_bits(kind, pos as nat),
    decreases syms.len(),
{
    if syms.len() == 1 {
        assert(syms.drop_last() =~= Seq::<u64>::empty());
        assert(syms.drop_first() =~= Seq::<u64>::empty());
        assert(spec_sym_words(kind, syms, pos) =~= spec_sym_words(kind, syms.drop_last(), pos)
            + (if spec_is_bsd_like(kind) {
            spec_n_bits(kind, syms.last() as nat)
        } else {
            Seq::<u8>::empty()
        }) + spec_n_bits(kind, pos as nat));
    } else {
        lemma_sym_words_snoc(kind, syms.drop_first(), pos);
        assert(syms.drop_last().drop_first() =~= syms.drop_first().drop_last());
        assert(syms.drop_first().last() == syms.last());
        assert(spec_sym_words(kind, syms, pos) =~= spec_sym_words(kind, syms.drop_last(), pos)
            + (if spec_is_bsd_like(kind) {
            spec_n_bits(kind, syms.last() as nat)
        } else {
            Seq::<u8>::empty()
        }) + spec_n_bits(kind, pos as nat));
    }
}

/// The table body splits at any member.
proof fn lemma_symtab_body_split(
    kind: ArchiveKind,
    mds: Seq<crate::archive_writer::MemberDataView>,
    pos: int,
    is_64: bool,
    i: int,
)
    requires
        0 <= i <= mds.len(),
    ensures
        spec_symtab_body(kind, mds, pos, is_64) == spec_symtab_body(kind, mds.take(i), pos, is_64)
            + spec_symtab_body(
            kind,
            mds.skip(i),
            pos + crate::archive_writer::spec_mds_size(mds.take(i)) - (if kind
                == ArchiveKind::AixBig {
                0int
            } else {
                spec_mds_pre_pads(mds.take(i))
            }),
            is_64,
        ),
    decreases i,
{
    if i == 0 {
        assert(mds.take(0) =~= Seq::<crate::archive_writer::MemberDataView>::empty());
        assert(mds.skip(0) =~= mds);
    } else {
        lemma_symtab_body_split(kind, mds, pos, is_64, i - 1);
        let a = mds.take(i - 1);
        let b = mds.take(i);
        assert(b.drop_last() =~= a);
        assert(b =~= a.push(mds[i - 1]));
        lemma_mds_size_take(mds, i - 1);
        lemma_symtab_body_snoc(kind, b, pos, is_64);
        lemma_mds_pre_pads_snoc(a, mds[i - 1]);
        crate::archive_writer::lemma_mds_size_snoc(a, mds[i - 1]);
        assert(mds.skip(i - 1)[0] == mds[i - 1]);
        assert(mds.skip(i - 1).drop_first() =~= mds.skip(i));
        let apos = pos + crate::archive_writer::spec_mds_size(a) - (if kind == ArchiveKind::AixBig {
            0int
        } else {
            spec_mds_pre_pads(a)
        });
        let bpos = pos + crate::archive_writer::spec_mds_size(b) - (if kind == ArchiveKind::AixBig {
            0int
        } else {
            spec_mds_pre_pads(b)
        });
        let m = mds[i - 1];
        let apos1 = apos + (if kind == ArchiveKind::AixBig {
            m.pre_head_pad_size as int
        } else {
            0int
        });
        assert(spec_symtab_body(kind, mds.skip(i - 1), apos, is_64) == (if kind
            == ArchiveKind::AixBig && m.is_64 != is_64 {
            Seq::<u8>::empty()
        } else {
            spec_sym_words(kind, m.symbols, apos1)
        }) + spec_symtab_body(kind, mds.skip(i), apos1 + spec_md_parts(m), is_64));
        assert(apos1 + spec_md_parts(m) == bpos);
        assert(spec_symtab_body(kind, mds, pos, is_64) =~= spec_symtab_body(kind, b, pos, is_64)
            + spec_symtab_body(kind, mds.skip(i), bpos, is_64));
    }
}

/// The leading pads of a prepared member list.
pub open spec fn spec_mds_pre_pads(mds: Seq<crate::archive_writer::MemberDataView>) -> int
    decreases mds.len(),
{
    if mds.len() == 0 {
        0
    } else {
        mds[0].pre_head_pad_size + spec_mds_pre_pads(mds.drop_first())
    }
}

/// Pre-pad sums split off their last member.
proof fn lemma_mds_pre_pads_snoc(
    mds: Seq<crate::archive_writer::MemberDataView>,
    md: crate::archive_writer::MemberDataView,
)
    ensures
        spec_mds_pre_pads(mds.push(md)) == spec_mds_pre_pads(mds) + md.pre_head_pad_size,
    decreases mds.len(),
{
    reveal_with_fuel(spec_mds_pre_pads, 3);
    if mds.len() == 0 {
        assert(mds.push(md).drop_first() =~= Seq::<crate::archive_writer::MemberDataView>::empty());
        assert(mds.push(md)[0] == md);
    } else {
        lemma_mds_pre_pads_snoc(mds.drop_first(), md);
        assert(mds.push(md).drop_first() =~= mds.drop_first().push(md));
        assert(mds.push(md)[0] == mds[0]);
    }
}

/// The table body of a non-empty list splits off its last member.
#[verifier::rlimit(100)]
#[verifier::spinoff_prover]
proof fn lemma_symtab_body_snoc(
    kind: ArchiveKind,
    mds: Seq<crate::archive_writer::MemberDataView>,
    pos: int,
    is_64: bool,
)
    requires
        mds.len() > 0,
    ensures
        ({
            let last = mds.last();
            let front = mds.drop_last();
            let lpos = pos + crate::archive_writer::spec_mds_size(front) - (if kind
                == ArchiveKind::AixBig {
                0int
            } else {
                spec_mds_pre_pads(front)
            });
            let lpos1 = lpos + (if kind == ArchiveKind::AixBig {
                last.pre_head_pad_size as int
            } else {
                0int
            });
            spec_symtab_body(kind, mds, pos, is_64) == spec_symtab_body(kind, front, pos, is_64)
                + (if kind == ArchiveKind::AixBig && last.is_64 != is_64 {
                Seq::<u8>::empty()
            } else {
                spec_sym_words(kind, last.symbols, lpos1)
            })
        }),
    decreases mds.len(),
{
    reveal_with_fuel(spec_symtab_body, 3);
    reveal_with_fuel(spec_mds_pre_pads, 3);
    reveal_with_fuel(crate::archive_writer::spec_mds_size, 3);
    let last = mds.last();
    let front = mds.drop_last();
    if mds.len() == 1 {
        assert(front =~= Seq::<crate::archive_writer::MemberDataView>::empty());
        assert(mds.drop_first() =~= Seq::<crate::archive_writer::MemberDataView>::empty());
        assert(mds[0] == last);
    } else {
        lemma_symtab_body_snoc(kind, mds.drop_first(), pos + (if kind == ArchiveKind::AixBig {
            mds[0].pre_head_pad_size as int
        } else {
            0int
        }) + spec_md_parts(mds[0]), is_64);
        assert(mds.drop_first().drop_last() =~= front.drop_first());
        assert(mds.drop_first().last() == last);
        assert(front[0] == mds[0]);
        assert(crate::archive_writer::spec_mds_size(front) == crate::archive_writer::spec_md_size(
            mds[0],
        ) + crate::archive_writer::spec_mds_size(front.drop_first()));
        assert(spec_mds_pre_pads(front) == mds[0].pre_head_pad_size + spec_mds_pre_pads(
            front.drop_first(),
        ));
        let lpos = pos + crate::archive_writer::spec_mds_size(front) - (if kind
            == ArchiveKind::AixBig {
            0int
        } else {
            spec_mds_pre_pads(front)
        });
        let lpos1 = lpos + (if kind == ArchiveKind::AixBig {
            last.pre_head_pad_size as int
        } else {
            0int
        });
        assert(spec_symtab_body(kind, mds, pos, is_64) =~= spec_symtab_body(
            kind,
            front,
            pos,
            is_64,
        ) + (if kind == ArchiveKind::AixBig && last.is_64 != is_64 {
            Seq::<u8>::empty()
        } else {
            spec_sym_words(kind, last.symbols, lpos1)
        }));
    }
}

/// Emits a symbol table: on an empty name stream only Darwin and COFF still
/// get one.  `members_offset` is where the first member's bytes begin, `pos`
/// where this table's own header begins.
#[verifier::rlimit(100)]
#[verifier::spinoff_prover]
pub fn write_symbol_table(
    w: &mut Vec<u8>,
    kind: ArchiveKind,
    members: &Vec<crate::archive_writer::MemberData>,
    string_table: &[u8],
    members_offset: u64,
    num_syms: u64,
    prev_member_offset: u64,
    next_member_offset: u64,
    is_64_bit: bool,
    pos: u64,
)
    requires
        num_syms <= 0x0100_0000_0000_0000,
        string_table@.len() <= 0x1000_0000_0000_0000,
        members_offset + crate::archive_writer::spec_mds_size(
            crate::archive_writer::member_datas_view(members@),
        ) <= 0x7800_0000_0000_0000,
        pos + 80 <= u64::MAX,
        !spec_is_64bit_kind(kind) ==> members_offset + crate::archive_writer::spec_last_header_offset(
            crate::archive_writer::member_datas_view(members@),
        ) <= u32::MAX && (if spec_is_bsd_like(kind) {
            num_syms * 8 <= u32::MAX
        } else {
            num_syms <= u32::MAX
        }) && string_table@.len() <= u32::MAX && (forall|
            j: int,
        |
            0 <= j < members@.len() ==> (#[trigger] members@[j]@).pre_head_pad_size == 0),
        !spec_is_64bit_kind(kind) ==> forall|j: int, k: int|
            0 <= j < members@.len() && 0 <= k < members@[j]@.symbols.len() ==> #[trigger] (
            members@[j]@.symbols[k]) <= u32::MAX,
    ensures
        final(w)@ == old(w)@ + spec_symbol_table_bytes(
            kind,
            crate::archive_writer::member_datas_view(members@),
            string_table@,
            members_offset as int,
            num_syms as int,
            prev_member_offset as int,
            next_member_offset as int,
            pos as int,
            is_64_bit,
        ),
{
    let ghost mds = crate::archive_writer::member_datas_view(members@);
    proof {
        reveal(spec_symbol_table_bytes);
    }
    if string_table.len() == 0 && !crate::archive::is_darwin(kind) && !crate::archive::is_coff_archive(kind) {
        proof {
            assert(w@ =~= old(w)@ + spec_symbol_table_bytes(
                kind,
                mds,
                string_table@,
                members_offset as int,
                num_syms as int,
                prev_member_offset as int,
                next_member_offset as int,
                pos as int,
                is_64_bit,
            ));
        }
        return ;
    }
    let offset_size: u64 = if crate::archive::is_64bit_kind(kind) {
        8
    } else {
        4
    };
    let (size, pad) = compute_symbol_table_size_and_pad(
        kind,
        num_syms,
        offset_size,
        string_table.len() as u64,
    );
    write_symbol_table_header(w, kind, size, prev_member_offset, next_member_offset, pos);
    if crate::archive::is_bsd_like(kind) {
        print_n_bits(w, kind, num_syms * 2 * offset_size);
    } else {
        print_n_bits(w, kind, num_syms);
    }
    let ghost before_body = w@;
    let mut mpos: u64 = members_offset;
    let mut i: usize = 0;
    proof {
        lemma_symtab_body_split(kind, mds, members_offset as int, is_64_bit, 0);
        assert(mds.take(0) =~= Seq::<crate::archive_writer::MemberDataView>::empty());
        lemma_mds_size_take(mds, 0);
    }
    while i < members.len()
        invariant
            mds == crate::archive_writer::member_datas_view(members@),
            i <= members@.len(),
            members_offset + crate::archive_writer::spec_mds_size(mds) <= 0x7800_0000_0000_0000,
            !spec_is_64bit_kind(kind) ==> members_offset
                + crate::archive_writer::spec_last_header_offset(mds) <= u32::MAX && (forall|
                j: int,
            |
                0 <= j < members@.len() ==> (#[trigger] members@[j]@).pre_head_pad_size == 0),
            !spec_is_64bit_kind(kind) ==> forall|j: int, k: int|
                0 <= j < members@.len() && 0 <= k < members@[j]@.symbols.len() ==> #[trigger] (
                members@[j]@.symbols[k]) <= u32::MAX,
            mpos == members_offset + crate::archive_writer::spec_mds_size(mds.take(i as int)) - (
            if kind == ArchiveKind::AixBig {
                0int
            } else {
                spec_mds_pre_pads(mds.take(i as int))
            }),
            w@ == before_body + spec_symtab_body(kind, mds.take(i as int), members_offset as int, is_64_bit),
            spec_symtab_body(kind, mds, members_offset as int, is_64_bit) == spec_symtab_body(
                kind,
                mds.take(i as int),
                members_offset as int,
                is_64_bit,
            ) + spec_symtab_body(kind, mds.skip(i as int), mpos as int, is_64_bit),
        decreases members@.len() - i,
    {
        proof {
            lemma_mds_size_take(mds, i as int);
            lemma_mds_pre_pads_take(mds, i as int);
            lemma_symtab_body_split(kind, mds, members_offset as int, is_64_bit, i as int);
            lemma_symtab_body_split(kind, mds, members_offset as int, is_64_bit, i as int + 1);
            assert(mds.skip(i as int)[0] == mds[i as int]);
        }
        let m = &members[i];
        proof {
            lemma_take_one_more(mds, i as int);
            lemma_mds_size_take(mds, i as int + 1);
            lemma_mds_pre_pads_take(mds, i as int + 1);
            assert(crate::archive_writer::spec_md_size(mds[i as int])
                <= crate::archive_writer::spec_mds_size(mds));
            lemma_symtab_body_snoc(kind, mds.take(i as int + 1), members_offset as int, is_64_bit);
            assert(mds.take(i as int + 1).drop_last() =~= mds.take(i as int));
            assert(mds.take(i as int + 1).last() == mds[i as int]);
        }
        if crate::archive::is_aix_big_archive(kind) {
            mpos = mpos + m.pre_head_pad_size;
            if m.is_64_bit_object_file != is_64_bit {
                mpos = mpos + m.header.len() as u64 + m.data.len() as u64
                    + m.padding.len() as u64;
                i += 1;
                continue ;
            }
        }
        proof {
            if !spec_is_64bit_kind(kind) {
                lemma_start_below_last(mds, i as int);
            }
        }
        write_member_sym_words(w, kind, &m.symbols, mpos);
        proof {
            assert(w@ =~= before_body + spec_symtab_body(
                kind,
                mds.take(i as int + 1),
                members_offset as int,
                is_64_bit,
            ));
        }
        mpos = mpos + m.header.len() as u64 + m.data.len() as u64 + m.padding.len() as u64;
        i += 1;
    }
    proof {
        assert(mds.take(members@.len() as int) =~= mds);
        assert(w@ == before_body + spec_symtab_body(kind, mds, members_offset as int, is_64_bit));
    }
    if crate::archive::is_bsd_like(kind) {
        print_n_bits(w, kind, string_table.len() as u64);
    }
    w.extend_from_slice(string_table);
    let ghost before_pad = w@;
    let mut z: u64 = 0;
    while z < pad
        invariant
            z <= pad,
            w@ == before_pad + spec_zeros(z as nat),
        decreases pad - z,
    {
        w.push(0);
        proof {
            assert(w@ =~= before_pad + spec_zeros((z + 1) as nat));
        }
        z += 1;
    }
    proof {
        assert(w@ =~= old(w)@ + spec_symbol_table_bytes(
            kind,
            mds,
            string_table@,
            members_offset as int,
            num_syms as int,
            prev_member_offset as int,
            next_member_offset as int,
            pos as int,
            is_64_bit,
        ));
    }
}

/// A prefix one longer pins the pre-pad sums too.
proof fn lemma_take_one_more(mds: Seq<crate::archive_writer::MemberDataView>, i: int)
    requires
        0 <= i < mds.len(),
    ensures
        spec_mds_pre_pads(mds.take(i + 1)) == spec_mds_pre_pads(mds.take(i))
            + mds[i].pre_head_pad_size,
        crate::archive_writer::spec_mds_size(mds.take(i + 1))
            == crate::archive_writer::spec_mds_size(mds.take(i))
            + crate::archive_writer::spec_md_size(mds[i]),
{
    assert(mds.take(i + 1) =~= mds.take(i).push(mds[i]));
    lemma_mds_pre_pads_snoc(mds.take(i), mds[i]);
    crate::archive_writer::lemma_mds_size_snoc(mds.take(i), mds[i]);
}

/// Partial pre-pad sums are bounded by the member sizes.
proof fn lemma_mds_pre_pads_take(mds: Seq<crate::archive_writer::MemberDataView>, i: int)
    requires
        0 <= i <= mds.len(),
    ensures
        0 <= spec_mds_pre_pads(mds.take(i)) <= crate::archive_writer::spec_mds_size(mds.take(i)),
    decreases i,
{
    if i > 0 {
        lemma_mds_pre_pads_take(mds, i - 1);
        lemma_take_one_more(mds, i - 1);
    } else {
        assert(mds.take(0) =~= Seq::<crate::archive_writer::MemberDataView>::empty());
    }
}

/// The member-offset words of the COFF symbol map.
pub open spec fn spec_map_member_offsets(
    mds: Seq<crate::archive_writer::MemberDataView>,
    pos: int,
) -> Seq<u8>
    decreases mds.len(),
{
    if mds.len() == 0 {
        Seq::empty()
    } else {
        crate::numfmt::spec_le_bytes(pos as nat, 4) + spec_map_member_offsets(
            mds.drop_first(),
            pos + spec_md_parts(mds[0]),
        )
    }
}

/// The 16-bit member-index words of a map, in key order.
pub open spec fn spec_map_values_words(m: Seq<(Seq<u8>, u16)>) -> Seq<u8>
    decreases m.len(),
{
    if m.len() == 0 {
        Seq::empty()
    } else {
        crate::numfmt::spec_le_bytes(m[0].1 as nat, 2) + spec_map_values_words(m.drop_first())
    }
}

/// The NUL-terminated key strings of a map, in key order.
pub open spec fn spec_map_keys_bytes(m: Seq<(Seq<u8>, u16)>) -> Seq<u8>
    decreases m.len(),
{
    if m.len() == 0 {
        Seq::empty()
    } else {
        m[0].0 + seq![0u8] + spec_map_keys_bytes(m.drop_first())
    }
}

/// The COFF symbol map member: its header, the member count and offsets,
/// the symbol count, the index words, the key strings, and the pad.
#[verifier::opaque]
pub open spec fn spec_symbol_map_bytes(
    kind: ArchiveKind,
    mds: Seq<crate::archive_writer::MemberDataView>,
    m: Seq<(Seq<u8>, u16)>,
    members_offset: int,
) -> Seq<u8> {
    let size = spec_symbol_map_size(mds.len(), m);
    let pad = spec_symbol_map_pad(mds.len(), m);
    spec_symbol_table_header(kind, size, 0, 0, 0) + crate::numfmt::spec_le_bytes(mds.len(), 4)
        + spec_map_member_offsets(mds, members_offset) + crate::numfmt::spec_le_bytes(m.len(), 4)
        + spec_map_values_words(m) + spec_map_keys_bytes(m) + spec_zeros(pad)
}

/// The EC symbols member: its header, the symbol count, the index words,
/// the key strings, and the pad.
#[verifier::opaque]
pub open spec fn spec_ec_symbols_bytes(m: Seq<(Seq<u8>, u16)>) -> Seq<u8> {
    let size = spec_ec_symbols_size(m);
    let pad = spec_ec_symbols_pad(m);
    crate::member_header::spec_gnu_small_header(spec_ecsymbols_name(), 0, 0, 0, 0, size)
        + crate::numfmt::spec_le_bytes(m.len(), 4) + spec_map_values_words(m)
        + spec_map_keys_bytes(m) + spec_zeros(pad)
}

/// Map sums and byte runs split off their last entry.
proof fn lemma_map_words_snoc(m: Seq<(Seq<u8>, u16)>)
    requires
        m.len() > 0,
    ensures
        spec_map_values_words(m) == spec_map_values_words(m.drop_last())
            + crate::numfmt::spec_le_bytes(m.last().1 as nat, 2),
        spec_map_keys_bytes(m) == spec_map_keys_bytes(m.drop_last()) + m.last().0 + seq![0u8],
    decreases m.len(),
{
    reveal_with_fuel(spec_map_values_words, 3);
    reveal_with_fuel(spec_map_keys_bytes, 3);
    if m.len() == 1 {
        assert(m.drop_last() =~= Seq::<(Seq<u8>, u16)>::empty());
        assert(m.drop_first() =~= Seq::<(Seq<u8>, u16)>::empty());
        assert(spec_map_values_words(m) =~= spec_map_values_words(m.drop_last())
            + crate::numfmt::spec_le_bytes(m.last().1 as nat, 2));
        assert(spec_map_keys_bytes(m) =~= spec_map_keys_bytes(m.drop_last()) + m.last().0 + seq![
            0u8,
        ]);
    } else {
        lemma_map_words_snoc(m.drop_first());
        assert(m.drop_last().drop_first() =~= m.drop_first().drop_last());
        assert(m.drop_first().last() == m.last());
        assert(spec_map_values_words(m) =~= spec_map_values_words(m.drop_last())
            + crate::numfmt::spec_le_bytes(m.last().1 as nat, 2));
        assert(spec_map_keys_bytes(m) =~= spec_map_keys_bytes(m.drop_last()) + m.last().0 + seq![
            0u8,
        ]);
    }
}

/// Emits the index words of a map in key order.
fn write_map_values(w: &mut Vec<u8>, entries: &Vec<(Vec<u8>, u16)>)
    ensures
        final(w)@ == old(w)@ + spec_map_values_words(map_entries_view(entries@)),
{
    let ghost m = map_entries_view(entries@);
    let mut i: usize = 0;
    proof {
        assert(m.take(0) =~= Seq::<(Seq<u8>, u16)>::empty());
    }
    while i < entries.len()
        invariant
            m == map_entries_view(entries@),
            i <= entries@.len(),
            w@ == old(w)@ + spec_map_values_words(m.take(i as int)),
        decreases entries@.len() - i,
    {
        crate::numfmt::push_le_bytes(w, entries[i].1 as u64, 2);
        proof {
            assert(m.take(i as int + 1).drop_last() =~= m.take(i as int));
            lemma_map_words_snoc(m.take(i as int + 1));
            assert(w@ =~= old(w)@ + spec_map_values_words(m.take(i as int + 1)));
        }
        i += 1;
    }
    proof {
        assert(m.take(entries@.len() as int) =~= m);
    }
}

/// Emits the NUL-terminated key strings of a map in key order.
fn write_map_keys(w: &mut Vec<u8>, entries: &Vec<(Vec<u8>, u16)>)
    ensures
        final(w)@ == old(w)@ + spec_map_keys_bytes(map_entries_view(entries@)),
{
    let ghost m = map_entries_view(entries@);
    let mut i: usize = 0;
    proof {
        assert(m.take(0) =~= Seq::<(Seq<u8>, u16)>::empty());
    }
    while i < entries.len()
        invariant
            m == map_entries_view(entries@),
            i <= entries@.len(),
            w@ == old(w)@ + spec_map_keys_bytes(m.take(i as int)),
        decreases entries@.len() - i,
    {
        w.extend_from_slice(entries[i].0.as_slice());
        w.push(0);
        proof {
            assert(m.take(i as int + 1).drop_last() =~= m.take(i as int));
            lemma_map_words_snoc(m.take(i as int + 1));
            assert(w@ =~= old(w)@ + spec_map_keys_bytes(m.take(i as int + 1)));
        }
        i += 1;
    }
    proof {
        assert(m.take(entries@.len() as int) =~= m);
    }
}

/// Appends `n` NUL bytes.
pub fn push_zeros(w: &mut Vec<u8>, n: u64)
    ensures
        final(w)@ == old(w)@ + spec_zeros(n as nat),
{
    let mut z: u64 = 0;
    while z < n
        invariant
            z <= n,
            w@ == old(w)@ + spec_zeros(z as nat),
        decreases n - z,
    {
        w.push(0);
        proof {
            assert(w@ =~= old(w)@ + spec_zeros((z + 1) as nat));
        }
        z += 1;
    }
    proof {
        assert(w@ =~= old(w)@ + spec_zeros(n as nat));
    }
}

/// Emits the COFF symbol map member.
#[verifier::rlimit(100)]
#[verifier::spinoff_prover]
pub fn write_symbol_map(
    w: &mut Vec<u8>,
    kind: ArchiveKind,
    members: &Vec<crate::archive_writer::MemberData>,
    sym_map: &SymMap,
    members_offset: u64,
)
    requires
        spec_map_entry_bytes(map_entries_view(sym_map.map@)) <= 0x1000_0000_0000_0000,
        members@.len() <= 0x0010_0000_0000,
        sym_map.map@.len() <= u32::MAX,
        members_offset + crate::archive_writer::spec_mds_size(
            crate::archive_writer::member_datas_view(members@),
        ) <= 0x7800_0000_0000_0000,
    ensures
        final(w)@ == old(w)@ + spec_symbol_map_bytes(
            kind,
            crate::archive_writer::member_datas_view(members@),
            map_entries_view(sym_map.map@),
            members_offset as int,
        ),
{
    let ghost mds = crate::archive_writer::member_datas_view(members@);
    let ghost m = map_entries_view(sym_map.map@);
    proof {
        reveal(spec_symbol_map_bytes);
    }
    let (size, _pad) = compute_symbol_map_size_and_pad(members.len(), sym_map);
    write_symbol_table_header(w, kind, size, 0, 0, 0);
    crate::numfmt::push_le_bytes(w, members.len() as u64, 4);
    let ghost before_offsets = w@;
    let mut pos: u64 = members_offset;
    let mut i: usize = 0;
    proof {
        assert(mds.take(0) =~= Seq::<crate::archive_writer::MemberDataView>::empty());
        lemma_map_offsets_split(mds, members_offset as int, 0);
        lemma_mds_size_take(mds, 0);
        lemma_mds_parts_pre_zero(mds, 0);
    }
    while i < members.len()
        invariant
            mds == crate::archive_writer::member_datas_view(members@),
            i <= members@.len(),
            members_offset + crate::archive_writer::spec_mds_size(mds) <= 0x7800_0000_0000_0000,
            pos == members_offset + spec_mds_parts_sum(mds.take(i as int)),
            spec_mds_parts_sum(mds.take(i as int)) <= crate::archive_writer::spec_mds_size(mds),
            w@ == before_offsets + spec_map_member_offsets(mds.take(i as int), members_offset as int),
        decreases members@.len() - i,
    {
        proof {
            lemma_mds_size_take(mds, i as int);
            lemma_take_one_more(mds, i as int);
            lemma_mds_parts_pre_zero(mds, i as int + 1);
            lemma_mds_size_take(mds, i as int + 1);
            lemma_map_offsets_snoc(mds.take(i as int + 1), members_offset as int);
            assert(mds.take(i as int + 1).drop_last() =~= mds.take(i as int));
            assert(mds.take(i as int + 1).last() == mds[i as int]);
        }
        let mbr = &members[i];
        crate::numfmt::push_le_bytes(w, pos, 4);
        pos = pos + mbr.header.len() as u64 + mbr.data.len() as u64 + mbr.padding.len() as u64;
        proof {
            assert(w@ =~= before_offsets + spec_map_member_offsets(
                mds.take(i as int + 1),
                members_offset as int,
            ));
        }
        i += 1;
    }
    proof {
        assert(mds.take(members@.len() as int) =~= mds);
    }
    crate::numfmt::push_le_bytes(w, sym_map.map.len() as u64, 4);
    write_map_values(w, &sym_map.map);
    write_map_keys(w, &sym_map.map);
    let (size2, pad) = compute_symbol_map_size_and_pad(members.len(), sym_map);
    push_zeros(w, pad);
    proof {
        assert(w@ =~= old(w)@ + spec_symbol_map_bytes(kind, mds, m, members_offset as int));
    }
}

/// The parts sum (without pre-pads) of a member list.
pub open spec fn spec_mds_parts_sum(mds: Seq<crate::archive_writer::MemberDataView>) -> int
    decreases mds.len(),
{
    if mds.len() == 0 {
        0
    } else {
        spec_md_parts(mds[0]) + spec_mds_parts_sum(mds.drop_first())
    }
}

/// With zero pre-pads, parts sums equal sizes.
proof fn lemma_mds_parts_pre_zero(mds: Seq<crate::archive_writer::MemberDataView>, i: int)
    requires
        0 <= i <= mds.len(),
    ensures
        spec_mds_parts_sum(mds.take(i)) <= crate::archive_writer::spec_mds_size(mds.take(i)),
        0 <= spec_mds_parts_sum(mds.take(i)),
        i > 0 ==> spec_mds_parts_sum(mds.take(i)) == spec_mds_parts_sum(mds.take(i - 1))
            + spec_md_parts(mds[i - 1]),
    decreases i,
{
    if i == 0 {
        assert(mds.take(0) =~= Seq::<crate::archive_writer::MemberDataView>::empty());
    } else {
        lemma_mds_parts_pre_zero(mds, i - 1);
        assert(mds.take(i) =~= mds.take(i - 1).push(mds[i - 1]));
        lemma_mds_parts_snoc_pub(mds.take(i - 1), mds[i - 1]);
        crate::archive_writer::lemma_mds_size_snoc(mds.take(i - 1), mds[i - 1]);
    }
}

/// Parts sums split off their last member.
pub proof fn lemma_mds_parts_snoc_pub(
    mds: Seq<crate::archive_writer::MemberDataView>,
    md: crate::archive_writer::MemberDataView,
)
    ensures
        spec_mds_parts_sum(mds.push(md)) == spec_mds_parts_sum(mds) + spec_md_parts(md),
    decreases mds.len(),
{
    reveal_with_fuel(spec_mds_parts_sum, 3);
    if mds.len() == 0 {
        assert(mds.push(md).drop_first() =~= Seq::<crate::archive_writer::MemberDataView>::empty());
        assert(mds.push(md)[0] == md);
    } else {
        lemma_mds_parts_snoc_pub(mds.drop_first(), md);
        assert(mds.push(md).drop_first() =~= mds.drop_first().push(md));
        assert(mds.push(md)[0] == mds[0]);
    }
}

/// The member-offset run splits at any position.
proof fn lemma_map_offsets_split(
    mds: Seq<crate::archive_writer::MemberDataView>,
    pos: int,
    i: int,
)
    requires
        0 <= i <= mds.len(),
    ensures
        spec_map_member_offsets(mds, pos) == spec_map_member_offsets(mds.take(i), pos)
            + spec_map_member_offsets(mds.skip(i), pos + spec_mds_parts_sum(mds.take(i))),
    decreases i,
{
    if i == 0 {
        assert(mds.take(0) =~= Seq::<crate::archive_writer::MemberDataView>::empty());
        assert(mds.skip(0) =~= mds);
        assert(spec_map_member_offsets(mds, pos) =~= spec_map_member_offsets(mds.take(0), pos)
            + spec_map_member_offsets(mds.skip(0), pos + spec_mds_parts_sum(mds.take(0))));
    } else {
        lemma_map_offsets_split(mds, pos, i - 1);
        lemma_mds_parts_pre_zero(mds, i);
        assert(mds.take(i) =~= mds.take(i - 1).push(mds[i - 1]));
        lemma_map_offsets_snoc(mds.take(i), pos);
        assert(mds.take(i).drop_last() =~= mds.take(i - 1));
        assert(mds.skip(i - 1)[0] == mds[i - 1]);
        assert(mds.skip(i - 1).drop_first() =~= mds.skip(i));
        lemma_mds_parts_snoc_pub(mds.take(i - 1), mds[i - 1]);
        assert(spec_map_member_offsets(mds, pos) =~= spec_map_member_offsets(mds.take(i), pos)
            + spec_map_member_offsets(mds.skip(i), pos + spec_mds_parts_sum(mds.take(i))));
    }
}

/// The member-offset run splits off its last member.
proof fn lemma_map_offsets_snoc(mds: Seq<crate::archive_writer::MemberDataView>, pos: int)
    requires
        mds.len() > 0,
    ensures
        spec_map_member_offsets(mds, pos) == spec_map_member_offsets(mds.drop_last(), pos)
            + crate::numfmt::spec_le_bytes(
            (pos + spec_mds_parts_sum(mds.drop_last())) as nat,
            4,
        ),
    decreases mds.len(),
{
    reveal_with_fuel(spec_map_member_offsets, 3);
    reveal_with_fuel(spec_mds_parts_sum, 3);
    if mds.len() == 1 {
        assert(mds.drop_last() =~= Seq::<crate::archive_writer::MemberDataView>::empty());
        assert(mds.drop_first() =~= Seq::<crate::archive_writer::MemberDataView>::empty());
        assert(spec_map_member_offsets(mds, pos) =~= spec_map_member_offsets(
            mds.drop_last(),
            pos,
        ) + crate::numfmt::spec_le_bytes((pos + spec_mds_parts_sum(mds.drop_last())) as nat, 4));
    } else {
        lemma_map_offsets_snoc(mds.drop_first(), pos + spec_md_parts(mds[0]));
        assert(mds.drop_last().drop_first() =~= mds.drop_first().drop_last());
        assert(mds.drop_last()[0] == mds[0]);
        assert(spec_mds_parts_sum(mds.drop_last()) == spec_md_parts(mds[0])
            + spec_mds_parts_sum(mds.drop_first().drop_last()));
        assert(spec_map_member_offsets(mds, pos) =~= spec_map_member_offsets(
            mds.drop_last(),
            pos,
        ) + crate::numfmt::spec_le_bytes((pos + spec_mds_parts_sum(mds.drop_last())) as nat, 4));
    }
}

/// Emits the EC symbols member.
#[verifier::rlimit(100)]
#[verifier::spinoff_prover]
pub fn write_ec_symbols(w: &mut Vec<u8>, sym_map: &SymMap)
    requires
        spec_map_entry_bytes(map_entries_view(sym_map.ec_map@)) <= 0x1000_0000_0000_0000,
        sym_map.ec_map@.len() <= u32::MAX,
    ensures
        final(w)@ == old(w)@ + spec_ec_symbols_bytes(map_entries_view(sym_map.ec_map@)),
{
    let ghost m = map_entries_view(sym_map.ec_map@);
    proof {
        reveal(spec_ec_symbols_bytes);
    }
    let (size, pad) = compute_ec_symbols_size_and_pad(sym_map);
    let name = ecsymbols_name();
    crate::member_header::print_gnu_small_member_header(
        w,
        name.as_slice(),
        crate::archive_writer::now(),
        0,
        0,
        0,
        size,
    );
    crate::numfmt::push_le_bytes(w, sym_map.ec_map.len() as u64, 4);
    write_map_values(w, &sym_map.ec_map);
    write_map_keys(w, &sym_map.ec_map);
    push_zeros(w, pad);
    proof {
        assert(w@ =~= old(w)@ + spec_ec_symbols_bytes(m));
    }
}

/// With no leading pads, every member starts at or before the last header.
proof fn lemma_start_below_last(mds: Seq<crate::archive_writer::MemberDataView>, i: int)
    requires
        0 <= i < mds.len(),
        forall|j: int| 0 <= j < mds.len() ==> (#[trigger] mds[j]).pre_head_pad_size == 0,
    ensures
        spec_mds_pre_pads(mds.take(i)) == 0,
        crate::archive_writer::spec_mds_size(mds.take(i))
            <= crate::archive_writer::spec_last_header_offset(mds),
    decreases mds.len() - i,
{
    lemma_pre_pads_zero(mds, i);
    if i + 1 == mds.len() {
        lemma_take_one_more(mds, i);
        assert(mds.take(i + 1) =~= mds);
        assert(crate::archive_writer::spec_md_size(mds[i]) >= crate::symtab::spec_md_parts(
            mds[i],
        ));
        assert(mds.last() == mds[i]);
    } else {
        lemma_start_below_last(mds, i + 1);
        lemma_take_one_more(mds, i);
        lemma_mds_size_nonneg(mds.take(i));
    }
}

/// With per-member zero pads, prefix pad sums vanish.
proof fn lemma_pre_pads_zero(mds: Seq<crate::archive_writer::MemberDataView>, i: int)
    requires
        0 <= i <= mds.len(),
        forall|j: int| 0 <= j < mds.len() ==> (#[trigger] mds[j]).pre_head_pad_size == 0,
    ensures
        spec_mds_pre_pads(mds.take(i)) == 0,
    decreases i,
{
    if i == 0 {
        assert(mds.take(0) =~= Seq::<crate::archive_writer::MemberDataView>::empty());
    } else {
        lemma_pre_pads_zero(mds, i - 1);
        lemma_take_one_more(mds, i - 1);
    }
}

/// Every map entry costs at least its index word and terminator: three
/// bytes.
pub proof fn lemma_map_len_le_bytes(m: Seq<(Seq<u8>, u16)>)
    ensures
        3 * m.len() <= spec_map_entry_bytes(m),
    decreases m.len(),
{
    if m.len() > 0 {
        lemma_map_len_le_bytes(m.drop_first());
    }
}

} // verus!
