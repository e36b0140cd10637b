//! The COFF symbol map: an association list from symbol name to 16-bit
//! member index, kept in strict lexicographic byte order.  The first writer
//! of a name wins; later insertions of the same name are ignored.

use vstd::prelude::*;

verus! {

/// Strict lexicographic order on byte strings: a proper prefix precedes its
/// extensions.
pub open spec fn lex_lt(a: Seq<u8>, b: Seq<u8>) -> bool
    decreases a.len(),
{
    if b.len() == 0 {
        false
    } else if a.len() == 0 {
        true
    } else if a[0] < b[0] {
        true
    } else if a[0] > b[0] {
        false
    } else {
        lex_lt(a.drop_first(), b.drop_first())
    }
}

/// The outcome of comparing two byte strings.
#[derive(Copy, Clone, PartialEq, Eq, Structural)]
pub enum BytesOrder {
    Lt,
    Eq,
    Gt,
}

/// Compares two byte strings in lexicographic order.
pub fn bytes_cmp(a: &[u8], b: &[u8]) -> (r: BytesOrder)
    ensures
        r == BytesOrder::Lt ==> lex_lt(a@, b@),
        r == BytesOrder::Eq ==> a@ == b@,
        r == BytesOrder::Gt ==> lex_lt(b@, a@),
{
    let mut i: usize = 0;
    while i < a.len() && i < b.len()
        invariant
            i <= a@.len(),
            i <= b@.len(),
            forall|j: int| 0 <= j < i ==> a@[j] == b@[j],
        decreases a@.len() - i,
    {
        if a[i] < b[i] {
            proof {
                lemma_lex_lt_from_diff(a@, b@, i as int);
            }
            return BytesOrder::Lt;
        }
        if a[i] > b[i] {
            proof {
                lemma_lex_lt_from_diff(b@, a@, i as int);
            }
            return BytesOrder::Gt;
        }
        i += 1;
    }
    if a.len() == b.len() {
        proof {
            assert(a@ =~= b@);
        }
        BytesOrder::Eq
    } else if a.len() < b.len() {
        proof {
            lemma_lex_lt_from_prefix(a@, b@);
        }
        BytesOrder::Lt
    } else {
        proof {
            lemma_lex_lt_from_prefix(b@, a@);
        }
        BytesOrder::Gt
    }
}

/// A difference at position `i` after a common prefix decides the order.
proof fn lemma_lex_lt_from_diff(a: Seq<u8>, b: Seq<u8>, i: int)
    requires
        0 <= i < a.len(),
        i < b.len(),
        forall|j: int| 0 <= j < i ==> a[j] == b[j],
        a[i] < b[i],
    ensures
        lex_lt(a, b),
    decreases i,
{
    if i > 0 {
        lemma_lex_lt_from_diff(a.drop_first(), b.drop_first(), i - 1);
    }
}

/// A proper prefix precedes its extensions.
proof fn lemma_lex_lt_from_prefix(a: Seq<u8>, b: Seq<u8>)
    requires
        a.len() < b.len(),
        forall|j: int| 0 <= j < a.len() ==> a[j] == b[j],
    ensures
        lex_lt(a, b),
    decreases a.len(),
{
    if a.len() > 0 {
        lemma_lex_lt_from_prefix(a.drop_first(), b.drop_first());
    }
}

/// The ghost value of one map: the keyed pairs in storage order.
pub open spec fn map_entries_view(entries: Seq<(Vec<u8>, u16)>) -> Seq<(Seq<u8>, u16)> {
    entries.map_values(|e: (Vec<u8>, u16)| (e.0@, e.1))
}

/// Insertion that keeps the first writer: an existing key is left untouched,
/// a new key enters at its ordered position.
pub open spec fn spec_map_insert_keep(m: Seq<(Seq<u8>, u16)>, k: Seq<u8>, v: u16) -> Seq<
    (Seq<u8>, u16),
>
    decreases m.len(),
{
    if m.len() == 0 {
        seq![(k, v)]
    } else if lex_lt(k, m[0].0) {
        seq![(k, v)] + m
    } else if k == m[0].0 {
        m
    } else {
        seq![m[0]] + spec_map_insert_keep(m.drop_first(), k, v)
    }
}

/// Insertion that overwrites: an existing key takes the new value, a new key
/// enters at its ordered position.
pub open spec fn spec_map_set(m: Seq<(Seq<u8>, u16)>, k: Seq<u8>, v: u16) -> Seq<(Seq<u8>, u16)>
    decreases m.len(),
{
    if m.len() == 0 {
        seq![(k, v)]
    } else if lex_lt(k, m[0].0) {
        seq![(k, v)] + m
    } else if k == m[0].0 {
        seq![(k, v)] + m.drop_first()
    } else {
        seq![m[0]] + spec_map_set(m.drop_first(), k, v)
    }
}

/// Strictly ascending keys: the storage order is the lexicographic order,
/// and every key appears once.
pub open spec fn spec_map_sorted(m: Seq<(Seq<u8>, u16)>) -> bool {
    forall|i: int, j: int| 0 <= i < j < m.len() ==> lex_lt(#[trigger] m[i].0, #[trigger] m[j].0)
}

/// An ordered mapping from symbol name to 16-bit member index, with a
/// parallel map for EC symbols, used when writing COFF archives.
pub struct SymMap {
    /// Route symbols of EC object files to `ec_map` instead of `map`.
    pub use_ec_map: bool,
    /// Name-to-member-index entries in lexicographic name order.
    pub map: Vec<(Vec<u8>, u16)>,
    /// EC entries in lexicographic name order.
    pub ec_map: Vec<(Vec<u8>, u16)>,
}

impl SymMap {
    /// An empty symbol map.
    pub fn new(use_ec_map: bool) -> (r: SymMap)
        ensures
            r.use_ec_map == use_ec_map,
            map_entries_view(r.map@) =~= Seq::<(Seq<u8>, u16)>::empty(),
            map_entries_view(r.ec_map@) =~= Seq::<(Seq<u8>, u16)>::empty(),
    {
        SymMap { use_ec_map, map: Vec::new(), ec_map: Vec::new() }
    }
}

/// Inserts `(k, v)` keeping any earlier entry for `k`; reports whether the
/// key was new.
pub fn map_insert_keep(entries: &mut Vec<(Vec<u8>, u16)>, k: &Vec<u8>, v: u16) -> (inserted: bool)
    ensures
        map_entries_view(final(entries)@) == spec_map_insert_keep(
            map_entries_view(old(entries)@),
            k@,
            v,
        ),
        inserted == !spec_map_contains_prefixed(map_entries_view(old(entries)@), k@),
{
    let ghost m0 = map_entries_view(entries@);
    proof {
        assert(m0.skip(0) =~= m0);
        assert(m0.take(0) + spec_map_insert_keep(m0, k@, v) =~= spec_map_insert_keep(m0, k@, v));
    }
    let mut i: usize = 0;
    loop
        invariant
            m0 == map_entries_view(old(entries)@),
            i <= entries@.len(),
            map_entries_view(entries@) == m0,
            spec_map_insert_keep(m0, k@, v) == m0.take(i as int) + spec_map_insert_keep(
                m0.skip(i as int),
                k@,
                v,
            ),
            spec_map_contains_prefixed(m0, k@) == spec_map_contains_prefixed(
                m0.skip(i as int),
                k@,
            ),
        decreases entries@.len() - i,
    {
        if i == entries.len() {
            entries.push((clone_bytes(k), v));
            proof {
                assert(m0.skip(i as int) =~= Seq::<(Seq<u8>, u16)>::empty());
                assert(map_entries_view(entries@) =~= m0 + seq![(k@, v)]);
                assert(m0.take(i as int) =~= m0);
            }
            return true;
        }
        let ord = bytes_cmp(entries[i].0.as_slice(), k.as_slice());
        proof {
            assert(m0.skip(i as int)[0] == m0[i as int]);
            assert(m0.skip(i as int).drop_first() =~= m0.skip(i as int + 1));
            if lex_lt(entries@[i as int].0@, k@) {
                lemma_lex_asym(entries@[i as int].0@, k@);
            }
            if lex_lt(k@, entries@[i as int].0@) {
                lemma_lex_asym(k@, entries@[i as int].0@);
            }
        }
        match ord {
            BytesOrder::Gt => {
                // The key precedes this entry: it enters here.
                entries.insert(i, (clone_bytes(k), v));
                proof {
                    assert(map_entries_view(entries@) =~= m0.take(i as int) + (seq![(k@, v)]
                        + m0.skip(i as int)));
                }
                return true;
            },
            BytesOrder::Eq => {
                proof {
                    assert(spec_map_insert_keep(m0.skip(i as int), k@, v) =~= m0.skip(i as int));
                    assert(m0.take(i as int) + m0.skip(i as int) =~= m0);
                }
                return false;
            },
            BytesOrder::Lt => {
                proof {
                    assert(m0.take(i as int).push(m0[i as int]) =~= m0.take(i as int + 1));
                    assert(m0.take(i as int) + (seq![m0[i as int]] + spec_map_insert_keep(
                        m0.skip(i as int + 1),
                        k@,
                        v,
                    )) =~= m0.take(i as int + 1) + spec_map_insert_keep(
                        m0.skip(i as int + 1),
                        k@,
                        v,
                    ));
                }
                i += 1;
            },
        }
    }
}

/// Whether `k` is reached by the ordered scan: in a sorted map this is plain
/// membership, and it is the exact condition the insertion scan tests.
pub open spec fn spec_map_contains_prefixed(m: Seq<(Seq<u8>, u16)>, k: Seq<u8>) -> bool
    decreases m.len(),
{
    if m.len() == 0 {
        false
    } else if lex_lt(k, m[0].0) {
        false
    } else if k == m[0].0 {
        true
    } else {
        spec_map_contains_prefixed(m.drop_first(), k)
    }
}

/// Inserts `(k, v)`, overwriting any earlier entry for `k`.
pub fn map_set(entries: &mut Vec<(Vec<u8>, u16)>, k: &Vec<u8>, v: u16)
    ensures
        map_entries_view(final(entries)@) == spec_map_set(map_entries_view(old(entries)@), k@, v),
{
    let ghost m0 = map_entries_view(entries@);
    proof {
        assert(m0.skip(0) =~= m0);
        assert(m0.take(0) + spec_map_set(m0, k@, v) =~= spec_map_set(m0, k@, v));
    }
    let mut i: usize = 0;
    loop
        invariant
            m0 == map_entries_view(old(entries)@),
            i <= entries@.len(),
            map_entries_view(entries@) == m0,
            spec_map_set(m0, k@, v) == m0.take(i as int) + spec_map_set(m0.skip(i as int), k@, v),
        decreases entries@.len() - i,
    {
        if i == entries.len() {
            entries.push((clone_bytes(k), v));
            proof {
                assert(m0.skip(i as int) =~= Seq::<(Seq<u8>, u16)>::empty());
                assert(map_entries_view(entries@) =~= m0 + seq![(k@, v)]);
                assert(m0.take(i as int) =~= m0);
            }
            return ;
        }
        let ord = bytes_cmp(entries[i].0.as_slice(), k.as_slice());
        proof {
            assert(m0.skip(i as int)[0] == m0[i as int]);
            assert(m0.skip(i as int).drop_first() =~= m0.skip(i as int + 1));
            if lex_lt(entries@[i as int].0@, k@) {
                lemma_lex_asym(entries@[i as int].0@, k@);
            }
            if lex_lt(k@, entries@[i as int].0@) {
                lemma_lex_asym(k@, entries@[i as int].0@);
            }
        }
        match ord {
            BytesOrder::Gt => {
                entries.insert(i, (clone_bytes(k), v));
                proof {
                    assert(map_entries_view(entries@) =~= m0.take(i as int) + (seq![(k@, v)]
                        + m0.skip(i as int)));
                }
                return ;
            },
            BytesOrder::Eq => {
                let ghost pre = entries@;
                entries.set(i, (clone_bytes(k), v));
                proof {
                    assert(map_entries_view(entries@) =~= m0.take(i as int) + (seq![(k@, v)]
                        + m0.skip(i as int).drop_first()));
                }
                return ;
            },
            BytesOrder::Lt => {
                proof {
                    assert(m0.take(i as int).push(m0[i as int]) =~= m0.take(i as int + 1));
                    assert(m0.take(i as int) + (seq![m0[i as int]] + spec_map_set(
                        m0.skip(i as int + 1),
                        k@,
                        v,
                    )) =~= m0.take(i as int + 1) + spec_map_set(m0.skip(i as int + 1), k@, v));
                }
                i += 1;
            },
        }
    }
}

/// A copy of a byte string.
pub fn clone_bytes(v: &Vec<u8>) -> (r: Vec<u8>)
    ensures
        r@ == v@,
{
    let mut r: Vec<u8> = Vec::new();
    let mut i: usize = 0;
    while i < v.len()
        invariant
            i <= v@.len(),
            r@ == v@.take(i as int),
        decreases v@.len() - i,
    {
        r.push(v[i]);
        proof {
            assert(r@ =~= v@.take(i as int + 1));
        }
        i += 1;
    }
    proof {
        assert(r@ =~= v@);
    }
    r
}

/// Keeping the first writer preserves the lexicographic order of the keys,
/// so map iteration stays in that order after any insertion.
pub proof fn lemma_map_insert_keep_sorted(m: Seq<(Seq<u8>, u16)>, k: Seq<u8>, v: u16)
    requires
        spec_map_sorted(m),
    ensures
        spec_map_sorted(spec_map_insert_keep(m, k, v)),
    decreases m.len(),
{
    lemma_lex_total(k, if m.len() > 0 {
        m[0].0
    } else {
        k
    });
    if m.len() == 0 {
    } else if lex_lt(k, m[0].0) {
        let r = seq![(k, v)] + m;
        assert forall|i: int, j: int| 0 <= i < j < r.len() implies lex_lt(
            #[trigger] r[i].0,
            #[trigger] r[j].0,
        ) by {
            if i > 0 {
                assert(r[i] == m[i - 1]);
                assert(r[j] == m[j - 1]);
            } else if j > 1 {
                lemma_lex_lt_trans(k, m[0].0, m[j - 1].0);
            }
        }
    } else if k == m[0].0 {
    } else {
        let tail = m.drop_first();
        assert(spec_map_sorted(tail)) by {
            assert(forall|i: int, j: int|
                0 <= i < j < tail.len() ==> tail[i] == m[i + 1] && tail[j] == m[j + 1]);
        }
        lemma_map_insert_keep_sorted(tail, k, v);
        let rt = spec_map_insert_keep(tail, k, v);
        let r = seq![m[0]] + rt;
        lemma_map_insert_keep_members(tail, k, v);
        assert(!lex_lt(k, m[0].0) && k != m[0].0);
        assert(lex_lt(m[0].0, k)) by {
            lemma_lex_total(m[0].0, k);
        }
        assert forall|i: int, j: int| 0 <= i < j < r.len() implies lex_lt(
            #[trigger] r[i].0,
            #[trigger] r[j].0,
        ) by {
            if i > 0 {
                assert(r[i] == rt[i - 1] && r[j] == rt[j - 1]);
            } else {
                assert(r[j] == rt[j - 1]);
                if rt[j - 1].0 == k {
                } else {
                    let idx = choose|idx: int|
                        0 <= idx < tail.len() && tail[idx] == rt[j - 1];
                    assert(lex_lt(m[0].0, tail[idx].0));
                }
            }
        }
    }
}

/// Every entry of an insertion result is the new pair or one of the old
/// entries.
proof fn lemma_map_insert_keep_members(m: Seq<(Seq<u8>, u16)>, k: Seq<u8>, v: u16)
    ensures
        forall|j: int|
            0 <= j < spec_map_insert_keep(m, k, v).len() ==> (#[trigger] spec_map_insert_keep(
                m,
                k,
                v,
            )[j]).0 == k || exists|idx: int|
                0 <= idx < m.len() && m[idx] == spec_map_insert_keep(m, k, v)[j],
    decreases m.len(),
{
    if m.len() == 0 {
    } else if lex_lt(k, m[0].0) {
    } else if k == m[0].0 {
    } else {
        lemma_map_insert_keep_members(m.drop_first(), k, v);
        let r = spec_map_insert_keep(m, k, v);
        let rt = spec_map_insert_keep(m.drop_first(), k, v);
        assert forall|j: int| 0 <= j < r.len() implies (#[trigger] r[j]).0 == k || exists|idx: int|
            0 <= idx < m.len() && m[idx] == r[j] by {
            if j == 0 {
                assert(m[0] == r[0]);
            } else {
                assert(r[j] == rt[j - 1]);
                if rt[j - 1].0 != k {
                    let idx = choose|idx: int|
                        0 <= idx < m.drop_first().len() && m.drop_first()[idx] == rt[j - 1];
                    assert(m[idx + 1] == rt[j - 1]);
                }
            }
        }
    }
}

/// The lexicographic order is total: two distinct byte strings compare.
pub proof fn lemma_lex_total(a: Seq<u8>, b: Seq<u8>)
    ensures
        lex_lt(a, b) || lex_lt(b, a) || a == b,
    decreases a.len(),
{
    if a.len() > 0 && b.len() > 0 && a[0] == b[0] {
        lemma_lex_total(a.drop_first(), b.drop_first());
        if a.drop_first() == b.drop_first() {
            assert(a =~= seq![a[0]] + a.drop_first());
            assert(b =~= seq![b[0]] + b.drop_first());
        }
    } else if a.len() == 0 && b.len() == 0 {
        assert(a =~= b);
    }
}

/// Inserting a key that the ordered scan already finds leaves the map
/// unchanged: the first writer of a name wins.
pub proof fn lemma_insert_keep_contained(m: Seq<(Seq<u8>, u16)>, k: Seq<u8>, v: u16)
    requires
        spec_map_contains_prefixed(m, k),
    ensures
        spec_map_insert_keep(m, k, v) == m,
    decreases m.len(),
{
    if m.len() == 0 {
    } else if lex_lt(k, m[0].0) {
    } else if k == m[0].0 {
    } else {
        lemma_insert_keep_contained(m.drop_first(), k, v);
        assert(seq![m[0]] + m.drop_first() =~= m);
    }
}

/// The lexicographic order is asymmetric, so in particular irreflexive.
pub proof fn lemma_lex_asym(a: Seq<u8>, b: Seq<u8>)
    requires
        lex_lt(a, b),
    ensures
        !lex_lt(b, a),
        a != b,
    decreases a.len(),
{
    if b.len() == 0 {
    } else if a.len() == 0 {
    } else if a[0] < b[0] {
    } else if a[0] > b[0] {
    } else {
        lemma_lex_asym(a.drop_first(), b.drop_first());
        if a == b {
            assert(a.drop_first() =~= b.drop_first());
        }
    }
}

/// The lexicographic order is transitive.
pub proof fn lemma_lex_lt_trans(a: Seq<u8>, b: Seq<u8>, c: Seq<u8>)
    requires
        lex_lt(a, b),
        lex_lt(b, c),
    ensures
        lex_lt(a, c),
    decreases a.len() + b.len() + c.len(),
{
    if a.len() > 0 && b.len() > 0 && c.len() > 0 && a[0] == b[0] && b[0] == c[0] {
        lemma_lex_lt_trans(a.drop_first(), b.drop_first(), c.drop_first());
    }
}

/// Ordered insertion grows the entry-byte total by at most the new entry.
pub proof fn lemma_insert_keep_entry_bytes(m: Seq<(Seq<u8>, u16)>, k: Seq<u8>, v: u16)
    ensures
        crate::symtab::spec_map_entry_bytes(spec_map_insert_keep(m, k, v))
            <= crate::symtab::spec_map_entry_bytes(m) + 3 + k.len(),
        crate::symtab::spec_map_entry_bytes(spec_map_insert_keep(m, k, v))
            >= crate::symtab::spec_map_entry_bytes(m),
    decreases m.len(),
{
    reveal_with_fuel(crate::symtab::spec_map_entry_bytes, 3);
    if m.len() == 0 {
        assert(spec_map_insert_keep(m, k, v).drop_first() =~= Seq::<(Seq<u8>, u16)>::empty());
    } else if lex_lt(k, m[0].0) {
        assert(spec_map_insert_keep(m, k, v).drop_first() =~= m);
    } else if k == m[0].0 {
    } else {
        lemma_insert_keep_entry_bytes(m.drop_first(), k, v);
        assert(spec_map_insert_keep(m, k, v).drop_first() =~= spec_map_insert_keep(
            m.drop_first(),
            k,
            v,
        ));
        assert(spec_map_insert_keep(m, k, v)[0] == m[0]);
    }
}

/// Overwriting insertion grows the entry-byte total by at most the new
/// entry.
pub proof fn lemma_set_entry_bytes(m: Seq<(Seq<u8>, u16)>, k: Seq<u8>, v: u16)
    ensures
        crate::symtab::spec_map_entry_bytes(spec_map_set(m, k, v))
            <= crate::symtab::spec_map_entry_bytes(m) + 3 + k.len(),
    decreases m.len(),
{
    reveal_with_fuel(crate::symtab::spec_map_entry_bytes, 3);
    lemma_entry_bytes_nonneg(m);
    if m.len() == 0 {
        assert(spec_map_set(m, k, v).drop_first() =~= Seq::<(Seq<u8>, u16)>::empty());
    } else if lex_lt(k, m[0].0) {
        assert(spec_map_set(m, k, v).drop_first() =~= m);
    } else if k == m[0].0 {
        assert(spec_map_set(m, k, v).drop_first() =~= m.drop_first());
        assert(spec_map_set(m, k, v)[0] == (k, v));
        lemma_entry_bytes_nonneg(m.drop_first());
    } else {
        lemma_set_entry_bytes(m.drop_first(), k, v);
        assert(spec_map_set(m, k, v).drop_first() =~= spec_map_set(m.drop_first(), k, v));
        assert(spec_map_set(m, k, v)[0] == m[0]);
    }
}

/// Entry-byte totals are nonnegative.
pub proof fn lemma_entry_bytes_nonneg(m: Seq<(Seq<u8>, u16)>)
    ensures
        crate::symtab::spec_map_entry_bytes(m) >= 0,
    decreases m.len(),
{
    if m.len() > 0 {
        lemma_entry_bytes_nonneg(m.drop_first());
    }
}

/// Ordered insertion grows a map by at most one entry.
pub proof fn lemma_insert_keep_len(m: Seq<(Seq<u8>, u16)>, k: Seq<u8>, v: u16)
    ensures
        spec_map_insert_keep(m, k, v).len() <= m.len() + 1,
    decreases m.len(),
{
    if m.len() > 0 && !lex_lt(k, m[0].0) && k != m[0].0 {
        lemma_insert_keep_len(m.drop_first(), k, v);
    }
}

/// Overwriting insertion grows a map by at most one entry.
pub proof fn lemma_set_len(m: Seq<(Seq<u8>, u16)>, k: Seq<u8>, v: u16)
    ensures
        spec_map_set(m, k, v).len() <= m.len() + 1,
    decreases m.len(),
{
    if m.len() > 0 && !lex_lt(k, m[0].0) && k != m[0].0 {
        lemma_set_len(m.drop_first(), k, v);
    }
}

} // verus!
