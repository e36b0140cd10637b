//! ARM64EC symbol-name mangling: C++ names (leading `?`) receive a `$$h`
//! infix at a position derived from the first `@@` or `@`; other names
//! receive a `#` prefix.  Demangling inverts both shapes.

use vstd::prelude::*;
use vstd::string::StrSliceExecFns;
use vstd::string::StringExecFns;

use crate::charscan::find_substr;
use crate::charscan::lemma_find_none;
use crate::charscan::lemma_find_some;
use crate::charscan::spec_find;

verus! {

/// The infix spliced into C++ names.
pub open spec fn mangle_infix() -> Seq<char> {
    seq!['$', '$', 'h']
}

/// The position of the first `@@` of `s` at or after `from` that does not
/// itself begin a `@@@`.
pub open spec fn spec_find_cpp_splice(s: Seq<char>, from: nat) -> Option<int>
    decreases s.len() + 1 - from
        when from <= s.len() + 1
{
    if from + 2 > s.len() {
        None
    } else if s[from as int] == '@' && s[from + 1 as int] == '@' && !(from + 2 < s.len() && s[from
        + 2 as int] == '@') {
        Some(from as int)
    } else {
        spec_find_cpp_splice(s, from + 1)
    }
}

/// A found splice point is a `@@` within the name.
pub proof fn lemma_find_cpp_splice_some(s: Seq<char>, from: nat, j: int)
    requires
        from <= s.len() + 1,
        spec_find_cpp_splice(s, from) == Some(j),
    ensures
        from <= j,
        j + 2 <= s.len(),
        s[j] == '@' && s[j + 1] == '@',
    decreases s.len() + 1 - from,
{
    if from + 2 > s.len() {
    } else if s[from as int] == '@' && s[from + 1 as int] == '@' && !(from + 2 < s.len() && s[from
        + 2 as int] == '@') {
    } else {
        lemma_find_cpp_splice_some(s, from + 1, j);
    }
}

/// Where the infix is spliced into a C++ name: two past the first `@@` that
/// does not begin a `@@@`, else one past the first `@`, else the end.
pub open spec fn spec_cpp_insert_idx(name: Seq<char>) -> int {
    match spec_find_cpp_splice(name, 0) {
        Some(j) => j + 2,
        None => spec_cpp_fallback_idx(name),
    }
}

/// One past the first `@`, or the end of the name.
pub open spec fn spec_cpp_fallback_idx(name: Seq<char>) -> int {
    match spec_find(name, seq!['@'], 0) {
        Some(i) => i + 1,
        None => name.len() as int,
    }
}

/// The mangled form of `name`, or `None` when the name is already mangled: a
/// C++ name already containing `$$h`, or a non-C++ name already starting
/// with `#`.
pub open spec fn spec_mangle(name: Seq<char>) -> Option<Seq<char>>
    recommends
        name.len() > 0,
{
    let is_cpp = name[0] == '?';
    if is_cpp && spec_find(name, mangle_infix(), 0) is Some {
        None
    } else if !is_cpp && name[0] == '#' {
        None
    } else if is_cpp {
        let idx = spec_cpp_insert_idx(name);
        Some(name.take(idx) + mangle_infix() + name.skip(idx))
    } else {
        Some(seq!['#'] + name)
    }
}

/// The demangled form of `name`: a leading `#` is stripped; a `?`-name is
/// split at its first `$$h` when the right side is non-empty; anything else
/// is `None`.
pub open spec fn spec_demangle(name: Seq<char>) -> Option<Seq<char>>
    recommends
        name.len() > 0,
{
    if name[0] == '#' {
        Some(name.skip(1))
    } else if name[0] != '?' {
        None
    } else {
        match spec_find(name, mangle_infix(), 0) {
            Some(i) => {
                if i + 3 < name.len() {
                    Some(name.take(i) + name.skip(i + 3))
                } else {
                    None
                }
            },
            None => None,
        }
    }
}

/// The ARM64EC-mangled form of a function name, or `None` when the name
/// already carries the mangling.
pub fn get_arm64ec_mangled_function_name(name: &str) -> (r: Option<String>)
    requires
        name@.len() > 0,
    ensures
        match r {
            Some(m) => spec_mangle(name@) == Some(m@),
            None => spec_mangle(name@) is None,
        },
{
    proof {
        reveal_strlit("$$h");
        reveal_strlit("@@@");
        reveal_strlit("@@");
        reveal_strlit("@");
        reveal_strlit("#");
        assert("$$h"@ =~= mangle_infix());
        assert("@@@"@ =~= seq!['@', '@', '@']);
        assert("@@"@ =~= seq!['@', '@']);
        assert("@"@ =~= seq!['@']);
        assert("#"@ =~= seq!['#']);
    }
    let len = name.unicode_len();
    let first = name.get_char(0);
    let is_cpp = first == '?';
    if is_cpp {
        if find_substr(name, "$$h").is_some() {
            return None;
        }
    } else {
        if first == '#' {
            return None;
        }
    }
    if is_cpp {
        let idx: usize = match find_cpp_splice(name, len) {
            Some(j) => {
                proof {
                    lemma_find_cpp_splice_some(name@, 0, j as int);
                }
                j + 2
            },
            None => cpp_fallback_idx(name, len),
        };
        let mut m = name.substring_char(0, idx).to_owned();
        m.append("$$h");
        m.append(name.substring_char(idx, len));
        proof {
            assert(m@ =~= name@.take(idx as int) + mangle_infix() + name@.skip(idx as int));
        }
        Some(m)
    } else {
        let mut m = String::from_str("#");
        m.append(name);
        proof {
            assert(m@ =~= seq!['#'] + name@);
        }
        Some(m)
    }
}

/// Finds the first `@@` that does not begin a `@@@`, the splice point of a
/// C++ name.
fn find_cpp_splice(name: &str, len: usize) -> (r: Option<usize>)
    requires
        len == name@.len(),
    ensures
        match r {
            Some(j) => spec_find_cpp_splice(name@, 0) == Some(j as int),
            None => spec_find_cpp_splice(name@, 0) is None,
        },
{
    if len < 2 {
        return None;
    }
    let mut i: usize = 0;
    while i < len - 1
        invariant
            len == name@.len(),
            2 <= len,
            i <= len - 1,
            spec_find_cpp_splice(name@, 0) == spec_find_cpp_splice(name@, i as nat),
        decreases len - 1 - i,
    {
        if name.get_char(i) == '@' && name.get_char(i + 1) == '@' && !(i + 2 < len
            && name.get_char(i + 2) == '@') {
            return Some(i);
        }
        i += 1;
    }
    None
}

/// One past the first `@` of a C++ name, or the end of the name.
fn cpp_fallback_idx(name: &str, len: usize) -> (idx: usize)
    requires
        len == name@.len(),
    ensures
        idx == spec_cpp_fallback_idx(name@),
        idx <= len,
{
    proof {
        reveal_strlit("@");
        assert("@"@ =~= seq!['@']);
    }
    match find_substr(name, "@") {
        Some(i) => {
            proof {
                lemma_find_some(name@, seq!['@'], 0, i as int);
            }
            i + 1
        },
        None => len,
    }
}

/// The ARM64EC-demangled form of a function name, or `None` when the name
/// carries no recognizable mangling.
pub fn get_arm64ec_demangled_function_name(name: &str) -> (r: Option<String>)
    requires
        name@.len() > 0,
    ensures
        match r {
            Some(m) => spec_demangle(name@) == Some(m@),
            None => spec_demangle(name@) is None,
        },
{
    proof {
        reveal_strlit("$$h");
        assert("$$h"@ =~= mangle_infix());
    }
    let len = name.unicode_len();
    let first = name.get_char(0);
    if first == '#' {
        let m = name.substring_char(1, len).to_owned();
        proof {
            assert(m@ =~= name@.skip(1));
        }
        return Some(m);
    }
    if first != '?' {
        return None;
    }
    match find_substr(name, "$$h") {
        Some(i) => {
            proof {
                lemma_find_some(name@, mangle_infix(), 0, i as int);
            }
            if i + 3 < len {
                let mut m = name.substring_char(0, i).to_owned();
                m.append(name.substring_char(i + 3, len));
                proof {
                    assert(m@ =~= name@.take(i as int) + name@.skip(i + 3));
                }
                Some(m)
            } else {
                None
            }
        },
        None => None,
    }
}

/// Mangling fails exactly on names that already carry the mangling: C++
/// names containing `$$h`, and other names starting with `#`.
pub proof fn lemma_mangle_none_cases(name: Seq<char>)
    requires
        name.len() > 0,
    ensures
        spec_mangle(name) is None <==> ((name[0] == '?' && spec_find(name, mangle_infix(), 0)
            is Some) || (name[0] != '?' && name[0] == '#')),
{
}

/// Demangling fails unless the name starts with `#`, or starts with `?` and
/// holds a `$$h` with a non-empty right side.
pub proof fn lemma_demangle_none_cases(name: Seq<char>)
    requires
        name.len() > 0,
    ensures
        spec_demangle(name) is Some <==> (name[0] == '#' || (name[0] == '?' && match spec_find(
            name,
            mangle_infix(),
            0,
        ) {
            Some(i) => i + 3 < name.len(),
            None => false,
        })),
{
}

/// Demangling inverts mangling: whenever both succeed, the round trip
/// returns the original name.
pub proof fn lemma_mangle_demangle_roundtrip(name: Seq<char>, m: Seq<char>)
    requires
        name.len() > 0,
        spec_mangle(name) == Some(m),
        spec_demangle(m) is Some,
    ensures
        spec_demangle(m) == Some(name),
{
    if name[0] != '?' {
        assert(m =~= seq!['#'] + name);
        assert(m[0] == '#');
        assert(m.skip(1) =~= name);
    } else {
        let idx = spec_cpp_insert_idx(name);
        lemma_cpp_insert_idx_bounds(name);
        assert(m =~= name.take(idx) + mangle_infix() + name.skip(idx));
        assert(m[0] == name[0]);
        lemma_infix_position_after_splice(name, idx, m);
        assert(spec_find(m, mangle_infix(), 0) == Some(idx));
        assert(idx + 3 < m.len() ==> m.take(idx) + m.skip(idx + 3) =~= name);
    }
}

/// The splice index of a C++ name lies between 1 and the name's length.
proof fn lemma_cpp_insert_idx_bounds(name: Seq<char>)
    requires
        name.len() > 0,
    ensures
        1 <= spec_cpp_insert_idx(name) <= name.len(),
{
    let sp = spec_find_cpp_splice(name, 0);
    let at1 = spec_find(name, seq!['@'], 0);
    if sp is Some {
        lemma_find_cpp_splice_some(name, 0, sp.unwrap());
    }
    if at1 is Some {
        lemma_find_some(name, seq!['@'], 0, at1.unwrap());
    }
}

/// After splicing the infix at `idx` into a name free of it, the first
/// occurrence of the infix is exactly at `idx`.
proof fn lemma_infix_position_after_splice(name: Seq<char>, idx: int, m: Seq<char>)
    requires
        0 <= idx <= name.len(),
        spec_find(name, mangle_infix(), 0) is None,
        m == name.take(idx) + mangle_infix() + name.skip(idx),
    ensures
        spec_find(m, mangle_infix(), 0) == Some(idx),
{
    lemma_find_none(name, mangle_infix(), 0);
    assert(m.len() == name.len() + 3);
    assert(m.subrange(idx, idx + 3) =~= mangle_infix());
    assert forall|j: int| 0 <= j < idx implies (#[trigger] m.subrange(j, j + 3))
        != mangle_infix() by {
        if j + 3 <= idx {
            assert(m.subrange(j, j + 3) =~= name.subrange(j, j + 3));
        } else {
            // The window overlaps the splice point: its third character is
            // one of the two spliced dollar signs, never the `h` of the
            // infix.
            assert(m.subrange(j, j + 3)[2] == m[j + 2]);
            assert(m[j + 2] == '$');
        }
    }
    crate::charscan::lemma_find_converse(m, mangle_infix(), 0, idx);
}

} // verus!
