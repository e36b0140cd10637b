//! Substring search over the character view of strings.  Symbol-name
//! manipulation locates ASCII markers (`@`, `@@`, `$$h`) inside possibly
//! non-ASCII names; all positions here are character positions.

use vstd::prelude::*;
use vstd::string::StrSliceExecFns;

verus! {

/// The position of the first occurrence of `pat` in `s` at or after `from`.
pub open spec fn spec_find(s: Seq<char>, pat: Seq<char>, from: nat) -> Option<int>
    decreases s.len() + 1 - from
        when from <= s.len() + 1
{
    if from + pat.len() > s.len() {
        None
    } else if s.subrange(from as int, from + pat.len() as int) == pat {
        Some(from as int)
    } else {
        spec_find(s, pat, from + 1)
    }
}

/// Characterization of a successful search: a match at the reported
/// position, and none earlier.
pub proof fn lemma_find_some(s: Seq<char>, pat: Seq<char>, from: nat, i: int)
    requires
        from <= s.len() + 1,
        spec_find(s, pat, from) == Some(i),
    ensures
        from <= i,
        i + pat.len() <= s.len(),
        s.subrange(i, i + pat.len() as int) == pat,
        forall|j: int|
            from <= j < i ==> (#[trigger] s.subrange(j, j + pat.len() as int)) != pat,
    decreases s.len() + 1 - from,
{
    if from + pat.len() > s.len() {
    } else if s.subrange(from as int, from + pat.len() as int) == pat {
    } else {
        lemma_find_some(s, pat, from + 1, i);
    }
}

/// Characterization of a failed search: no occurrence at or after `from`.
pub proof fn lemma_find_none(s: Seq<char>, pat: Seq<char>, from: nat)
    requires
        from <= s.len() + 1,
        spec_find(s, pat, from) is None,
    ensures
        forall|j: int|
            from <= j && j + pat.len() <= s.len() ==> (#[trigger] s.subrange(
                j,
                j + pat.len() as int,
            )) != pat,
    decreases s.len() + 1 - from,
{
    if from + pat.len() > s.len() {
    } else if s.subrange(from as int, from + pat.len() as int) == pat {
    } else {
        lemma_find_none(s, pat, from + 1);
    }
}

/// A position with a match and none before it is what the search returns.
pub proof fn lemma_find_converse(s: Seq<char>, pat: Seq<char>, from: nat, i: int)
    requires
        from <= i,
        i + pat.len() <= s.len(),
        s.subrange(i, i + pat.len() as int) == pat,
        forall|j: int|
            from <= j < i ==> (#[trigger] s.subrange(j, j + pat.len() as int)) != pat,
    ensures
        spec_find(s, pat, from) == Some(i),
    decreases s.len() + 1 - from,
{
    if from < i {
        lemma_find_converse(s, pat, from + 1, i);
    }
}

/// True when `pat` occurs in `s` starting exactly at `at`.
fn matches_at(s: &str, s_len: usize, at: usize, pat: &str, pat_len: usize) -> (r: bool)
    requires
        s_len == s@.len(),
        pat_len == pat@.len(),
        at + pat_len <= s_len,
    ensures
        r == (s@.subrange(at as int, at + pat@.len() as int) == pat@),
{
    let mut k: usize = 0;
    while k < pat_len
        invariant
            s_len == s@.len(),
            pat_len == pat@.len(),
            at + pat_len <= s_len,
            k <= pat_len,
            forall|j: int| 0 <= j < k ==> s@[at + j] == pat@[j],
        decreases pat_len - k,
    {
        if s.get_char(at + k) != pat.get_char(k) {
            proof {
                assert(s@.subrange(at as int, at + pat@.len() as int)[k as int] != pat@[k as int]);
            }
            return false;
        }
        k += 1;
    }
    proof {
        assert(s@.subrange(at as int, at + pat@.len() as int) =~= pat@);
    }
    true
}

/// The character position of the first occurrence of `pat` in `s`, if any.
pub fn find_substr(s: &str, pat: &str) -> (r: Option<usize>)
    ensures
        match r {
            Some(i) => spec_find(s@, pat@, 0) == Some(i as int),
            None => spec_find(s@, pat@, 0) is None,
        },
{
    let s_len = s.unicode_len();
    let pat_len = pat.unicode_len();
    if pat_len > s_len {
        return None;
    }
    let last = s_len - pat_len;
    let mut i: usize = 0;
    while i < last
        invariant
            s_len == s@.len(),
            pat_len == pat@.len(),
            pat_len <= s_len,
            last == s_len - pat_len,
            i <= last,
            spec_find(s@, pat@, 0) == spec_find(s@, pat@, i as nat),
        decreases last - i,
    {
        if matches_at(s, s_len, i, pat, pat_len) {
            return Some(i);
        }
        i += 1;
    }
    if matches_at(s, s_len, last, pat, pat_len) {
        proof {
            assert(spec_find(s@, pat@, last as nat) == Some(last as int));
        }
        Some(last)
    } else {
        proof {
            assert(spec_find(s@, pat@, last as nat) == spec_find(s@, pat@, (last + 1) as nat));
            assert(spec_find(s@, pat@, (last + 1) as nat) is None);
        }
        None
    }
}

} // verus!
