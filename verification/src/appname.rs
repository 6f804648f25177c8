//! Derivation of the application name from the source file name.
//!
//! The name is the part of the file name that stands before the first
//! `-` or `_`, after every trailing `.AppImage` suffix has been
//! removed.

use vstd::prelude::*;
use vstd::string::*;

verus! {

/// True when the nine characters of `s` that end at `end` spell
/// `.AppImage` (case-sensitive, exact).
pub open spec fn suffix_at(s: Seq<char>, end: int) -> bool {
    &&& s[end - 9] == '.'
    &&& s[end - 8] == 'A'
    &&& s[end - 7] == 'p'
    &&& s[end - 6] == 'p'
    &&& s[end - 5] == 'I'
    &&& s[end - 4] == 'm'
    &&& s[end - 3] == 'a'
    &&& s[end - 2] == 'g'
    &&& s[end - 1] == 'e'
}

/// `s` with every trailing `.AppImage` removed, as
/// `str::trim_end_matches` removes them.
pub open spec fn strip_suffix(s: Seq<char>) -> Seq<char>
    decreases s.len(),
{
    if s.len() >= 9 && suffix_at(s, s.len() as int) {
        strip_suffix(s.subrange(0, s.len() - 9))
    } else {
        s
    }
}

/// A character on which the stripped name is cut.
pub open spec fn is_separator(c: char) -> bool {
    c == '-' || c == '_'
}

/// Length of the longest separator-free prefix of `s`.
pub open spec fn segment_len(s: Seq<char>) -> int
    decreases s.len(),
{
    if s.len() == 0 {
        0
    } else if is_separator(s[0]) {
        0
    } else {
        1 + segment_len(s.subrange(1, s.len() as int))
    }
}

/// The part of `s` before its first `-` or `_`; all of `s` when it
/// holds no separator.
pub open spec fn head_segment(s: Seq<char>) -> Seq<char> {
    s.subrange(0, segment_len(s))
}

/// The application name derived from a file name: strip every trailing
/// `.AppImage`, then keep what stands before the first `-` or `_`.
pub open spec fn clean_app_name_spec(filename: Seq<char>) -> Seq<char> {
    head_segment(strip_suffix(filename))
}

/// A left-to-right scan that stopped at `k` pins `segment_len` down.
pub proof fn lemma_segment_len_from_scan(s: Seq<char>, k: int)
    requires
        0 <= k <= s.len(),
        forall|j: int| 0 <= j < k ==> !is_separator(s[j]),
        k < s.len() ==> is_separator(s[k]),
    ensures
        segment_len(s) == k,
    decreases s.len(),
{
    if s.len() == 0 {
    } else if is_separator(s[0]) {
        assert(k == 0);
    } else {
        let t = s.subrange(1, s.len() as int);
        assert forall|j: int| 0 <= j < k - 1 implies !is_separator(t[j]) by {
            assert(t[j] == s[j + 1]);
        }
        if k - 1 < t.len() {
            assert(t[k - 1] == s[k]);
        }
        lemma_segment_len_from_scan(t, k - 1);
    }
}

/// True when the characters of `s` that end at `end` spell `.AppImage`.
fn suffix_matches_at(s: &str, end: usize) -> (r: bool)
    requires
        9 <= end <= s@.len(),
    ensures
        r == suffix_at(s@, end as int),
{
    let base: usize = end - 9;
    s.get_char(base) == '.' && s.get_char(base + 1) == 'A' && s.get_char(base + 2) == 'p'
        && s.get_char(base + 3) == 'p' && s.get_char(base + 4) == 'I' && s.get_char(base + 5) == 'm'
        && s.get_char(base + 6) == 'a' && s.get_char(base + 7) == 'g' && s.get_char(base + 8) == 'e'
}

/// Number of characters of `s` that remain once every trailing
/// `.AppImage` is stripped.
fn stripped_len(s: &str) -> (end: usize)
    ensures
        end <= s@.len(),
        strip_suffix(s@) == s@.subrange(0, end as int),
{
    let mut end: usize = s.unicode_len();
    proof {
        assert(s@.subrange(0, end as int) =~= s@);
    }
    loop
        invariant
            end <= s@.len(),
            strip_suffix(s@) == strip_suffix(s@.subrange(0, end as int)),
        ensures
            end <= s@.len(),
            strip_suffix(s@) == s@.subrange(0, end as int),
        decreases end,
    {
        if end >= 9 && suffix_matches_at(s, end) {
            proof {
                let sub = s@.subrange(0, end as int);
                assert(suffix_at(sub, end as int));
                assert(sub.subrange(0, end - 9) =~= s@.subrange(0, end - 9));
            }
            end = end - 9;
        } else {
            proof {
                let sub = s@.subrange(0, end as int);
                if end >= 9 {
                    assert(!suffix_at(sub, end as int));
                }
                assert(strip_suffix(sub) == sub);
            }
            break;
        }
    }
    end
}

/// Index of the first `-` or `_` in `s` before `end`; `end` when there
/// is none.
fn first_separator(s: &str, end: usize) -> (k: usize)
    requires
        end <= s@.len(),
    ensures
        k <= end,
        forall|j: int| 0 <= j < k ==> !is_separator(s@[j]),
        k < end ==> is_separator(s@[k as int]),
{
    let mut i: usize = 0;
    while i < end
        invariant
            i <= end <= s@.len(),
            forall|j: int| 0 <= j < i ==> !is_separator(s@[j]),
        decreases end - i,
    {
        let c = s.get_char(i);
        if c == '-' || c == '_' {
            return i;
        }
        i = i + 1;
    }
    i
}

/// Derive the application name from a file name: strip every trailing
/// `.AppImage`, then keep the part before the first `-` or `_`.
pub fn clean_app_name(filename: &str) -> (result: String)
    ensures
        result@ == clean_app_name_spec(filename@),
{
    let end = stripped_len(filename);
    let k = first_separator(filename, end);
    proof {
        let stripped = strip_suffix(filename@);
        assert(stripped == filename@.subrange(0, end as int));
        assert forall|j: int| 0 <= j < k as int implies !is_separator(stripped[j]) by {
            assert(stripped[j] == filename@[j]);
        }
        if (k as int) < stripped.len() {
            assert(stripped[k as int] == filename@[k as int]);
        }
        lemma_segment_len_from_scan(stripped, k as int);
        assert(head_segment(stripped) =~= filename@.subrange(0, k as int));
    }
    let part = filename.substring_char(0, k);
    part.to_owned()
}

} // verus!
