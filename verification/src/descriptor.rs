//! Parsing, merging and rendering of desktop-entry descriptor text.
//!
//! A descriptor is a small `key=value` text format.  An existing file
//! is parsed line by line; the fields `Icon`, `Keywords`, `Categories`
//! and `Comment` are carried forward, `Categories` is normalized so
//! that it always holds the `Utility` token and ends with `;`, and the
//! whole descriptor is rendered afresh in a fixed field order.

use vstd::prelude::*;
use vstd::string::*;

verus! {

/// Unicode `White_Space`, as `str::trim` removes it from both ends of
/// the parsed keys and values.
pub open spec fn is_space(c: char) -> bool {
    ||| c == '\t'
    ||| c == '\n'
    ||| c == '\u{000B}'
    ||| c == '\u{000C}'
    ||| c == '\r'
    ||| c == ' '
    ||| c == '\u{0085}'
    ||| c == '\u{00A0}'
    ||| c == '\u{1680}'
    ||| c == '\u{2000}'
    ||| c == '\u{2001}'
    ||| c == '\u{2002}'
    ||| c == '\u{2003}'
    ||| c == '\u{2004}'
    ||| c == '\u{2005}'
    ||| c == '\u{2006}'
    ||| c == '\u{2007}'
    ||| c == '\u{2008}'
    ||| c == '\u{2009}'
    ||| c == '\u{200A}'
    ||| c == '\u{2028}'
    ||| c == '\u{2029}'
    ||| c == '\u{202F}'
    ||| c == '\u{205F}'
    ||| c == '\u{3000}'
}

/// `s` without its leading whitespace.
pub open spec fn trim_left(s: Seq<char>) -> Seq<char>
    decreases s.len(),
{
    if s.len() > 0 && is_space(s[0]) {
        trim_left(s.subrange(1, s.len() as int))
    } else {
        s
    }
}

/// `s` without its trailing whitespace.
pub open spec fn trim_right(s: Seq<char>) -> Seq<char>
    decreases s.len(),
{
    if s.len() > 0 && is_space(s[s.len() - 1]) {
        trim_right(s.subrange(0, s.len() - 1))
    } else {
        s
    }
}

/// `s` without leading and trailing whitespace.
pub open spec fn trim(s: Seq<char>) -> Seq<char> {
    trim_right(trim_left(s))
}

/// A sequence that trimming leaves as it is: empty, or with non-space
/// characters at both ends.
pub open spec fn trim_stable(s: Seq<char>) -> bool {
    s.len() > 0 ==> !is_space(s[0]) && !is_space(s[s.len() - 1])
}

pub proof fn lemma_trim_stable(s: Seq<char>)
    requires
        trim_stable(s),
    ensures
        trim(s) == s,
{
    assert(trim_left(s) == s);
    assert(trim_right(s) == s);
}

/// A scan that skipped `lo` leading spaces pins `trim_left` down.
proof fn lemma_trim_left_scan(s: Seq<char>, lo: int)
    requires
        0 <= lo <= s.len(),
        forall|j: int| 0 <= j < lo ==> is_space(s[j]),
        lo < s.len() ==> !is_space(s[lo]),
    ensures
        trim_left(s) == s.subrange(lo, s.len() as int),
    decreases s.len(),
{
    if s.len() > 0 && is_space(s[0]) {
        let t = s.subrange(1, s.len() as int);
        assert(lo >= 1);
        assert forall|j: int| 0 <= j < lo - 1 implies is_space(t[j]) by {
            assert(t[j] == s[j + 1]);
        }
        if lo - 1 < t.len() {
            assert(t[lo - 1] == s[lo]);
        }
        lemma_trim_left_scan(t, lo - 1);
        assert(t.subrange(lo - 1, t.len() as int) =~= s.subrange(lo, s.len() as int));
    } else {
        assert(lo == 0);
        assert(s.subrange(0, s.len() as int) =~= s);
    }
}

/// A scan that dropped the spaces after `hi` pins `trim_right` down.
proof fn lemma_trim_right_scan(s: Seq<char>, hi: int)
    requires
        0 <= hi <= s.len(),
        forall|j: int| hi <= j < s.len() ==> is_space(s[j]),
        hi > 0 ==> !is_space(s[hi - 1]),
    ensures
        trim_right(s) == s.subrange(0, hi),
    decreases s.len(),
{
    if s.len() > 0 && is_space(s[s.len() - 1]) {
        let t = s.subrange(0, s.len() - 1);
        assert(hi < s.len());
        assert forall|j: int| hi <= j < t.len() implies is_space(t[j]) by {
            assert(t[j] == s[j]);
        }
        lemma_trim_right_scan(t, hi);
        assert(t.subrange(0, hi) =~= s.subrange(0, hi));
    } else {
        assert(hi == s.len());
        assert(s.subrange(0, s.len() as int) =~= s);
    }
}

/// What trimming returns is itself trim-stable.
pub proof fn lemma_trim_is_stable(s: Seq<char>)
    ensures
        trim_stable(trim(s)),
        trim(trim(s)) == trim(s),
    decreases s.len(),
{
    lemma_trim_left_no_leading(s);
    lemma_trim_right_keeps_head(trim_left(s));
    lemma_trim_right_no_trailing(trim_left(s));
    lemma_trim_stable(trim(s));
}

proof fn lemma_trim_left_no_leading(s: Seq<char>)
    ensures
        trim_left(s).len() > 0 ==> !is_space(trim_left(s)[0]),
    decreases s.len(),
{
    if s.len() > 0 && is_space(s[0]) {
        lemma_trim_left_no_leading(s.subrange(1, s.len() as int));
    }
}

proof fn lemma_trim_right_no_trailing(s: Seq<char>)
    ensures
        trim_right(s).len() > 0 ==> !is_space(trim_right(s)[trim_right(s).len() - 1]),
    decreases s.len(),
{
    if s.len() > 0 && is_space(s[s.len() - 1]) {
        lemma_trim_right_no_trailing(s.subrange(0, s.len() - 1));
    }
}

proof fn lemma_trim_right_keeps_head(s: Seq<char>)
    ensures
        trim_right(s).len() > 0 ==> trim_right(s)[0] == s[0],
    decreases s.len(),
{
    if s.len() > 0 && is_space(s[s.len() - 1]) {
        lemma_trim_right_keeps_head(s.subrange(0, s.len() - 1));
    }
}

/// Whether `c` counts as whitespace for the parser.
fn is_space_char(c: char) -> (r: bool)
    ensures
        r == is_space(c),
{
    c == '\t' || c == '\n' || c == '\u{000B}' || c == '\u{000C}' || c == '\r' || c == ' '
        || c == '\u{0085}' || c == '\u{00A0}' || c == '\u{1680}' || c == '\u{2000}'
        || c == '\u{2001}' || c == '\u{2002}' || c == '\u{2003}' || c == '\u{2004}'
        || c == '\u{2005}' || c == '\u{2006}' || c == '\u{2007}' || c == '\u{2008}'
        || c == '\u{2009}' || c == '\u{200A}' || c == '\u{2028}' || c == '\u{2029}'
        || c == '\u{202F}' || c == '\u{205F}' || c == '\u{3000}'
}

/// `s` with leading and trailing whitespace removed.
fn trim_str(s: &str) -> (r: String)
    ensures
        r@ == trim(s@),
{
    let len = s.unicode_len();
    let mut lo: usize = 0;
    loop
        invariant
            lo <= len,
            len == s@.len(),
            forall|j: int| 0 <= j < lo ==> is_space(s@[j]),
        ensures
            lo <= len,
            forall|j: int| 0 <= j < lo ==> is_space(s@[j]),
            lo < len ==> !is_space(s@[lo as int]),
        decreases len - lo,
    {
        if lo < len && is_space_char(s.get_char(lo)) {
            lo = lo + 1;
        } else {
            break;
        }
    }
    let mut hi: usize = len;
    loop
        invariant
            lo <= hi <= len,
            len == s@.len(),
            forall|j: int| hi <= j < len ==> is_space(s@[j]),
            lo < len ==> !is_space(s@[lo as int]),
        ensures
            lo <= hi <= len,
            forall|j: int| hi <= j < len ==> is_space(s@[j]),
            hi > lo ==> !is_space(s@[hi - 1]),
        decreases hi,
    {
        if hi > lo && is_space_char(s.get_char(hi - 1)) {
            hi = hi - 1;
        } else {
            break;
        }
    }
    proof {
        if lo == len {
            assert(hi == lo);
        }
        lemma_trim_left_scan(s@, lo as int);
        let t = s@.subrange(lo as int, len as int);
        assert forall|j: int| hi - lo <= j < t.len() implies is_space(t[j]) by {
            assert(t[j] == s@[j + lo]);
        }
        if hi > lo {
            assert(t[hi - lo - 1] == s@[hi - 1]);
        }
        lemma_trim_right_scan(t, hi - lo as int);
        assert(t.subrange(0, hi - lo as int) =~= s@.subrange(lo as int, hi as int));
    }
    let part = s.substring_char(lo, hi);
    part.to_owned()
}

/// Index of the first occurrence of `c` in `s`, or `-1`.
pub open spec fn find_char(s: Seq<char>, c: char) -> int
    decreases s.len(),
{
    if s.len() == 0 {
        -1
    } else if s[0] == c {
        0
    } else {
        let r = find_char(s.subrange(1, s.len() as int), c);
        if r < 0 {
            -1
        } else {
            r + 1
        }
    }
}

pub proof fn lemma_find_char_props(s: Seq<char>, c: char)
    ensures
        -1 <= find_char(s, c) < s.len(),
        find_char(s, c) >= 0 ==> s[find_char(s, c)] == c,
        forall|j: int| 0 <= j < find_char(s, c) ==> s[j] != c,
        find_char(s, c) == -1 ==> forall|j: int| 0 <= j < s.len() ==> s[j] != c,
    decreases s.len(),
{
    if s.len() == 0 {
    } else if s[0] == c {
    } else {
        let t = s.subrange(1, s.len() as int);
        lemma_find_char_props(t, c);
        assert forall|j: int| 1 <= j < s.len() && t[j - 1] != c implies s[j] != c by {
            assert(t[j - 1] == s[j]);
        }
    }
}

/// A scan that saw no `c` before `k` pins `find_char` down.
pub proof fn lemma_find_char_scan(s: Seq<char>, c: char, k: int)
    requires
        0 <= k <= s.len(),
        forall|j: int| 0 <= j < k ==> s[j] != c,
        k < s.len() ==> s[k] == c,
    ensures
        find_char(s, c) == if k < s.len() {
            k
        } else {
            -1
        },
    decreases s.len(),
{
    if s.len() == 0 {
    } else if s[0] == c {
        assert(k == 0);
    } else {
        let t = s.subrange(1, s.len() as int);
        assert(k >= 1);
        assert forall|j: int| 0 <= j < k - 1 implies t[j] != c by {
            assert(t[j] == s[j + 1]);
        }
        if k - 1 < t.len() {
            assert(t[k - 1] == s[k]);
        }
        lemma_find_char_scan(t, c, k - 1);
    }
}

/// The lines of `s`, split on `'\n'`; every string has at least one.
pub open spec fn split_lines(s: Seq<char>) -> Seq<Seq<char>>
    decreases s.len(),
{
    let f = find_char(s, '\n');
    if 0 <= f && f < s.len() {
        seq![s.subrange(0, f)] + split_lines(s.subrange(f + 1, s.len() as int))
    } else {
        seq![s]
    }
}

/// The entry a single line yields: split on the first `=`, both sides
/// trimmed; a line without `=` yields nothing.
pub open spec fn parse_line(l: Seq<char>) -> Option<(Seq<char>, Seq<char>)> {
    let f = find_char(l, '=');
    if 0 <= f && f < l.len() {
        Some((trim(l.subrange(0, f)), trim(l.subrange(f + 1, l.len() as int))))
    } else {
        None
    }
}

/// The entries of a sequence of lines, in line order.
pub open spec fn entries_of_lines(lines: Seq<Seq<char>>) -> Seq<(Seq<char>, Seq<char>)>
    decreases lines.len(),
{
    if lines.len() == 0 {
        Seq::empty()
    } else {
        match parse_line(lines[0]) {
            Some(kv) => seq![kv] + entries_of_lines(lines.subrange(1, lines.len() as int)),
            None => entries_of_lines(lines.subrange(1, lines.len() as int)),
        }
    }
}

/// The entries of a whole descriptor text.
pub open spec fn parse_entries_spec(s: Seq<char>) -> Seq<(Seq<char>, Seq<char>)> {
    entries_of_lines(split_lines(s))
}

/// The value of the last entry whose key is `key`, as a map built by
/// repeated insertion would hold it.
pub open spec fn lookup_spec(entries: Seq<(Seq<char>, Seq<char>)>, key: Seq<char>) -> Option<
    Seq<char>,
>
    decreases entries.len(),
{
    if entries.len() == 0 {
        None
    } else if entries.last().0 == key {
        Some(entries.last().1)
    } else {
        lookup_spec(entries.drop_last(), key)
    }
}

/// The views of a vector of owned entries.
pub open spec fn entries_view(entries: Seq<(String, String)>) -> Seq<(Seq<char>, Seq<char>)> {
    entries.map_values(|p: (String, String)| (p.0@, p.1@))
}

/// The views of a vector of owned lines.
pub open spec fn lines_view(lines: Seq<String>) -> Seq<Seq<char>> {
    lines.map_values(|l: String| l@)
}

pub(crate) proof fn lemma_entries_of_lines_snoc(lines: Seq<Seq<char>>, l: Seq<char>)
    ensures
        entries_of_lines(lines.push(l)) == entries_of_lines(lines) + match parse_line(l) {
            Some(kv) => seq![kv],
            None => Seq::empty(),
        },
    decreases lines.len(),
{
    let whole = lines.push(l);
    if lines.len() == 0 {
        reveal_with_fuel(entries_of_lines, 2);
        assert(whole[0] == l);
        assert(whole.subrange(1, whole.len() as int) =~= Seq::<Seq<char>>::empty());
        match parse_line(l) {
            Some(kv) => {
                assert(entries_of_lines(whole) =~= Seq::<(Seq<char>, Seq<char>)>::empty() + seq![
                    kv,
                ]);
            },
            None => {
                assert(entries_of_lines(whole) == entries_of_lines(
                    whole.subrange(1, whole.len() as int),
                ));
                assert(entries_of_lines(lines) + Seq::<(Seq<char>, Seq<char>)>::empty()
                    =~= Seq::<(Seq<char>, Seq<char>)>::empty());
            },
        }
    } else {
        let tail = lines.subrange(1, lines.len() as int);
        assert(whole.subrange(1, whole.len() as int) =~= tail.push(l));
        lemma_entries_of_lines_snoc(tail, l);
        assert(whole[0] == lines[0]);
        match parse_line(lines[0]) {
            Some(kv0) => {
                assert(entries_of_lines(whole) =~= entries_of_lines(lines) + match parse_line(l) {
                    Some(kv) => seq![kv],
                    None => Seq::<(Seq<char>, Seq<char>)>::empty(),
                });
            },
            None => {
                assert(entries_of_lines(whole) =~= entries_of_lines(lines) + match parse_line(l) {
                    Some(kv) => seq![kv],
                    None => Seq::<(Seq<char>, Seq<char>)>::empty(),
                });
            },
        }
    }
}

/// Index of the first occurrence of `c` in `s` at or after `from`.
fn index_of_char_from(s: &str, from: usize, c: char) -> (r: Option<usize>)
    requires
        from <= s@.len(),
    ensures
        match r {
            Some(i) => from <= i < s@.len() && s@[i as int] == c && forall|j: int|
                from <= j < i ==> s@[j] != c,
            None => forall|j: int| from <= j < s@.len() ==> s@[j] != c,
        },
{
    let len = s.unicode_len();
    let mut i: usize = from;
    while i < len
        invariant
            from <= i <= len,
            len == s@.len(),
            forall|j: int| from <= j < i ==> s@[j] != c,
        decreases len - i,
    {
        if s.get_char(i) == c {
            return Some(i);
        }
        i = i + 1;
    }
    None
}

/// The lines of `content`, split on `'\n'`.
fn split_to_lines(content: &str) -> (lines: Vec<String>)
    ensures
        lines_view(lines@) == split_lines(content@),
{
    let len = content.unicode_len();
    let mut lines: Vec<String> = Vec::new();
    let mut start: usize = 0;
    proof {
        assert(content@.subrange(0, len as int) =~= content@);
        assert(lines_view(lines@) + split_lines(content@) =~= split_lines(content@));
    }
    loop
        invariant_except_break
            split_lines(content@) == lines_view(lines@) + split_lines(
                content@.subrange(start as int, len as int),
            ),
        invariant
            start <= len,
            len == content@.len(),
        ensures
            lines_view(lines@) == split_lines(content@),
        decreases len - start + 1,
    {
        let ghost suffix = content@.subrange(start as int, len as int);
        let endpos: usize = match index_of_char_from(content, start, '\n') {
            Some(i) => i,
            None => len,
        };
        let line = content.substring_char(start, endpos).to_owned();
        proof {
            assert forall|j: int| 0 <= j < endpos - start implies suffix[j] != '\n' by {
                assert(suffix[j] == content@[j + start]);
            }
            if endpos < len {
                assert(suffix[endpos - start] == content@[endpos as int]);
            }
            lemma_find_char_scan(suffix, '\n', endpos - start as int);
            assert(line@ =~= suffix.subrange(0, endpos - start as int));
        }
        if endpos == len {
            proof {
                assert(suffix =~= line@);
                assert(split_lines(suffix) == seq![line@]);
                assert(lines_view(lines@.push(line)) =~= lines_view(lines@) + seq![line@]);
            }
            lines.push(line);
            break;
        } else {
            proof {
                let rest = content@.subrange(endpos + 1, len as int);
                assert(suffix.subrange(endpos - start as int + 1, suffix.len() as int) =~= rest);
                assert(split_lines(suffix) == seq![line@] + split_lines(rest));
                assert(lines_view(lines@.push(line)) =~= lines_view(lines@) + seq![line@]);
            }
            lines.push(line);
            start = endpos + 1;
        }
    }
    lines
}

/// The entry a single line yields, if it holds an `=`.
fn parse_line_exec(line: &str) -> (r: Option<(String, String)>)
    ensures
        match r {
            Some(p) => parse_line(line@) == Some((p.0@, p.1@)),
            None => parse_line(line@) is None,
        },
{
    let len = line.unicode_len();
    match index_of_char_from(line, 0, '=') {
        Some(i) => {
            proof {
                lemma_find_char_scan(line@, '=', i as int);
            }
            let key = trim_str(line.substring_char(0, i));
            let value = trim_str(line.substring_char(i + 1, len));
            Some((key, value))
        },
        None => {
            proof {
                lemma_find_char_scan(line@, '=', len as int);
            }
            None
        },
    }
}

/// Parse a descriptor text into its `key=value` entries, in line
/// order; a later line with the same key shadows an earlier one.
pub fn parse_desktop_file(content: &str) -> (entries: Vec<(String, String)>)
    ensures
        entries_view(entries@) == parse_entries_spec(content@),
{
    let lines = split_to_lines(content);
    let mut entries: Vec<(String, String)> = Vec::new();
    let n = lines.len();
    let mut i: usize = 0;
    while i < n
        invariant
            i <= n == lines@.len(),
            lines_view(lines@) == split_lines(content@),
            entries_view(entries@) == entries_of_lines(lines_view(lines@).subrange(0, i as int)),
        decreases n - i,
    {
        let ghost done = lines_view(lines@).subrange(0, i as int);
        let ghost before = entries_view(entries@);
        let r = parse_line_exec(lines[i].as_str());
        proof {
            lemma_entries_of_lines_snoc(done, lines@[i as int]@);
            assert(lines_view(lines@).subrange(0, i + 1) =~= done.push(lines@[i as int]@));
        }
        match r {
            Some(p) => {
                proof {
                    assert(entries_view(entries@.push(p)) =~= before + seq![(p.0@, p.1@)]);
                }
                entries.push(p);
            },
            None => {
                proof {
                    assert(before + Seq::<(Seq<char>, Seq<char>)>::empty() =~= before);
                }
            },
        }
        i = i + 1;
    }
    proof {
        assert(lines_view(lines@).subrange(0, n as int) =~= lines_view(lines@));
    }
    entries
}

/// Whether the views of two strings are equal.
pub(crate) fn str_eq_chars(a: &str, b: &str) -> (r: bool)
    ensures
        r == (a@ == b@),
{
    let n = a.unicode_len();
    if n != b.unicode_len() {
        return false;
    }
    let mut i: usize = 0;
    while i < n
        invariant
            i <= n == a@.len(),
            a@.len() == b@.len(),
            forall|j: int| 0 <= j < i ==> a@[j] == b@[j],
        decreases n - i,
    {
        if a.get_char(i) != b.get_char(i) {
            return false;
        }
        i = i + 1;
    }
    proof {
        assert(a@ =~= b@);
    }
    true
}

/// The value of the last entry for `key`, cloned out of `entries`.
pub fn lookup(entries: &Vec<(String, String)>, key: &str) -> (r: Option<String>)
    ensures
        match r {
            Some(v) => lookup_spec(entries_view(entries@), key@) == Some(v@),
            None => lookup_spec(entries_view(entries@), key@) is None,
        },
{
    let ghost all = entries_view(entries@);
    let mut i: usize = entries.len();
    proof {
        assert(all.subrange(0, entries@.len() as int) =~= all);
    }
    loop
        invariant
            i <= entries@.len(),
            all == entries_view(entries@),
            lookup_spec(all, key@) == lookup_spec(all.subrange(0, i as int), key@),
        ensures
            lookup_spec(all, key@) == lookup_spec(all.subrange(0, i as int), key@),
            i == 0,
        decreases i,
    {
        if i == 0 {
            break;
        }
        let ghost prefix = all.subrange(0, i as int);
        proof {
            assert(prefix.drop_last() =~= all.subrange(0, i - 1));
            assert(prefix.last() == (entries@[i - 1].0@, entries@[i - 1].1@));
        }
        if str_eq_chars(entries[i - 1].0.as_str(), key) {
            return Some(entries[i - 1].1.clone());
        }
        i = i - 1;
    }
    proof {
        assert(all.subrange(0, 0) =~= Seq::<(Seq<char>, Seq<char>)>::empty());
    }
    None
}

/// `s` holds no line break.
pub open spec fn newline_free(s: Seq<char>) -> bool {
    forall|j: int| 0 <= j < s.len() ==> s[j] != '\n'
}

/// `pat` occurs in `s` starting at index `i`.
pub open spec fn matches_at(s: Seq<char>, pat: Seq<char>, i: int) -> bool {
    0 <= i && i + pat.len() <= s.len() && s.subrange(i, i + pat.len()) == pat
}

/// `pat` occurs somewhere in `s`.
pub open spec fn contains_seq(s: Seq<char>, pat: Seq<char>) -> bool {
    exists|i: int| matches_at(s, pat, i)
}

fn match_at(s: &str, pat: &str, i: usize) -> (r: bool)
    requires
        i + pat@.len() <= s@.len(),
        s@.len() <= usize::MAX,
    ensures
        r == matches_at(s@, pat@, i as int),
{
    let m = pat.unicode_len();
    let mut j: usize = 0;
    while j < m
        invariant
            j <= m == pat@.len(),
            i + m <= s@.len() <= usize::MAX,
            forall|k: int| 0 <= k < j ==> s@[i + k] == pat@[k],
        decreases m - j,
    {
        if s.get_char(i + j) != pat.get_char(j) {
            proof {
                if matches_at(s@, pat@, i as int) {
                    assert(s@.subrange(i as int, i + pat@.len())[j as int] == s@[i + j]);
                }
            }
            return false;
        }
        j = j + 1;
    }
    proof {
        assert(s@.subrange(i as int, i + pat@.len()) =~= pat@);
    }
    true
}

/// Whether `pat` occurs as a substring of `s`.
pub fn contains_str(s: &str, pat: &str) -> (r: bool)
    ensures
        r == contains_seq(s@, pat@),
{
    let n = s.unicode_len();
    let m = pat.unicode_len();
    if m > n {
        return false;
    }
    if m == 0 {
        proof {
            assert(s@.subrange(0, 0) =~= pat@);
            assert(matches_at(s@, pat@, 0));
        }
        return true;
    }
    let mut i: usize = 0;
    while i <= n - m
        invariant
            1 <= m <= n == s@.len(),
            m == pat@.len(),
            i <= n - m + 1,
            forall|k: int| 0 <= k < i ==> !matches_at(s@, pat@, k),
        decreases n - m - i + 1,
    {
        if match_at(s, pat, i) {
            return true;
        }
        i = i + 1;
    }
    false
}

/// The `Categories` value once `Utility` membership and the trailing
/// semicolon are enforced; `c` is the non-empty prior value.
pub open spec fn ensure_utility_spec(c: Seq<char>) -> Seq<char> {
    let with_util = if contains_seq(c, "Utility"@) {
        c
    } else {
        "Utility;"@ + c
    };
    if with_util[with_util.len() - 1] == ';' {
        with_util
    } else {
        with_util + seq![';']
    }
}

/// The `Categories` value the merge writes, from the parsed prior
/// value: the default `Utility;` when absent or empty, the normalized
/// prior value otherwise.
pub open spec fn normalize_categories_spec(prior: Option<Seq<char>>) -> Seq<char> {
    match prior {
        Some(c) => if c.len() == 0 {
            "Utility;"@
        } else {
            ensure_utility_spec(c)
        },
        None => "Utility;"@,
    }
}

/// Normalize a non-empty `Categories` value: prefix `Utility;` when
/// the `Utility` token is absent, and close with `;` when missing.
pub fn ensure_utility(categories: &str) -> (r: String)
    requires
        categories@.len() > 0,
    ensures
        r@ == ensure_utility_spec(categories@),
{
    let mut r: String = if contains_str(categories, "Utility") {
        categories.to_owned()
    } else {
        let mut p = "Utility;".to_owned();
        p.append(categories);
        p
    };
    let rl = r.as_str().unicode_len();
    if r.as_str().get_char(rl - 1) != ';' {
        r.append(";");
        proof {
            reveal_strlit(";");
            assert(";"@ =~= seq![';']);
        }
    }
    r
}

/// The lines of a rendered descriptor, in fixed field order; the
/// optional fields appear only when non-empty.
pub open spec fn render_lines(
    name: Seq<char>,
    exec_path: Seq<char>,
    icon: Seq<char>,
    cats: Seq<char>,
    kw: Seq<char>,
    comment: Seq<char>,
) -> Seq<Seq<char>> {
    let base = seq![
        "[Desktop Entry]"@,
        "Type=Application"@,
        "Name="@ + name,
        "Exec="@ + exec_path,
        "Icon="@ + icon,
        "Terminal=false"@,
    ];
    let with_cats = if cats.len() > 0 {
        base.push("Categories="@ + cats)
    } else {
        base
    };
    let with_kw = if kw.len() > 0 {
        with_cats.push("Keywords="@ + kw)
    } else {
        with_cats
    };
    if comment.len() > 0 {
        with_kw.push("Comment="@ + comment)
    } else {
        with_kw
    }
}

/// Lines joined with a `'\n'` after every line, the last included.
pub open spec fn join_nl(lines: Seq<Seq<char>>) -> Seq<char>
    decreases lines.len(),
{
    if lines.len() == 0 {
        Seq::empty()
    } else {
        join_nl(lines.drop_last()) + lines.last() + seq!['\n']
    }
}

pub proof fn lemma_join_nl_push(lines: Seq<Seq<char>>, l: Seq<char>)
    ensures
        join_nl(lines.push(l)) == join_nl(lines) + l + seq!['\n'],
{
    assert(lines.push(l).drop_last() =~= lines);
    assert(lines.push(l).last() == l);
}

/// The full text of a rendered descriptor.
pub open spec fn render_spec(
    name: Seq<char>,
    exec_path: Seq<char>,
    icon: Seq<char>,
    cats: Seq<char>,
    kw: Seq<char>,
    comment: Seq<char>,
) -> Seq<char> {
    join_nl(render_lines(name, exec_path, icon, cats, kw, comment))
}

fn append_field_line(content: &mut String, prefix: &str, value: &str)
    ensures
        final(content)@ == old(content)@ + prefix@ + value@ + seq!['\n'],
{
    content.append(prefix);
    content.append(value);
    content.append("\n");
    proof {
        reveal_strlit("\n");
        assert(content@ =~= old(content)@ + prefix@ + value@ + seq!['\n']);
    }
}

/// Render a descriptor with the given field values, in fixed order,
/// leaving out the optional fields that are empty.
pub fn render_descriptor(
    name: &str,
    exec_path: &str,
    icon: &str,
    categories: &str,
    keywords: &str,
    comment: &str,
) -> (r: String)
    ensures
        r@ == render_spec(name@, exec_path@, icon@, categories@, keywords@, comment@),
{
    let mut content = String::new();
    let ghost mut lines: Seq<Seq<char>> = Seq::empty();
    proof {
        assert(content@ =~= join_nl(lines));
    }
    append_field_line(&mut content, "[Desktop Entry]", "");
    proof {
        reveal_strlit("");
        lemma_join_nl_push(lines, "[Desktop Entry]"@);
        lines = lines.push("[Desktop Entry]"@);
        assert(content@ =~= join_nl(lines));
    }
    append_field_line(&mut content, "Type=Application", "");
    proof {
        reveal_strlit("");
        lemma_join_nl_push(lines, "Type=Application"@);
        lines = lines.push("Type=Application"@);
        assert(content@ =~= join_nl(lines));
    }
    append_field_line(&mut content, "Name=", name);
    proof {
        lemma_join_nl_push(lines, "Name="@ + name@);
        lines = lines.push("Name="@ + name@);
        assert(content@ =~= join_nl(lines));
    }
    append_field_line(&mut content, "Exec=", exec_path);
    proof {
        lemma_join_nl_push(lines, "Exec="@ + exec_path@);
        lines = lines.push("Exec="@ + exec_path@);
        assert(content@ =~= join_nl(lines));
    }
    append_field_line(&mut content, "Icon=", icon);
    proof {
        lemma_join_nl_push(lines, "Icon="@ + icon@);
        lines = lines.push("Icon="@ + icon@);
        assert(content@ =~= join_nl(lines));
    }
    append_field_line(&mut content, "Terminal=false", "");
    proof {
        reveal_strlit("");
        lemma_join_nl_push(lines, "Terminal=false"@);
        lines = lines.push("Terminal=false"@);
        assert(content@ =~= join_nl(lines));
    }
    if !categories.is_empty() {
        append_field_line(&mut content, "Categories=", categories);
        proof {
            lemma_join_nl_push(lines, "Categories="@ + categories@);
            lines = lines.push("Categories="@ + categories@);
            assert(content@ =~= join_nl(lines));
        }
    }
    if !keywords.is_empty() {
        append_field_line(&mut content, "Keywords=", keywords);
        proof {
            lemma_join_nl_push(lines, "Keywords="@ + keywords@);
            lines = lines.push("Keywords="@ + keywords@);
            assert(content@ =~= join_nl(lines));
        }
    }
    if !comment.is_empty() {
        append_field_line(&mut content, "Comment=", comment);
        proof {
            lemma_join_nl_push(lines, "Comment="@ + comment@);
            lines = lines.push("Comment="@ + comment@);
            assert(content@ =~= join_nl(lines));
        }
    }
    proof {
        assert(lines =~= render_lines(name@, exec_path@, icon@, categories@, keywords@, comment@));
    }
    content
}

/// The icon identifier written when nothing else is available.
pub open spec fn default_icon() -> Seq<char> {
    "application-x-executable"@
}

/// The `Icon` value the merge writes: a newly staged icon wins, then a
/// prior descriptor's value, then the default identifier.
pub open spec fn resolved_icon_spec(
    new_icon: Option<Seq<char>>,
    entries: Seq<(Seq<char>, Seq<char>)>,
) -> Seq<char> {
    match new_icon {
        Some(v) => v,
        None => match lookup_spec(entries, "Icon"@) {
            Some(v) => v,
            None => default_icon(),
        },
    }
}

/// An optional field value, the empty sequence when absent.
pub open spec fn opt_or_empty(v: Option<Seq<char>>) -> Seq<char> {
    match v {
        Some(s) => s,
        None => Seq::empty(),
    }
}

/// The view of an optional string argument.
pub open spec fn opt_str_view(o: Option<&str>) -> Option<Seq<char>> {
    match o {
        Some(s) => Some(s@),
        None => None,
    }
}

/// The entries a prior descriptor contributes: none when there was no
/// prior file.
pub open spec fn prior_entries_spec(prior: Option<Seq<char>>) -> Seq<(Seq<char>, Seq<char>)> {
    match prior {
        Some(c) => parse_entries_spec(c),
        None => Seq::empty(),
    }
}

/// The merged descriptor text: `Type`, `Name`, `Exec` and `Terminal`
/// regenerated, `Icon`, `Keywords`, `Categories` and `Comment` carried
/// forward from the prior text, and `Categories` normalized.
pub open spec fn synthesize_spec(
    name: Seq<char>,
    exec_path: Seq<char>,
    new_icon: Option<Seq<char>>,
    prior: Option<Seq<char>>,
) -> Seq<char> {
    let entries = prior_entries_spec(prior);
    render_spec(
        name,
        exec_path,
        resolved_icon_spec(new_icon, entries),
        normalize_categories_spec(lookup_spec(entries, "Categories"@)),
        opt_or_empty(lookup_spec(entries, "Keywords"@)),
        opt_or_empty(lookup_spec(entries, "Comment"@)),
    )
}

/// Build the merged descriptor text from the application name, the
/// installed executable path, the staged icon value if an icon was
/// newly staged, and the prior descriptor text if one existed.
pub fn synthesize_descriptor(
    name: &str,
    exec_path: &str,
    new_icon: Option<&str>,
    prior: Option<&str>,
) -> (r: String)
    ensures
        r@ == synthesize_spec(name@, exec_path@, opt_str_view(new_icon), opt_str_view(prior)),
{
    let entries: Vec<(String, String)> = match prior {
        Some(c) => parse_desktop_file(c),
        None => Vec::new(),
    };
    proof {
        if prior is None {
            assert(entries_view(entries@) =~= Seq::<(Seq<char>, Seq<char>)>::empty());
        }
    }
    let icon: String = match new_icon {
        Some(v) => v.to_owned(),
        None => match lookup(&entries, "Icon") {
            Some(v) => v,
            None => "application-x-executable".to_owned(),
        },
    };
    let categories: String = match lookup(&entries, "Categories") {
        Some(c) => if c.as_str().is_empty() {
            "Utility;".to_owned()
        } else {
            ensure_utility(c.as_str())
        },
        None => "Utility;".to_owned(),
    };
    let keywords: String = match lookup(&entries, "Keywords") {
        Some(v) => v,
        None => String::new(),
    };
    let comment: String = match lookup(&entries, "Comment") {
        Some(v) => v,
        None => String::new(),
    };
    render_descriptor(
        name,
        exec_path,
        icon.as_str(),
        categories.as_str(),
        keywords.as_str(),
        comment.as_str(),
    )
}

} // verus!
