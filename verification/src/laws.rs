//! The stated laws of the library: properties that relate several
//! functions, proved once and for all inputs.

use vstd::prelude::*;
use crate::appname;
use crate::descriptor::contains_seq;
use crate::descriptor::default_icon;
use crate::descriptor::entries_of_lines;
use crate::descriptor::ensure_utility_spec;
use crate::descriptor::find_char;
use crate::descriptor::is_space;
use crate::descriptor::join_nl;
use crate::descriptor::lemma_entries_of_lines_snoc;
use crate::descriptor::lemma_find_char_props;
use crate::descriptor::lemma_find_char_scan;
use crate::descriptor::lemma_trim_is_stable;
use crate::descriptor::lemma_trim_stable;
use crate::descriptor::lookup_spec;
use crate::descriptor::matches_at;
use crate::descriptor::newline_free;
use crate::descriptor::normalize_categories_spec;
use crate::descriptor::opt_or_empty;
use crate::descriptor::parse_entries_spec;
use crate::descriptor::parse_line;
use crate::descriptor::prior_entries_spec;
use crate::descriptor::render_lines;
use crate::descriptor::render_spec;
use crate::descriptor::resolved_icon_spec;
use crate::descriptor::split_lines;
use crate::descriptor::synthesize_spec;
use crate::descriptor::trim;
use crate::descriptor::trim_left;
use crate::descriptor::trim_right;
use crate::descriptor::trim_stable;

verus! {

/// A carried-forward value as parsing produces it: trimmed at both
/// ends and free of line breaks.
pub open spec fn value_ok(v: Seq<char>) -> bool {
    trim_stable(v) && newline_free(v)
}

/// Deriving the application name is deterministic: the same file name
/// always yields the same name.
pub proof fn lemma_clean_app_name_deterministic(a: Seq<char>, b: Seq<char>)
    requires
        a == b,
    ensures
        appname::clean_app_name_spec(a) == appname::clean_app_name_spec(b),
{
}

proof fn lemma_ensure_utility_props(c: Seq<char>)
    requires
        c.len() > 0,
    ensures
        crate::descriptor::ensure_utility_spec(c).len() > 0,
        crate::descriptor::ensure_utility_spec(c).last() == ';',
        contains_seq(crate::descriptor::ensure_utility_spec(c), "Utility"@),
{
    reveal_strlit("Utility;");
    reveal_strlit("Utility");
    let with_util: Seq<char> = if contains_seq(c, "Utility"@) {
        c
    } else {
        "Utility;"@ + c
    };
    if !contains_seq(c, "Utility"@) {
        assert(("Utility;"@ + c).subrange(0, 7) =~= "Utility"@);
        assert(matches_at("Utility;"@ + c, "Utility"@, 0));
    }
    assert(contains_seq(with_util, "Utility"@));
    if with_util[with_util.len() - 1] == ';' {
    } else {
        let r = with_util + seq![';'];
        let i = choose|i: int| matches_at(with_util, "Utility"@, i);
        assert(r.subrange(i, i + 7) =~= with_util.subrange(i, i + 7));
        assert(matches_at(r, "Utility"@, i));
    }
}

/// Whatever an existing descriptor held, the merged `Categories`
/// value is non-empty, holds the `Utility` token, and ends with `;`.
pub proof fn lemma_categories_normalized(prior: Option<Seq<char>>)
    ensures
        normalize_categories_spec(prior).len() > 0,
        normalize_categories_spec(prior).last() == ';',
        contains_seq(normalize_categories_spec(prior), "Utility"@),
{
    reveal_strlit("Utility;");
    reveal_strlit("Utility");
    assert("Utility;"@.subrange(0, 7) =~= "Utility"@);
    assert(matches_at("Utility;"@, "Utility"@, 0));
    match prior {
        Some(c) => {
            if c.len() > 0 {
                lemma_ensure_utility_props(c);
            }
        },
        None => {},
    }
}

proof fn lemma_join_nl_first(lines: Seq<Seq<char>>)
    requires
        lines.len() > 0,
    ensures
        join_nl(lines) == lines[0] + seq!['\n'] + join_nl(lines.subrange(1, lines.len() as int)),
    decreases lines.len(),
{
    let rest = lines.subrange(1, lines.len() as int);
    if lines.len() == 1 {
        assert(lines.drop_last() =~= Seq::<Seq<char>>::empty());
        assert(rest =~= Seq::<Seq<char>>::empty());
        assert(join_nl(lines) =~= lines[0] + seq!['\n'] + join_nl(rest));
    } else {
        let dl = lines.drop_last();
        lemma_join_nl_first(dl);
        assert(dl.subrange(1, dl.len() as int) =~= rest.drop_last());
        assert(rest.last() == lines.last());
        assert(rest.len() > 0);
        assert(join_nl(rest) == join_nl(rest.drop_last()) + rest.last() + seq!['\n']);
        assert(join_nl(lines) =~= lines[0] + seq!['\n'] + join_nl(rest));
    }
}

/// Splitting what rendering joined gives the lines back, plus the
/// empty line after the final `'\n'`.
proof fn lemma_split_join(lines: Seq<Seq<char>>)
    requires
        lines.len() > 0,
        forall|i: int| 0 <= i < lines.len() ==> newline_free(#[trigger] lines[i]),
    ensures
        split_lines(join_nl(lines)) == lines.push(Seq::<char>::empty()),
    decreases lines.len(),
{
    let s = join_nl(lines);
    let l0 = lines[0];
    let rest = lines.subrange(1, lines.len() as int);
    lemma_join_nl_first(lines);
    assert(newline_free(l0));
    assert forall|j: int| 0 <= j < l0.len() implies s[j] != '\n' by {
        assert(s[j] == l0[j]);
    }
    assert(s[l0.len() as int] == '\n');
    lemma_find_char_scan(s, '\n', l0.len() as int);
    assert(s.subrange(0, l0.len() as int) =~= l0);
    assert(s.subrange(l0.len() as int + 1, s.len() as int) =~= join_nl(rest));
    if lines.len() == 1 {
        assert(rest =~= Seq::<Seq<char>>::empty());
        assert(join_nl(rest) == Seq::<char>::empty());
        assert(find_char(Seq::<char>::empty(), '\n') == -1);
        assert(split_lines(join_nl(rest)) == seq![Seq::<char>::empty()]);
        assert(split_lines(s) =~= lines.push(Seq::<char>::empty()));
    } else {
        assert forall|i: int| 0 <= i < rest.len() implies newline_free(#[trigger] rest[i]) by {
            assert(rest[i] == lines[i + 1]);
        }
        lemma_split_join(rest);
        assert(split_lines(s) =~= lines.push(Seq::<char>::empty()));
    }
}

/// A line of the shape `key=value`, with no `=` inside the key,
/// parses to the trimmed key and the trimmed value.
proof fn lemma_parse_keyed_line(key: Seq<char>, value: Seq<char>)
    requires
        forall|j: int| 0 <= j < key.len() ==> key[j] != '=',
    ensures
        parse_line(key + seq!['='] + value) == Some((trim(key), trim(value))),
{
    let l = key + seq!['='] + value;
    assert forall|j: int| 0 <= j < key.len() implies l[j] != '=' by {
        assert(l[j] == key[j]);
    }
    assert(l[key.len() as int] == '=');
    lemma_find_char_scan(l, '=', key.len() as int);
    assert(l.subrange(0, key.len() as int) =~= key);
    assert(l.subrange(key.len() as int + 1, l.len() as int) =~= value);
}

/// A line without `=` yields no entry.
proof fn lemma_parse_plain_line(l: Seq<char>)
    requires
        forall|j: int| 0 <= j < l.len() ==> l[j] != '=',
    ensures
        parse_line(l) is None,
{
    lemma_find_char_scan(l, '=', l.len() as int);
}

/// Looking a key up in entries extended by one behaves like the last
/// insertion into a map.
proof fn lemma_lookup_snoc(entries: Seq<(Seq<char>, Seq<char>)>, kv: (Seq<char>, Seq<char>))
    ensures
        forall|key: Seq<char>|
            #[trigger] lookup_spec(entries.push(kv), key) == if kv.0 == key {
                Some(kv.1)
            } else {
                lookup_spec(entries, key)
            },
{
    assert(entries.push(kv).last() == kv);
    assert(entries.push(kv).drop_last() =~= entries);
}

proof fn lemma_trim_left_nlfree(s: Seq<char>)
    requires
        newline_free(s),
    ensures
        newline_free(trim_left(s)),
    decreases s.len(),
{
    if s.len() > 0 && is_space(s[0]) {
        let t = s.subrange(1, s.len() as int);
        assert forall|j: int| 0 <= j < t.len() implies t[j] != '\n' by {
            assert(t[j] == s[j + 1]);
        }
        lemma_trim_left_nlfree(t);
    }
}

proof fn lemma_trim_right_nlfree(s: Seq<char>)
    requires
        newline_free(s),
    ensures
        newline_free(trim_right(s)),
    decreases s.len(),
{
    if s.len() > 0 && is_space(s[s.len() - 1]) {
        let t = s.subrange(0, s.len() - 1);
        assert forall|j: int| 0 <= j < t.len() implies t[j] != '\n' by {
            assert(t[j] == s[j]);
        }
        lemma_trim_right_nlfree(t);
    }
}

/// Trimming a line-break-free sequence yields a carried-forward
/// value in good standing.
proof fn lemma_trim_value_ok(s: Seq<char>)
    requires
        newline_free(s),
    ensures
        value_ok(trim(s)),
        trim(trim(s)) == trim(s),
{
    lemma_trim_is_stable(s);
    lemma_trim_left_nlfree(s);
    lemma_trim_right_nlfree(trim_left(s));
}

proof fn lemma_split_lines_nlfree(s: Seq<char>)
    ensures
        forall|i: int|
            0 <= i < split_lines(s).len() ==> newline_free(#[trigger] split_lines(s)[i]),
    decreases s.len(),
{
    lemma_find_char_props(s, '\n');
    let f = find_char(s, '\n');
    if 0 <= f && f < s.len() {
        let head = s.subrange(0, f);
        let rest = s.subrange(f + 1, s.len() as int);
        assert forall|j: int| 0 <= j < head.len() implies head[j] != '\n' by {
            assert(head[j] == s[j]);
        }
        lemma_split_lines_nlfree(rest);
        assert forall|i: int|
            0 <= i < split_lines(s).len() implies newline_free(#[trigger] split_lines(s)[i]) by {
            if i == 0 {
                assert(split_lines(s)[i] == head);
            } else {
                assert(split_lines(s)[i] == split_lines(rest)[i - 1]);
            }
        }
    }
}

proof fn lemma_entries_values_ok(lines: Seq<Seq<char>>)
    requires
        forall|i: int| 0 <= i < lines.len() ==> newline_free(#[trigger] lines[i]),
    ensures
        forall|i: int|
            0 <= i < entries_of_lines(lines).len() ==> value_ok(
                #[trigger] entries_of_lines(lines)[i].1,
            ),
    decreases lines.len(),
{
    if lines.len() > 0 {
        let l = lines[0];
        let tail = lines.subrange(1, lines.len() as int);
        assert forall|i: int| 0 <= i < tail.len() implies newline_free(#[trigger] tail[i]) by {
            assert(tail[i] == lines[i + 1]);
        }
        lemma_entries_values_ok(tail);
        let f = find_char(l, '=');
        if 0 <= f && f < l.len() {
            let raw = l.subrange(f + 1, l.len() as int);
            assert forall|j: int| 0 <= j < raw.len() implies raw[j] != '\n' by {
                assert(raw[j] == l[j + f + 1]);
            }
            lemma_trim_value_ok(raw);
            let kv = (trim(l.subrange(0, f)), trim(raw));
            assert(parse_line(l) == Some(kv));
            assert forall|i: int|
                0 <= i < entries_of_lines(lines).len() implies value_ok(
                #[trigger] entries_of_lines(lines)[i].1,
            ) by {
                if i == 0 {
                    assert(entries_of_lines(lines)[i] == kv);
                } else {
                    assert(entries_of_lines(lines)[i] == entries_of_lines(tail)[i - 1]);
                }
            }
        } else {
            assert(parse_line(l) is None);
            assert forall|i: int|
                0 <= i < entries_of_lines(lines).len() implies value_ok(
                #[trigger] entries_of_lines(lines)[i].1,
            ) by {
                assert(entries_of_lines(lines)[i] == entries_of_lines(tail)[i]);
            }
        }
    }
}

/// Every value that parsing carries forward is trimmed and free of
/// line breaks.
proof fn lemma_parse_values_ok(s: Seq<char>)
    ensures
        forall|i: int|
            0 <= i < parse_entries_spec(s).len() ==> value_ok(#[trigger] parse_entries_spec(s)[i].1),
{
    lemma_split_lines_nlfree(s);
    lemma_entries_values_ok(split_lines(s));
}

proof fn lemma_lookup_value_ok(entries: Seq<(Seq<char>, Seq<char>)>, key: Seq<char>)
    requires
        forall|i: int| 0 <= i < entries.len() ==> value_ok(#[trigger] entries[i].1),
    ensures
        match lookup_spec(entries, key) {
            Some(v) => value_ok(v),
            None => true,
        },
    decreases entries.len(),
{
    if entries.len() > 0 {
        if entries.last().0 == key {
            assert(entries.last() == entries[entries.len() - 1]);
        } else {
            let dl = entries.drop_last();
            assert forall|i: int| 0 <= i < dl.len() implies value_ok(#[trigger] dl[i].1) by {
                assert(dl[i] == entries[i]);
            }
            lemma_lookup_value_ok(dl, key);
        }
    }
}

/// Parsing a freshly rendered descriptor finds exactly the four
/// carried-forward fields that rendering wrote.
#[verifier::rlimit(100)]
proof fn lemma_lookups_of_rendered(
    name: Seq<char>,
    exec_path: Seq<char>,
    icon: Seq<char>,
    cats: Seq<char>,
    kw: Seq<char>,
    comment: Seq<char>,
)
    requires
        newline_free(name),
        newline_free(exec_path),
        newline_free(icon),
        newline_free(cats),
        newline_free(kw),
        newline_free(comment),
        cats.len() > 0,
    ensures
        lookup_spec(
            parse_entries_spec(render_spec(name, exec_path, icon, cats, kw, comment)),
            "Icon"@,
        ) == Some(trim(icon)),
        lookup_spec(
            parse_entries_spec(render_spec(name, exec_path, icon, cats, kw, comment)),
            "Categories"@,
        ) == Some(trim(cats)),
        lookup_spec(
            parse_entries_spec(render_spec(name, exec_path, icon, cats, kw, comment)),
            "Keywords"@,
        ) == if kw.len() > 0 {
            Some(trim(kw))
        } else {
            None
        },
        lookup_spec(
            parse_entries_spec(render_spec(name, exec_path, icon, cats, kw, comment)),
            "Comment"@,
        ) == if comment.len() > 0 {
            Some(trim(comment))
        } else {
            None
        },
{
    reveal_strlit("[Desktop Entry]");
    reveal_strlit("Type=Application");
    reveal_strlit("Type");
    reveal_strlit("Application");
    reveal_strlit("Name=");
    reveal_strlit("Name");
    reveal_strlit("Exec=");
    reveal_strlit("Exec");
    reveal_strlit("Icon=");
    reveal_strlit("Icon");
    reveal_strlit("Terminal=false");
    reveal_strlit("Terminal");
    reveal_strlit("false");
    reveal_strlit("Categories=");
    reveal_strlit("Categories");
    reveal_strlit("Keywords=");
    reveal_strlit("Keywords");
    reveal_strlit("Comment=");
    reveal_strlit("Comment");
    let l0 = "[Desktop Entry]"@;
    let l1 = "Type=Application"@;
    let l2 = "Name="@ + name;
    let l3 = "Exec="@ + exec_path;
    let l4 = "Icon="@ + icon;
    let l5 = "Terminal=false"@;
    let lc = "Categories="@ + cats;
    let lk = "Keywords="@ + kw;
    let lm = "Comment="@ + comment;
    let lines = render_lines(name, exec_path, icon, cats, kw, comment);
    let s = render_spec(name, exec_path, icon, cats, kw, comment);

    // each rendered line splits into key, `=`, value
    assert(l1 =~= "Type"@ + seq!['='] + "Application"@);
    assert(l2 =~= "Name"@ + seq!['='] + name);
    assert(l3 =~= "Exec"@ + seq!['='] + exec_path);
    assert(l4 =~= "Icon"@ + seq!['='] + icon);
    assert(l5 =~= "Terminal"@ + seq!['='] + "false"@);
    assert(lc =~= "Categories"@ + seq!['='] + cats);
    assert(lk =~= "Keywords"@ + seq!['='] + kw);
    assert(lm =~= "Comment"@ + seq!['='] + comment);

    // no key holds an `=`, and the header line holds none at all
    assert(forall|j: int| 0 <= j < "Type"@.len() ==> "Type"@[j] != '=');
    assert(forall|j: int| 0 <= j < "Name"@.len() ==> "Name"@[j] != '=');
    assert(forall|j: int| 0 <= j < "Exec"@.len() ==> "Exec"@[j] != '=');
    assert(forall|j: int| 0 <= j < "Icon"@.len() ==> "Icon"@[j] != '=');
    assert(forall|j: int| 0 <= j < "Terminal"@.len() ==> "Terminal"@[j] != '=');
    assert(forall|j: int| 0 <= j < "Categories"@.len() ==> "Categories"@[j] != '=');
    assert(forall|j: int| 0 <= j < "Keywords"@.len() ==> "Keywords"@[j] != '=');
    assert(forall|j: int| 0 <= j < "Comment"@.len() ==> "Comment"@[j] != '=');
    assert(forall|j: int| 0 <= j < l0.len() ==> l0[j] != '=');

    lemma_parse_plain_line(l0);
    lemma_parse_keyed_line("Type"@, "Application"@);
    lemma_parse_keyed_line("Name"@, name);
    lemma_parse_keyed_line("Exec"@, exec_path);
    lemma_parse_keyed_line("Icon"@, icon);
    lemma_parse_keyed_line("Terminal"@, "false"@);
    lemma_parse_keyed_line("Categories"@, cats);
    lemma_parse_keyed_line("Keywords"@, kw);
    lemma_parse_keyed_line("Comment"@, comment);
    assert(find_char(Seq::<char>::empty(), '=') == -1);
    assert(parse_line(Seq::<char>::empty()) is None);

    // the keys are already trimmed
    lemma_trim_stable("Type"@);
    lemma_trim_stable("Name"@);
    lemma_trim_stable("Exec"@);
    lemma_trim_stable("Icon"@);
    lemma_trim_stable("Terminal"@);
    lemma_trim_stable("Categories"@);
    lemma_trim_stable("Keywords"@);
    lemma_trim_stable("Comment"@);

    let kv0 = ("Type"@, trim("Application"@));
    let kv1 = ("Name"@, trim(name));
    let kv2 = ("Exec"@, trim(exec_path));
    let kv3 = ("Icon"@, trim(icon));
    let kv4 = ("Terminal"@, trim("false"@));
    let kvc = ("Categories"@, trim(cats));
    let kvk = ("Keywords"@, trim(kw));
    let kvm = ("Comment"@, trim(comment));
    assert(parse_line(l1) == Some(kv0));
    assert(parse_line(l2) == Some(kv1));
    assert(parse_line(l3) == Some(kv2));
    assert(parse_line(l4) == Some(kv3));
    assert(parse_line(l5) == Some(kv4));
    assert(parse_line(lc) == Some(kvc));
    assert(parse_line(lk) == Some(kvk));
    assert(parse_line(lm) == Some(kvm));

    // no rendered line holds a line break
    assert(newline_free(l0));
    assert(newline_free(l1));
    assert(newline_free(l5));
    assert forall|j: int| 0 <= j < l2.len() implies l2[j] != '\n' by {
        if j < "Name="@.len() {
            assert(l2[j] == "Name="@[j]);
        } else {
            assert(l2[j] == name[j - "Name="@.len()]);
        }
    }
    assert forall|j: int| 0 <= j < l3.len() implies l3[j] != '\n' by {
        if j < "Exec="@.len() {
            assert(l3[j] == "Exec="@[j]);
        } else {
            assert(l3[j] == exec_path[j - "Exec="@.len()]);
        }
    }
    assert forall|j: int| 0 <= j < l4.len() implies l4[j] != '\n' by {
        if j < "Icon="@.len() {
            assert(l4[j] == "Icon="@[j]);
        } else {
            assert(l4[j] == icon[j - "Icon="@.len()]);
        }
    }
    assert forall|j: int| 0 <= j < lc.len() implies lc[j] != '\n' by {
        if j < "Categories="@.len() {
            assert(lc[j] == "Categories="@[j]);
        } else {
            assert(lc[j] == cats[j - "Categories="@.len()]);
        }
    }
    assert forall|j: int| 0 <= j < lk.len() implies lk[j] != '\n' by {
        if j < "Keywords="@.len() {
            assert(lk[j] == "Keywords="@[j]);
        } else {
            assert(lk[j] == kw[j - "Keywords="@.len()]);
        }
    }
    assert forall|j: int| 0 <= j < lm.len() implies lm[j] != '\n' by {
        if j < "Comment="@.len() {
            assert(lm[j] == "Comment="@[j]);
        } else {
            assert(lm[j] == comment[j - "Comment="@.len()]);
        }
    }

    // the keys other than the four carried fields never collide with
    // them, and the four are pairwise distinct
    assert("Type"@ != "Icon"@);
    assert("Type"@ != "Categories"@);
    assert("Type"@ != "Keywords"@);
    assert("Type"@ != "Comment"@);
    assert("Name"@ != "Icon"@);
    assert("Name"@ != "Categories"@);
    assert("Name"@ != "Keywords"@);
    assert("Name"@ != "Comment"@);
    assert("Exec"@ != "Icon"@);
    assert("Exec"@ != "Categories"@);
    assert("Exec"@ != "Keywords"@);
    assert("Exec"@ != "Comment"@);
    assert("Terminal"@ != "Icon"@);
    assert("Terminal"@ != "Categories"@);
    assert("Terminal"@ != "Keywords"@);
    assert("Terminal"@ != "Comment"@);
    assert("Categories"@ != "Icon"@);
    assert("Categories"@ != "Keywords"@);
    assert("Categories"@ != "Comment"@);
    assert("Keywords"@ != "Icon"@);
    assert("Keywords"@ != "Comment"@);
    assert("Comment"@ != "Icon"@);

    // the unconditional lines and their entries
    let base = seq![l0, l1, l2, l3, l4, l5];
    assert(seq![l0] =~= Seq::<Seq<char>>::empty().push(l0));
    lemma_entries_of_lines_snoc(Seq::<Seq<char>>::empty(), l0);
    assert(entries_of_lines(seq![l0]) =~= Seq::<(Seq<char>, Seq<char>)>::empty());
    assert(seq![l0, l1] =~= seq![l0].push(l1));
    lemma_entries_of_lines_snoc(seq![l0], l1);
    assert(entries_of_lines(seq![l0, l1]) =~= seq![kv0]);
    assert(seq![l0, l1, l2] =~= seq![l0, l1].push(l2));
    lemma_entries_of_lines_snoc(seq![l0, l1], l2);
    assert(entries_of_lines(seq![l0, l1, l2]) =~= seq![kv0, kv1]);
    assert(seq![l0, l1, l2, l3] =~= seq![l0, l1, l2].push(l3));
    lemma_entries_of_lines_snoc(seq![l0, l1, l2], l3);
    assert(entries_of_lines(seq![l0, l1, l2, l3]) =~= seq![kv0, kv1, kv2]);
    assert(seq![l0, l1, l2, l3, l4] =~= seq![l0, l1, l2, l3].push(l4));
    lemma_entries_of_lines_snoc(seq![l0, l1, l2, l3], l4);
    assert(entries_of_lines(seq![l0, l1, l2, l3, l4]) =~= seq![kv0, kv1, kv2, kv3]);
    assert(base =~= seq![l0, l1, l2, l3, l4].push(l5));
    lemma_entries_of_lines_snoc(seq![l0, l1, l2, l3, l4], l5);
    assert(entries_of_lines(base) =~= seq![kv0, kv1, kv2, kv3, kv4]);

    // lookup facts over growing entry lists, for every key at once
    assert(seq![kv0] =~= Seq::<(Seq<char>, Seq<char>)>::empty().push(kv0));
    lemma_lookup_snoc(Seq::<(Seq<char>, Seq<char>)>::empty(), kv0);
    assert(seq![kv0, kv1] =~= seq![kv0].push(kv1));
    lemma_lookup_snoc(seq![kv0], kv1);
    assert(seq![kv0, kv1, kv2] =~= seq![kv0, kv1].push(kv2));
    lemma_lookup_snoc(seq![kv0, kv1], kv2);
    assert(seq![kv0, kv1, kv2, kv3] =~= seq![kv0, kv1, kv2].push(kv3));
    lemma_lookup_snoc(seq![kv0, kv1, kv2], kv3);
    assert(seq![kv0, kv1, kv2, kv3, kv4] =~= seq![kv0, kv1, kv2, kv3].push(kv4));
    lemma_lookup_snoc(seq![kv0, kv1, kv2, kv3], kv4);

    let e_base = seq![kv0, kv1, kv2, kv3, kv4];
    let e_cats = seq![kv0, kv1, kv2, kv3, kv4, kvc];
    assert(e_cats =~= e_base.push(kvc));
    lemma_lookup_snoc(e_base, kvc);
    lemma_entries_of_lines_snoc(base, lc);
    assert(base.push(lc) =~= seq![l0, l1, l2, l3, l4, l5, lc]);
    assert(entries_of_lines(seq![l0, l1, l2, l3, l4, l5, lc]) =~= e_cats);

    assert(lookup_spec(e_cats, "Icon"@) == Some(trim(icon)));
    assert(lookup_spec(e_cats, "Categories"@) == Some(trim(cats)));
    assert(lookup_spec(e_cats, "Keywords"@) is None);
    assert(lookup_spec(e_cats, "Comment"@) is None);

    if kw.len() > 0 {
        let e_kw = e_cats.push(kvk);
        lemma_lookup_snoc(e_cats, kvk);
        lemma_entries_of_lines_snoc(seq![l0, l1, l2, l3, l4, l5, lc], lk);
        assert(seq![l0, l1, l2, l3, l4, l5, lc].push(lk) =~= seq![l0, l1, l2, l3, l4, l5, lc, lk]);
        assert(entries_of_lines(seq![l0, l1, l2, l3, l4, l5, lc, lk]) =~= e_kw);
        if comment.len() > 0 {
            let lns = seq![l0, l1, l2, l3, l4, l5, lc, lk, lm];
            assert(lines =~= lns);
            let e_all = e_kw.push(kvm);
            lemma_lookup_snoc(e_kw, kvm);
            lemma_entries_of_lines_snoc(seq![l0, l1, l2, l3, l4, l5, lc, lk], lm);
            assert(seq![l0, l1, l2, l3, l4, l5, lc, lk].push(lm) =~= lns);
            assert(entries_of_lines(lns) =~= e_all);
            assert(forall|i: int| 0 <= i < lines.len() ==> newline_free(#[trigger] lines[i]));
            lemma_split_join(lines);
            lemma_entries_of_lines_snoc(lns, Seq::<char>::empty());
            assert(lines.push(Seq::<char>::empty()) =~= lns.push(Seq::<char>::empty()));
            assert(entries_of_lines(lns.push(Seq::<char>::empty())) =~= e_all);
            assert(parse_entries_spec(s) == entries_of_lines(lns.push(Seq::<char>::empty())));
        } else {
            let lns = seq![l0, l1, l2, l3, l4, l5, lc, lk];
            assert(lines =~= lns);
            assert(forall|i: int| 0 <= i < lines.len() ==> newline_free(#[trigger] lines[i]));
            lemma_split_join(lines);
            lemma_entries_of_lines_snoc(lns, Seq::<char>::empty());
            assert(lines.push(Seq::<char>::empty()) =~= lns.push(Seq::<char>::empty()));
            assert(entries_of_lines(lns.push(Seq::<char>::empty())) =~= e_kw);
            assert(parse_entries_spec(s) == entries_of_lines(lns.push(Seq::<char>::empty())));
        }
    } else {
        if comment.len() > 0 {
            let lns = seq![l0, l1, l2, l3, l4, l5, lc, lm];
            assert(lines =~= lns);
            let e_all = e_cats.push(kvm);
            lemma_lookup_snoc(e_cats, kvm);
            lemma_entries_of_lines_snoc(seq![l0, l1, l2, l3, l4, l5, lc], lm);
            assert(seq![l0, l1, l2, l3, l4, l5, lc].push(lm) =~= lns);
            assert(entries_of_lines(lns) =~= e_all);
            assert(forall|i: int| 0 <= i < lines.len() ==> newline_free(#[trigger] lines[i]));
            lemma_split_join(lines);
            lemma_entries_of_lines_snoc(lns, Seq::<char>::empty());
            assert(lines.push(Seq::<char>::empty()) =~= lns.push(Seq::<char>::empty()));
            assert(entries_of_lines(lns.push(Seq::<char>::empty())) =~= e_all);
            assert(parse_entries_spec(s) == entries_of_lines(lns.push(Seq::<char>::empty())));
        } else {
            let lns = seq![l0, l1, l2, l3, l4, l5, lc];
            assert(lines =~= lns);
            assert(forall|i: int| 0 <= i < lines.len() ==> newline_free(#[trigger] lines[i]));
            lemma_split_join(lines);
            lemma_entries_of_lines_snoc(lns, Seq::<char>::empty());
            assert(lines.push(Seq::<char>::empty()) =~= lns.push(Seq::<char>::empty()));
            assert(entries_of_lines(lns.push(Seq::<char>::empty())) =~= e_cats);
            assert(parse_entries_spec(s) == entries_of_lines(lns.push(Seq::<char>::empty())));
        }
    }
}

proof fn lemma_default_icon_ok()
    ensures
        value_ok(default_icon()),
{
    reveal_strlit("application-x-executable");
    assert(forall|j: int| 0 <= j < default_icon().len() ==> default_icon()[j] != '\n');
}

proof fn lemma_utility_literal_ok()
    ensures
        value_ok("Utility;"@),
{
    reveal_strlit("Utility;");
    assert(forall|j: int| 0 <= j < "Utility;"@.len() ==> "Utility;"@[j] != '\n');
}

proof fn lemma_ensure_utility_ok(c: Seq<char>)
    requires
        c.len() > 0,
        value_ok(c),
    ensures
        value_ok(ensure_utility_spec(c)),
{
    reveal_strlit("Utility;");
    let with_util: Seq<char> = if contains_seq(c, "Utility"@) {
        c
    } else {
        "Utility;"@ + c
    };
    assert forall|j: int| 0 <= j < with_util.len() implies with_util[j] != '\n' by {
        if !contains_seq(c, "Utility"@) {
            if j < "Utility;"@.len() {
                assert(with_util[j] == "Utility;"@[j]);
            } else {
                assert(with_util[j] == c[j - "Utility;"@.len()]);
            }
        }
    }
    assert(!is_space(with_util[0]));
    assert(with_util[with_util.len() - 1] == c[c.len() - 1]);
    if with_util[with_util.len() - 1] == ';' {
    } else {
        let r = with_util + seq![';'];
        assert forall|j: int| 0 <= j < r.len() implies r[j] != '\n' by {
            if j < with_util.len() {
                assert(r[j] == with_util[j]);
            } else {
                assert(r[j] == ';');
            }
        }
        assert(r[0] == with_util[0]);
        assert(!is_space(r[r.len() - 1]));
    }
}

/// Synchronizing twice with the same source and no new icon writes
/// the same descriptor text both times: merging a descriptor with
/// itself changes nothing.  The application name and executable path
/// hold no line break, as path components never do.
pub proof fn lemma_synthesize_idempotent(
    name: Seq<char>,
    exec_path: Seq<char>,
    prior: Option<Seq<char>>,
)
    requires
        newline_free(name),
        newline_free(exec_path),
    ensures
        synthesize_spec(
            name,
            exec_path,
            None,
            Some(synthesize_spec(name, exec_path, None, prior)),
        ) == synthesize_spec(name, exec_path, None, prior),
{
    let e0 = prior_entries_spec(prior);
    match prior {
        Some(p) => {
            lemma_parse_values_ok(p);
            lemma_lookup_value_ok(parse_entries_spec(p), "Icon"@);
            lemma_lookup_value_ok(parse_entries_spec(p), "Categories"@);
            lemma_lookup_value_ok(parse_entries_spec(p), "Keywords"@);
            lemma_lookup_value_ok(parse_entries_spec(p), "Comment"@);
        },
        None => {},
    }
    let icon1 = resolved_icon_spec(None, e0);
    let cats1 = normalize_categories_spec(lookup_spec(e0, "Categories"@));
    let kw1 = opt_or_empty(lookup_spec(e0, "Keywords"@));
    let com1 = opt_or_empty(lookup_spec(e0, "Comment"@));
    let c1 = synthesize_spec(name, exec_path, None, prior);
    assert(c1 == render_spec(name, exec_path, icon1, cats1, kw1, com1));

    lemma_default_icon_ok();
    assert(value_ok(icon1));
    lemma_utility_literal_ok();
    match lookup_spec(e0, "Categories"@) {
        Some(c) => {
            if c.len() > 0 {
                lemma_ensure_utility_ok(c);
            }
        },
        None => {},
    }
    assert(value_ok(cats1));
    assert(value_ok(kw1));
    assert(value_ok(com1));
    lemma_categories_normalized(lookup_spec(e0, "Categories"@));

    lemma_lookups_of_rendered(name, exec_path, icon1, cats1, kw1, com1);
    let e1 = parse_entries_spec(c1);

    lemma_trim_stable(icon1);
    lemma_trim_stable(cats1);
    lemma_trim_stable(kw1);
    lemma_trim_stable(com1);
    assert(resolved_icon_spec(None, e1) == icon1);
    assert(lookup_spec(e1, "Categories"@) == Some(cats1));
    assert(ensure_utility_spec(cats1) == cats1);
    assert(normalize_categories_spec(lookup_spec(e1, "Categories"@)) == cats1);
    assert(opt_or_empty(lookup_spec(e1, "Keywords"@)) == kw1);
    assert(opt_or_empty(lookup_spec(e1, "Comment"@)) == com1);
    assert(synthesize_spec(name, exec_path, None, Some(c1)) == render_spec(
        name,
        exec_path,
        icon1,
        cats1,
        kw1,
        com1,
    ));
}

/// With no newly staged icon, a prior descriptor's `Icon` value runs
/// into the merged text exactly as if it had been supplied anew.
pub proof fn lemma_icon_preserved(
    name: Seq<char>,
    exec_path: Seq<char>,
    prior: Seq<char>,
    v: Seq<char>,
)
    requires
        lookup_spec(parse_entries_spec(prior), "Icon"@) == Some(v),
    ensures
        synthesize_spec(name, exec_path, None, Some(prior)) == synthesize_spec(
            name,
            exec_path,
            Some(v),
            Some(prior),
        ),
{
}

} // verus!
