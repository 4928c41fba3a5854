//! The text of desktop entries: escaped values, quoted command arguments and
//! the entry file itself.

use vstd::prelude::*;
use crate::text::{chars_of, rewrite, rewrite_char, rewrite_chars, string_of, trim, trim_chars, Rewrite};

verus! {

/// A value as it stands in a desktop entry: backslashes doubled, line breaks
/// turned into spaces, then trimmed.
pub open spec fn desktop_text(v: Seq<char>) -> Seq<char> {
    trim(rewrite(Rewrite::DesktopValue, v))
}

/// An argument of the `Exec=` line: in double quotes, with `\`, `"`, `` ` ``
/// and `$` preceded by a backslash.
pub open spec fn quoted(v: Seq<char>) -> Seq<char> {
    seq!['"'] + rewrite(Rewrite::ExecArgument, v) + seq!['"']
}

/// One keyword as it stands in the `Keywords=` list: a desktop value with
/// each `;` turned into a space.
pub open spec fn keyword_text(v: Seq<char>) -> Seq<char> {
    rewrite(Rewrite::KeywordSeparator, desktop_text(v))
}

/// The keywords that are listed, in order: the non-empty ones, as keyword text.
pub open spec fn kept_keywords(keywords: Seq<Seq<char>>) -> Seq<Seq<char>>
    decreases keywords.len(),
{
    if keywords.len() == 0 {
        seq![]
    } else if keywords.last().len() > 0 {
        kept_keywords(keywords.drop_last()).push(keyword_text(keywords.last()))
    } else {
        kept_keywords(keywords.drop_last())
    }
}

/// The listed keywords are exactly the keywords that are not empty, each as
/// keyword text, in the order given: no keyword that is not empty is left
/// out, none is added, none is moved.
pub proof fn lemma_kept_keywords_are_the_non_empty_ones(keywords: Seq<Seq<char>>)
    ensures
        kept_keywords(keywords) == keywords.filter(|k: Seq<char>| k.len() > 0).map_values(
            |k: Seq<char>| keyword_text(k),
        ),
        forall|i: int|
            0 <= i < keywords.len() && keywords[i].len() > 0 ==> kept_keywords(keywords).contains(
                keyword_text(#[trigger] keywords[i]),
            ),
    decreases keywords.len(),
{
    let pred = |k: Seq<char>| k.len() > 0;
    let f = |k: Seq<char>| keyword_text(k);
    reveal(Seq::filter);
    if keywords.len() > 0 {
        lemma_kept_keywords_are_the_non_empty_ones(keywords.drop_last());
        let rest = keywords.drop_last().filter(pred);
        if keywords.last().len() > 0 {
            assert(keywords.filter(pred) == rest.push(keywords.last()));
            assert(rest.push(keywords.last()).map_values(f) =~= rest.map_values(f).push(
                keyword_text(keywords.last()),
            ));
        } else {
            assert(keywords.filter(pred) == rest);
        }
    }
    assert(kept_keywords(keywords) =~= keywords.filter(pred).map_values(f));
    assert forall|i: int|
        0 <= i < keywords.len() && keywords[i].len() > 0 implies kept_keywords(keywords).contains(
        keyword_text(#[trigger] keywords[i]),
    ) by {
        keywords.lemma_filter_contains(pred, i);
        let filtered = keywords.filter(pred);
        let j = choose|j: int| 0 <= j < filtered.len() && filtered[j] == keywords[i];
        assert(filtered.map_values(f)[j] == keyword_text(keywords[i]));
    }
}

/// The value of the `Keywords=` line, before its final `;`.
pub open spec fn keyword_field(keywords: Seq<Seq<char>>) -> Seq<char> {
    crate::text::join(kept_keywords(keywords), ";"@)
}

/// The quoted arguments, each preceded by a space.
pub open spec fn spaced_arguments(arguments: Seq<Seq<char>>) -> Seq<char>
    decreases arguments.len(),
{
    if arguments.len() == 0 {
        seq![]
    } else {
        spaced_arguments(arguments.drop_last()) + " "@ + quoted(arguments.last())
    }
}

/// The value of the `Exec=` line: the quoted executable, then the quoted arguments.
pub open spec fn command_line(executable: Seq<char>, arguments: Seq<Seq<char>>) -> Seq<char> {
    quoted(executable) + spaced_arguments(arguments)
}

/// The text of a desktop entry that runs `executable` with `arguments`.
pub open spec fn entry_text(
    executable: Seq<char>,
    name: Seq<char>,
    keywords: Seq<Seq<char>>,
    arguments: Seq<Seq<char>>,
    icon: Seq<char>,
) -> Seq<char> {
    "[Desktop Entry]\nType=Application\nName="@ + desktop_text(name) + "\nKeywords="@
        + keyword_field(keywords) + ";\nExec="@ + command_line(executable, arguments)
        + "\nIcon="@ + desktop_text(icon)
        + "\nTerminal=false\nCategories=Network;WebBrowser;\nStartupNotify=false\nX-Zen-Tab-Launcher=true\n"@
}

/// `value` made fit for a desktop entry: backslashes doubled, line breaks
/// turned into spaces, surrounding whitespace dropped.
pub fn desktop_value(value: &str) -> (res: String)
    ensures
        res@ == desktop_text(value@),
        forall|i: int| 0 <= i < res@.len() ==> #[trigger] res@[i] != '\n' && res@[i] != '\r',
{
    proof {
        lemma_desktop_text_single_line(value@);
    }
    let v = chars_of(value);
    let escaped = rewrite_chars(Rewrite::DesktopValue, &v);
    let trimmed = trim_chars(&escaped);
    string_of(&trimmed)
}

/// `value` as one argument of an `Exec=` line: quoted and escaped.
pub fn exec_quote(value: &str) -> (res: String)
    ensures
        res@ == quoted(value@),
{
    let v = chars_of(value);
    let mut out: Vec<char> = Vec::new();
    out.push('"');
    let escaped = rewrite_chars(Rewrite::ExecArgument, &v);
    let mut i: usize = 0;
    while i < escaped.len()
        invariant
            i <= escaped.len(),
            out@ == seq!['"'] + escaped@.take(i as int),
        decreases escaped.len() - i,
    {
        out.push(escaped[i]);
        assert(escaped@.take(i + 1) == escaped@.take(i as int).push(escaped@[i as int]));
        i = i + 1;
    }
    out.push('"');
    assert(escaped@.take(escaped.len() as int) == escaped@);
    string_of(&out)
}

/// Joining one more element onto a list.
proof fn lemma_join_push(list: Seq<Seq<char>>, x: Seq<char>, sep: Seq<char>)
    ensures
        crate::text::join(list.push(x), sep) == if list.len() == 0 {
            x
        } else {
            crate::text::join(list, sep) + sep + x
        },
{
    assert(list.push(x).drop_last() == list);
}

/// The value of the `Keywords=` line for `keywords`, before its final `;`.
pub fn keyword_list(keywords: &[String]) -> (res: String)
    ensures
        res@ == keyword_field(keywords.deep_view()),
{
    let ghost ks = keywords.deep_view();
    let mut res = String::new();
    let mut first = true;
    let mut i: usize = 0;
    while i < keywords.len()
        invariant
            i <= keywords@.len(),
            ks == keywords.deep_view(),
            ks.len() == keywords@.len(),
            res@ == crate::text::join(kept_keywords(ks.take(i as int)), ";"@),
            first == (kept_keywords(ks.take(i as int)).len() == 0),
        decreases keywords@.len() - i,
    {
        let k = &keywords[i];
        assert(ks[i as int] == k@);
        assert(ks.take(i + 1).drop_last() == ks.take(i as int));
        let v = chars_of(k.as_str());
        if v.len() > 0 {
            let text = desktop_value(k.as_str());
            let tv = chars_of(text.as_str());
            let kw = rewrite_chars(Rewrite::KeywordSeparator, &tv);
            proof {
                lemma_join_push(kept_keywords(ks.take(i as int)), kw@, ";"@);
            }
            if !first {
                res.append(";");
            }
            let kws = string_of(&kw);
            res.append(kws.as_str());
            first = false;
        }
        i = i + 1;
    }
    assert(ks.take(keywords@.len() as int) == ks);
    res
}

/// The value of the `Exec=` line.
pub fn command(executable: &str, arguments: &[&str]) -> (res: String)
    ensures
        res@ == command_line(executable@, arguments.deep_view()),
{
    let ghost args = arguments.deep_view();
    let mut res = exec_quote(executable);
    let mut i: usize = 0;
    while i < arguments.len()
        invariant
            i <= arguments@.len(),
            args == arguments.deep_view(),
            args.len() == arguments@.len(),
            res@ == quoted(executable@) + spaced_arguments(args.take(i as int)),
        decreases arguments@.len() - i,
    {
        assert(args[i as int] == arguments@[i as int]@);
        assert(args.take(i + 1).drop_last() == args.take(i as int));
        res.append(" ");
        let q = exec_quote(arguments[i]);
        res.append(q.as_str());
        i = i + 1;
    }
    assert(args.take(arguments@.len() as int) == args);
    res
}

/// Rewriting a value for a desktop entry leaves no line break.
proof fn lemma_rewrite_desktop_single_line(s: Seq<char>)
    ensures
        forall|i: int|
            0 <= i < rewrite(Rewrite::DesktopValue, s).len() ==> #[trigger] rewrite(
                Rewrite::DesktopValue,
                s,
            )[i] != '\n' && rewrite(Rewrite::DesktopValue, s)[i] != '\r',
    decreases s.len(),
{
    if s.len() > 0 {
        lemma_rewrite_desktop_single_line(s.drop_last());
        let r = rewrite(Rewrite::DesktopValue, s);
        let p = rewrite(Rewrite::DesktopValue, s.drop_last());
        assert forall|i: int| 0 <= i < r.len() implies #[trigger] r[i] != '\n' && r[i] != '\r' by {
            if i < p.len() {
                assert(r[i] == p[i]);
            }
        }
    }
}

/// Rewriting keyword separators leaves no `;`.
proof fn lemma_rewrite_keyword_no_separator(s: Seq<char>)
    ensures
        forall|i: int|
            0 <= i < rewrite(Rewrite::KeywordSeparator, s).len() ==> #[trigger] rewrite(
                Rewrite::KeywordSeparator,
                s,
            )[i] != ';',
        forall|i: int|
            0 <= i < rewrite(Rewrite::KeywordSeparator, s).len() ==> (s.contains(
                #[trigger] rewrite(Rewrite::KeywordSeparator, s)[i],
            ) || rewrite(Rewrite::KeywordSeparator, s)[i] == ' '),
    decreases s.len(),
{
    if s.len() > 0 {
        lemma_rewrite_keyword_no_separator(s.drop_last());
        let r = rewrite(Rewrite::KeywordSeparator, s);
        let p = rewrite(Rewrite::KeywordSeparator, s.drop_last());
        assert forall|i: int| 0 <= i < r.len() implies (s.contains(#[trigger] r[i]) || r[i] == ' ') by {
            if i < p.len() {
                assert(r[i] == p[i]);
                if s.drop_last().contains(p[i]) {
                    let j = choose|j: int| 0 <= j < s.drop_last().len() && s.drop_last()[j] == p[i];
                    assert(s[j] == p[i]);
                }
            } else {
                assert(s[s.len() - 1] == s.last());
            }
        }
    }
}

/// A desktop value is one line: it holds no line break, and neither begins
/// nor ends with whitespace.
pub proof fn lemma_desktop_text_single_line(v: Seq<char>)
    ensures
        forall|i: int|
            0 <= i < desktop_text(v).len() ==> #[trigger] desktop_text(v)[i] != '\n' && desktop_text(
                v,
            )[i] != '\r',
        desktop_text(v).len() > 0 ==> !crate::text::is_whitespace(desktop_text(v)[0])
            && !crate::text::is_whitespace(desktop_text(v).last()),
{
    let r = rewrite(Rewrite::DesktopValue, v);
    lemma_rewrite_desktop_single_line(v);
    crate::text::lemma_trim(r);
    assert forall|i: int| 0 <= i < desktop_text(v).len() implies #[trigger] desktop_text(v)[i] != '\n'
        && desktop_text(v)[i] != '\r' by {
        assert(r.contains(trim(r)[i]));
    }
}

/// A keyword as listed holds no `;` and no line break, so the `Keywords=`
/// line splits back into exactly the listed keywords.
pub proof fn lemma_keyword_text_clean(v: Seq<char>)
    ensures
        forall|i: int|
            0 <= i < keyword_text(v).len() ==> #[trigger] keyword_text(v)[i] != ';' && keyword_text(
                v,
            )[i] != '\n' && keyword_text(v)[i] != '\r',
{
    lemma_desktop_text_single_line(v);
    lemma_rewrite_keyword_no_separator(desktop_text(v));
    assert forall|i: int| 0 <= i < keyword_text(v).len() implies #[trigger] keyword_text(v)[i] != ';'
        && keyword_text(v)[i] != '\n' && keyword_text(v)[i] != '\r' by {
        let d = desktop_text(v);
        if d.contains(keyword_text(v)[i]) {
            let j = choose|j: int| 0 <= j < d.len() && d[j] == keyword_text(v)[i];
            assert(d[j] != '\n');
        }
    }
}

/// What a desktop launcher reads back from the inside of a quoted argument:
/// each backslash dropped, and the character after it kept as it is.
pub open spec fn unescape(s: Seq<char>) -> Seq<char>
    decreases s.len(),
{
    if s.len() == 0 {
        seq![]
    } else if s[0] == '\\' && s.len() >= 2 {
        seq![s[1]] + unescape(s.skip(2))
    } else {
        seq![s[0]] + unescape(s.drop_first())
    }
}

/// Rewriting takes the characters one by one from the front too.
proof fn lemma_rewrite_front(rule: Rewrite, v: Seq<char>)
    requires
        v.len() > 0,
    ensures
        rewrite(rule, v) == rewrite_char(rule, v[0]) + rewrite(rule, v.drop_first()),
    decreases v.len(),
{
    if v.len() == 1 {
        assert(v.drop_last() == Seq::<char>::empty());
        assert(v.drop_first() == Seq::<char>::empty());
        assert(rewrite(rule, v) == rewrite(rule, v.drop_last()) + rewrite_char(rule, v.last()));
    } else {
        lemma_rewrite_front(rule, v.drop_last());
        assert(v.drop_first().drop_last() == v.drop_last().drop_first());
        assert(v.drop_first().last() == v.last());
        assert(v.drop_last()[0] == v[0]);
    }
}

/// Quoting an argument loses nothing: the launcher that reads the quoted
/// argument back, dropping the quotes and the escaping backslashes, gets
/// exactly the original argument.
pub proof fn lemma_exec_quote_round_trip(v: Seq<char>)
    ensures
        quoted(v).len() >= 2,
        quoted(v)[0] == '"',
        quoted(v).last() == '"',
        unescape(quoted(v).subrange(1, quoted(v).len() - 1)) == v,
    decreases v.len(),
{
    let r = rewrite(Rewrite::ExecArgument, v);
    assert(quoted(v).subrange(1, quoted(v).len() - 1) == r);
    if v.len() > 0 {
        lemma_rewrite_front(Rewrite::ExecArgument, v);
        lemma_exec_quote_round_trip(v.drop_first());
        let rest = rewrite(Rewrite::ExecArgument, v.drop_first());
        assert(quoted(v.drop_first()).subrange(1, quoted(v.drop_first()).len() - 1) == rest);
        let c = v[0];
        if c == '\\' || c == '"' || c == '`' || c == '$' {
            assert(r.skip(2) == rest);
        } else {
            assert(r.drop_first() == rest);
        }
        assert(v == seq![c] + v.drop_first());
    } else {
        assert(r == Seq::<char>::empty());
    }
}

/// Whether `c` is one of the characters that an `Exec=` argument escapes.
pub open spec fn is_exec_special(c: char) -> bool {
    c == '\\' || c == '"' || c == '`' || c == '$'
}

/// Whether `s` is made only of plain characters (none of the escaped ones)
/// and two-character escapes: a backslash followed by an escaped character.
pub open spec fn well_escaped(s: Seq<char>) -> bool
    decreases s.len(),
{
    if s.len() == 0 {
        true
    } else if s[0] == '\\' {
        s.len() >= 2 && is_exec_special(s[1]) && well_escaped(s.skip(2))
    } else {
        !is_exec_special(s[0]) && well_escaped(s.drop_first())
    }
}

/// The inside of a quoted argument is made only of plain characters and
/// two-character escapes.
pub proof fn lemma_exec_quote_well_escaped(v: Seq<char>)
    ensures
        well_escaped(quoted(v).subrange(1, quoted(v).len() - 1)),
    decreases v.len(),
{
    let r = rewrite(Rewrite::ExecArgument, v);
    assert(quoted(v).subrange(1, quoted(v).len() - 1) == r);
    if v.len() > 0 {
        lemma_rewrite_front(Rewrite::ExecArgument, v);
        lemma_exec_quote_well_escaped(v.drop_first());
        let rest = rewrite(Rewrite::ExecArgument, v.drop_first());
        assert(quoted(v.drop_first()).subrange(1, quoted(v.drop_first()).len() - 1) == rest);
        if is_exec_special(v[0]) {
            assert(r.skip(2) == rest);
        } else {
            assert(r.drop_first() == rest);
        }
    } else {
        assert(r == Seq::<char>::empty());
    }
}

/// The arguments of a command in order: the arguments of two lists one after
/// the other are those of the first list, then those of the second, and a
/// single argument stands quoted after one space.
pub proof fn lemma_spaced_arguments_concat(a: Seq<Seq<char>>, b: Seq<Seq<char>>, x: Seq<char>)
    ensures
        spaced_arguments(a + b) == spaced_arguments(a) + spaced_arguments(b),
        spaced_arguments(seq![x]) == " "@ + quoted(x),
    decreases b.len(),
{
    let one = seq![x];
    assert(one.drop_last() =~= Seq::<Seq<char>>::empty());
    assert(one.last() == x);
    assert(spaced_arguments(one.drop_last()) == Seq::<char>::empty());
    assert(spaced_arguments(one) =~= " "@ + quoted(x));
    if b.len() == 0 {
        assert(a + b =~= a);
        assert(spaced_arguments(a) + spaced_arguments(b) =~= spaced_arguments(a));
    } else {
        lemma_spaced_arguments_concat(a, b.drop_last(), x);
        assert((a + b).drop_last() =~= a + b.drop_last());
        assert((a + b).last() == b.last());
        assert(spaced_arguments(a + b) =~= spaced_arguments(a) + spaced_arguments(b.drop_last()) + " "@
            + quoted(b.last()));
    }
}

/// A keyword's `;` each become one space, and every other character stays
/// where it is: the keyword text has the length of the desktop value, and
/// differs from it only where the value holds a `;`.
pub proof fn lemma_keyword_text_replaces_separators(v: Seq<char>)
    ensures
        keyword_text(v).len() == desktop_text(v).len(),
        forall|i: int|
            0 <= i < desktop_text(v).len() ==> #[trigger] keyword_text(v)[i] == if desktop_text(v)[i]
                == ';' {
                ' '
            } else {
                desktop_text(v)[i]
            },
{
    lemma_separators_pointwise(desktop_text(v));
}

/// Replacing separators character by character.
proof fn lemma_separators_pointwise(s: Seq<char>)
    ensures
        rewrite(Rewrite::KeywordSeparator, s).len() == s.len(),
        forall|i: int|
            0 <= i < s.len() ==> #[trigger] rewrite(Rewrite::KeywordSeparator, s)[i] == if s[i] == ';' {
                ' '
            } else {
                s[i]
            },
    decreases s.len(),
{
    if s.len() > 0 {
        lemma_separators_pointwise(s.drop_last());
        let r = rewrite(Rewrite::KeywordSeparator, s.drop_last());
        assert forall|i: int| 0 <= i < s.len() implies #[trigger] rewrite(Rewrite::KeywordSeparator, s)[i]
            == if s[i] == ';' {
            ' '
        } else {
            s[i]
        } by {
            if i < s.len() - 1 {
                assert(s.drop_last()[i] == s[i]);
                assert(r[i] == rewrite(Rewrite::KeywordSeparator, s)[i]);
            }
        }
    }
}

/// What a desktop entry reader takes a value to mean: `\\` read as one
/// backslash, every other character as itself.
pub open spec fn desktop_unescape(s: Seq<char>) -> Seq<char>
    decreases s.len(),
{
    if s.len() == 0 {
        seq![]
    } else if s.len() >= 2 && s[0] == '\\' && s[1] == '\\' {
        seq!['\\'] + desktop_unescape(s.skip(2))
    } else {
        seq![s[0]] + desktop_unescape(s.drop_first())
    }
}

/// Escaping for a desktop value, read back, gives the value with its line
/// breaks as spaces.
proof fn lemma_desktop_rewrite_read_back(v: Seq<char>)
    ensures
        desktop_unescape(rewrite(Rewrite::DesktopValue, v)) == Seq::new(
            v.len(),
            |i: int| if v[i] == '\n' || v[i] == '\r' {
                ' '
            } else {
                v[i]
            },
        ),
    decreases v.len(),
{
    let target = Seq::new(
        v.len(),
        |i: int| if v[i] == '\n' || v[i] == '\r' {
            ' '
        } else {
            v[i]
        },
    );
    if v.len() == 0 {
        assert(target =~= Seq::<char>::empty());
    } else {
        lemma_rewrite_front(Rewrite::DesktopValue, v);
        lemma_desktop_rewrite_read_back(v.drop_first());
        let rest = rewrite(Rewrite::DesktopValue, v.drop_first());
        let r = rewrite(Rewrite::DesktopValue, v);
        let tail = Seq::new(
            v.drop_first().len(),
            |i: int| if v.drop_first()[i] == '\n' || v.drop_first()[i] == '\r' {
                ' '
            } else {
                v.drop_first()[i]
            },
        );
        if v[0] == '\\' {
            assert(r.skip(2) =~= rest);
            assert(r[0] == '\\' && r[1] == '\\');
        } else {
            assert(r.drop_first() =~= rest);
            assert(r[0] != '\\');
        }
        assert(target =~= seq![target[0]] + tail);
    }
}

/// A desktop value reads back as the value it was made from: where the value
/// neither begins nor ends with whitespace, reading the escaped value gives
/// the value back with each line break turned into a space (and so the value
/// itself where it has no line break).
pub proof fn lemma_desktop_value_read_back(v: Seq<char>)
    requires
        v.len() > 0 ==> !crate::text::is_whitespace(v[0]) && !crate::text::is_whitespace(v.last()),
    ensures
        desktop_unescape(desktop_text(v)) == Seq::new(
            v.len(),
            |i: int| if v[i] == '\n' || v[i] == '\r' {
                ' '
            } else {
                v[i]
            },
        ),
{
    let r = rewrite(Rewrite::DesktopValue, v);
    lemma_desktop_rewrite_read_back(v);
    if v.len() > 0 {
        lemma_rewrite_front(Rewrite::DesktopValue, v);
        assert(r[0] == rewrite_char(Rewrite::DesktopValue, v[0])[0]);
        assert(!crate::text::is_whitespace(r[0]));
        assert(r.last() == rewrite_char(Rewrite::DesktopValue, v.last()).last());
        assert(!crate::text::is_whitespace(r.last()));
        assert(crate::text::trim_start(r) == r);
        assert(crate::text::trim_end(r) == r);
    } else {
        assert(r == Seq::<char>::empty());
    }
    assert(desktop_text(v) == r);
}

} // verus!
