//! The client's configuration file, read for the host aliases that it
//! declares and for the files that it includes.

use vstd::prelude::*;
use crate::text::views;
use crate::text::chars_of;
use crate::text::string_of;
use crate::text::string_of_range;
use crate::text::trim;
use crate::text::trim_range;
use crate::text::is_space;
use crate::text::is_whitespace;
use crate::search::position;
use crate::search::find_char;
use crate::search::has_char;
use crate::split::word_len;
use crate::split::lemma_word_len;
use crate::split::words;
use crate::split::split_words;
use crate::split::rows;
use crate::split::lines;
use crate::split::split_lines;
use crate::case::eq_ignore_case;
use crate::case::eq_ignore_ascii_case;

verus! {

/// The keyword and the value of a line that has no white space at either
/// end. Where the line holds `=` with text on both sides, they are the two
/// sides. Else the keyword is the line's first word and the value the rest;
/// a line of one word has neither. Keyword and value have no white space at
/// their ends.
pub open spec fn keyword_and_value(line: Seq<char>) -> Option<(Seq<char>, Seq<char>)> {
    let n = line.len() as int;
    let e = position(line, '=');
    let w = word_len(line) as int;
    if 0 <= e < n && trim(line.subrange(0, e)).len() > 0 && trim(line.subrange(e + 1, n)).len()
        > 0 {
        Some((trim(line.subrange(0, e)), trim(line.subrange(e + 1, n))))
    } else if w < n && trim(line.subrange(w + 1, n)).len() > 0 {
        Some((line.subrange(0, w), trim(line.subrange(w + 1, n))))
    } else {
        None
    }
}

/// The bounds in `v` of the keyword and of the value of the line `v`.
pub fn keyword_bounds(v: &[char]) -> (r: Option<(usize, usize, usize, usize)>)
    ensures
        match r {
            Some((a, b, c, d)) => a <= b <= v@.len() && c <= d <= v@.len() && keyword_and_value(v@)
                == Some((v@.subrange(a as int, b as int), v@.subrange(c as int, d as int))),
            None => keyword_and_value(v@) is None,
        },
{
    let n: usize = v.len();
    assert(v@.subrange(0, n as int) =~= v@);
    let e = find_char(v, 0, n, '=');
    if e < n {
        let (ka, kb) = trim_range(v, 0, e);
        let (va, vb) = trim_range(v, e + 1, n);
        if ka < kb && va < vb {
            return Some((ka, kb, va, vb));
        }
    }
    let mut w: usize = 0;
    while w < n && !is_whitespace(v[w])
        invariant
            n == v@.len(),
            w <= n,
            forall|k: int| 0 <= k < w ==> !is_space(v@[k]),
        decreases n - w,
    {
        w += 1;
    }
    proof {
        lemma_word_len(v@, w as int);
    }
    if w < n {
        let (va, vb) = trim_range(v, w + 1, n);
        if va < vb {
            return Some((0, w, va, vb));
        }
    }
    None
}

/// The keyword and the value of a line that has no white space at either
/// end.
pub fn split_keyword(line: &str) -> (r: Option<(String, String)>)
    ensures
        match r {
            Some((k, v)) => keyword_and_value(line@) == Some((k@, v@)),
            None => keyword_and_value(line@) is None,
        },
{
    let v = chars_of(line);
    match keyword_bounds(v.as_slice()) {
        Some((a, b, c, d)) => Some(
            (string_of_range(v.as_slice(), a, b), string_of_range(v.as_slice(), c, d)),
        ),
        None => None,
    }
}

/// Whether `alias` is a pattern: it holds `*` or `?`, and so stands for
/// many hosts and names none.
pub open spec fn is_pattern(alias: Seq<char>) -> bool {
    alias.contains('*') || alias.contains('?')
}

/// Those of `tokens` that name a host.
pub open spec fn concrete(tokens: Seq<Seq<char>>) -> Seq<Seq<char>> {
    tokens.filter(|t: Seq<char>| !is_pattern(t))
}

/// What a line of the file means to the scan.
pub enum Directive {
    /// `Host`, with the aliases that it declares; patterns are left out.
    Host(Seq<Seq<char>>),
    /// `Match`: what follows holds only under a condition.
    Match,
    /// `Include`, with the pattern of the files to read.
    Include(Seq<char>),
    /// A blank line, a comment, or a directive that the scan passes over.
    Other,
}

/// What the line means to the scan. A line is blank or a comment where
/// nothing or `#` comes after its leading white space. The keyword is
/// recognised whatever the case of its letters.
pub open spec fn directive_of(line: Seq<char>) -> Directive {
    let t = trim(line);
    if t.len() == 0 || t[0] == '#' {
        Directive::Other
    } else {
        match keyword_and_value(t) {
            None => Directive::Other,
            Some((k, v)) => if eq_ignore_case(k, "host"@) {
                Directive::Host(concrete(words(v)))
            } else if eq_ignore_case(k, "match"@) {
                Directive::Match
            } else if eq_ignore_case(k, "include"@) {
                Directive::Include(v)
            } else {
                Directive::Other
            },
        }
    }
}

/// Whether the scan stands inside a `Match` block after these lines: the
/// last `Host` or `Match` line among them is a `Match` line.
pub open spec fn in_match_after(lines: Seq<Seq<char>>) -> bool
    decreases lines.len(),
{
    if lines.len() == 0 {
        false
    } else {
        match directive_of(lines.last()) {
            Directive::Host(_) => false,
            Directive::Match => true,
            _ => in_match_after(lines.drop_last()),
        }
    }
}

/// One thing that a configuration file asks of the scan.
#[derive(Debug, Clone)]
pub enum ConfigItem {
    /// A host alias that the file declares.
    Alias(String),
    /// A pattern of files to read as well.
    Include(String),
}

/// What a `ConfigItem` holds.
pub enum ItemView {
    Alias(Seq<char>),
    Include(Seq<char>),
}

impl View for ConfigItem {
    type V = ItemView;

    open spec fn view(&self) -> ItemView {
        match self {
            ConfigItem::Alias(a) => ItemView::Alias(a@),
            ConfigItem::Include(p) => ItemView::Include(p@),
        }
    }
}

/// The views of a list of items.
pub open spec fn item_views(items: Seq<ConfigItem>) -> Seq<ItemView> {
    Seq::new(items.len(), |i: int| items[i]@)
}

/// The aliases `a` as items.
pub open spec fn alias_items(a: Seq<Seq<char>>) -> Seq<ItemView> {
    Seq::new(a.len(), |i: int| ItemView::Alias(a[i]))
}

/// What a line asks of the scan: a `Host` line its aliases, an `Include`
/// line outside a `Match` block its pattern, any other line nothing.
pub open spec fn line_items(d: Directive, in_match: bool) -> Seq<ItemView> {
    match d {
        Directive::Host(a) => alias_items(a),
        Directive::Include(p) => if in_match {
            Seq::empty()
        } else {
            seq![ItemView::Include(p)]
        },
        _ => Seq::empty(),
    }
}

/// What the lines ask of the scan, in the order of the lines.
pub open spec fn items_of(lines: Seq<Seq<char>>) -> Seq<ItemView>
    decreases lines.len(),
{
    if lines.len() == 0 {
        Seq::empty()
    } else {
        items_of(lines.drop_last()).add(
            line_items(directive_of(lines.last()), in_match_after(lines.drop_last())),
        )
    }
}

/// The scan stands inside a `Match` block at line `i` when an earlier line
/// `j` is a `Match` line and no `Host` line lies between them.
pub proof fn lemma_in_match(lines: Seq<Seq<char>>, j: int, i: int)
    requires
        0 <= j < i <= lines.len(),
        directive_of(lines[j]) is Match,
        forall|k: int| j < k < i ==> !(directive_of(#[trigger] lines[k]) is Host),
    ensures
        in_match_after(lines.take(i)),
    decreases i - j,
{
    let t = lines.take(i);
    assert(t.last() == lines[i - 1]);
    if i - 1 > j {
        assert(t.drop_last() =~= lines.take(i - 1));
        if !(directive_of(lines[i - 1]) is Match) {
            lemma_in_match(lines, j, i - 1);
        }
    }
}

/// The scan stands outside any `Match` block at line `i` when no earlier
/// line is a `Match` line.
pub proof fn lemma_not_in_match(lines: Seq<Seq<char>>, i: int)
    requires
        0 <= i <= lines.len(),
        forall|k: int| 0 <= k < i ==> !(directive_of(#[trigger] lines[k]) is Match),
    ensures
        !in_match_after(lines.take(i)),
    decreases i,
{
    if i > 0 {
        let t = lines.take(i);
        assert(t.last() == lines[i - 1]);
        assert(t.drop_last() =~= lines.take(i - 1));
        lemma_not_in_match(lines, i - 1);
    }
}

/// An `Include` line after a `Match` line, with no `Host` line between
/// them, asks nothing of the scan; one that no `Match` line precedes asks
/// for its pattern.
pub proof fn lemma_include_and_match(lines: Seq<Seq<char>>, i: int)
    requires
        0 <= i < lines.len(),
        directive_of(lines[i]) is Include,
    ensures
        (exists|j: int|
            0 <= j < i && directive_of(lines[j]) is Match && forall|k: int|
                j < k < i ==> !(directive_of(#[trigger] lines[k]) is Host)) ==> line_items(
            directive_of(lines[i]),
            in_match_after(lines.take(i)),
        ) == Seq::<ItemView>::empty(),
        (forall|k: int| 0 <= k < i ==> !(directive_of(#[trigger] lines[k]) is Match))
            ==> line_items(directive_of(lines[i]), in_match_after(lines.take(i))) == seq![
            ItemView::Include(directive_of(lines[i])->Include_0),
        ],
{
    if exists|j: int|
        0 <= j < i && directive_of(lines[j]) is Match && forall|k: int|
            j < k < i ==> !(directive_of(#[trigger] lines[k]) is Host) {
        let j = choose|j: int|
            0 <= j < i && directive_of(lines[j]) is Match && forall|k: int|
                j < k < i ==> !(directive_of(#[trigger] lines[k]) is Host);
        lemma_in_match(lines, j, i);
    }
    if forall|k: int| 0 <= k < i ==> !(directive_of(#[trigger] lines[k]) is Match) {
        lemma_not_in_match(lines, i);
    }
}

/// What one line means to the scan, with its texts as strings.
pub enum ParsedLine {
    Host(Vec<String>),
    Match,
    Include(String),
    Other,
}

impl View for ParsedLine {
    type V = Directive;

    open spec fn view(&self) -> Directive {
        match self {
            ParsedLine::Host(a) => Directive::Host(views(a@)),
            ParsedLine::Match => Directive::Match,
            ParsedLine::Include(p) => Directive::Include(p@),
            ParsedLine::Other => Directive::Other,
        }
    }
}

/// The aliases that the value of a `Host` line declares.
pub fn host_aliases(value: &[char]) -> (out: Vec<String>)
    ensures
        views(out@) == concrete(words(value@)),
{
    let tokens = split_words(value);
    let ghost w = words(value@);
    let ghost pred = |t: Seq<char>| !is_pattern(t);
    let mut out: Vec<String> = Vec::new();
    let mut i: usize = 0;
    assert(w.take(0).filter(pred) =~= Seq::<Seq<char>>::empty()) by {
        reveal(Seq::filter);
    }
    assert(views(out@) =~= Seq::<Seq<char>>::empty());
    while i < tokens.len()
        invariant
            i <= tokens@.len(),
            w == rows(tokens@),
            pred == |t: Seq<char>| !is_pattern(t),
            views(out@) == w.take(i as int).filter(pred),
        decreases tokens@.len() - i,
    {
        let ghost before = views(out@);
        proof {
            w.take(i as int).lemma_filter_push(w[i as int], pred);
            assert(w.take(i + 1) =~= w.take(i as int).push(w[i as int]));
        }
        let t = tokens[i].as_slice();
        if !has_char(t, '*') && !has_char(t, '?') {
            out.push(string_of(t));
            assert(views(out@) =~= before.push(w[i as int]));
        }
        i += 1;
    }
    assert(w.take(tokens@.len() as int) =~= w);
    out
}

/// What the line means to the scan.
pub fn parse_line(line: &[char]) -> (r: ParsedLine)
    ensures
        r@ == directive_of(line@),
{
    let n: usize = line.len();
    assert(line@.subrange(0, n as int) =~= line@);
    let (a, b) = trim_range(line, 0, n);
    if a == b || line[a] == '#' {
        assert(trim(line@).len() > 0 ==> trim(line@)[0] == line@[a as int]);
        return ParsedLine::Other;
    }
    assert(trim(line@)[0] == line@[a as int]);
    let t = crate::split::copy_range(line, a, b);
    match keyword_bounds(t.as_slice()) {
        None => ParsedLine::Other,
        Some((ka, kb, va, vb)) => {
            let k = crate::split::copy_range(t.as_slice(), ka, kb);
            let v = crate::split::copy_range(t.as_slice(), va, vb);
            let host = chars_of("host");
            let mtch = chars_of("match");
            let incl = chars_of("include");
            if eq_ignore_ascii_case(k.as_slice(), host.as_slice()) {
                ParsedLine::Host(host_aliases(v.as_slice()))
            } else if eq_ignore_ascii_case(k.as_slice(), mtch.as_slice()) {
                ParsedLine::Match
            } else if eq_ignore_ascii_case(k.as_slice(), incl.as_slice()) {
                ParsedLine::Include(string_of(v.as_slice()))
            } else {
                ParsedLine::Other
            }
        },
    }
}

/// What a configuration file asks of the scan: the aliases that its `Host`
/// lines declare, patterns left out, and the patterns of its `Include`
/// lines that stand outside any `Match` block, all in the order of the
/// lines.
pub fn parse_config(contents: &str) -> (out: Vec<ConfigItem>)
    ensures
        item_views(out@) == items_of(lines(contents@)),
{
    let text = chars_of(contents);
    let ls = split_lines(text.as_slice());
    let ghost l = lines(contents@);
    let mut out: Vec<ConfigItem> = Vec::new();
    let mut in_match: bool = false;
    let mut i: usize = 0;
    assert(l.take(0) =~= Seq::<Seq<char>>::empty());
    assert(item_views(out@) =~= Seq::<ItemView>::empty());
    while i < ls.len()
        invariant
            i <= ls@.len(),
            l == rows(ls@),
            in_match == in_match_after(l.take(i as int)),
            item_views(out@) == items_of(l.take(i as int)),
        decreases ls@.len() - i,
    {
        let ghost before = item_views(out@);
        let ghost upto = l.take(i + 1);
        assert(upto.drop_last() =~= l.take(i as int));
        assert(upto.last() == ls@[i as int]@);
        match parse_line(ls[i].as_slice()) {
            ParsedLine::Host(aliases) => {
                let mut k: usize = 0;
                while k < aliases.len()
                    invariant
                        k <= aliases@.len(),
                        item_views(out@) == before.add(alias_items(views(aliases@)).take(k as int)),
                    decreases aliases@.len() - k,
                {
                    let ghost prev = item_views(out@);
                    out.push(ConfigItem::Alias(aliases[k].clone()));
                    k += 1;
                    assert(item_views(out@) =~= prev.push(ItemView::Alias(aliases@[k - 1]@)));
                    assert(alias_items(views(aliases@)).take(k as int) =~= alias_items(
                        views(aliases@),
                    ).take(k - 1).push(ItemView::Alias(aliases@[k - 1]@)));
                    assert(item_views(out@) =~= before.add(
                        alias_items(views(aliases@)).take(k as int),
                    ));
                }
                assert(alias_items(views(aliases@)).take(k as int) =~= alias_items(
                    views(aliases@),
                ));
                in_match = false;
            },
            ParsedLine::Match => {
                in_match = true;
                assert(item_views(out@) =~= before.add(Seq::<ItemView>::empty()));
            },
            ParsedLine::Include(p) => {
                if !in_match {
                    let ghost pv = p@;
                    out.push(ConfigItem::Include(p));
                    assert(item_views(out@) =~= before.add(seq![ItemView::Include(pv)]));
                } else {
                    assert(item_views(out@) =~= before.add(Seq::<ItemView>::empty()));
                }
            },
            ParsedLine::Other => {
                assert(item_views(out@) =~= before.add(Seq::<ItemView>::empty()));
            },
        }
        i += 1;
    }
    assert(l.take(ls@.len() as int) =~= l);
    out
}

} // verus!
