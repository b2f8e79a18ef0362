//! Cutting text into words and lines.

use vstd::prelude::*;
use crate::text::is_space;
use crate::text::is_whitespace;
use crate::search::position;
use crate::search::find_char;
use vstd::string::StringExecFns;

verus! {

/// The views of a list of character vectors.
pub open spec fn rows(v: Seq<Vec<char>>) -> Seq<Seq<char>> {
    Seq::new(v.len(), |i: int| v[i]@)
}

/// The number of characters at the front of `s` that are not white space.
pub open spec fn word_len(s: Seq<char>) -> nat
    decreases s.len(),
{
    if s.len() > 0 && !is_space(s[0]) {
        1 + word_len(s.drop_first())
    } else {
        0
    }
}

/// The first word of `s` ends at `i` when nothing before `i` is white space
/// and `i` is the end or holds white space.
pub proof fn lemma_word_len(s: Seq<char>, i: int)
    requires
        0 <= i <= s.len(),
        forall|k: int| 0 <= k < i ==> !is_space(s[k]),
        i < s.len() ==> is_space(s[i]),
    ensures
        word_len(s) == i,
    decreases i,
{
    if i > 0 {
        lemma_word_len(s.drop_first(), i - 1);
    }
}

/// A word is no longer than the text, and holds no white space.
pub proof fn lemma_word_len_bound(s: Seq<char>)
    ensures
        word_len(s) <= s.len(),
        forall|k: int| 0 <= k < word_len(s) ==> !is_space(s[k]),
    decreases s.len(),
{
    if s.len() > 0 && !is_space(s[0]) {
        let t = s.drop_first();
        lemma_word_len_bound(t);
        assert forall|k: int| 0 <= k < word_len(s) implies !is_space(s[k]) by {
            if k > 0 {
                assert(s[k] == t[k - 1]);
            }
        }
    }
}

/// The words of `s`: its longest runs of characters that are not white
/// space, in order.
pub open spec fn words(s: Seq<char>) -> Seq<Seq<char>>
    decreases s.len(),
{
    if s.len() == 0 {
        Seq::empty()
    } else if is_space(s[0]) {
        words(s.drop_first())
    } else {
        proof {
            lemma_word_len_bound(s);
        }
        let n = word_len(s) as int;
        seq![s.take(n)].add(words(s.skip(n)))
    }
}

/// The words of `v`.
pub fn split_words(v: &[char]) -> (out: Vec<Vec<char>>)
    ensures
        rows(out@) == words(v@),
{
    let n: usize = v.len();
    let mut out: Vec<Vec<char>> = Vec::new();
    let mut i: usize = 0;
    assert(v@.skip(0) =~= v@);
    assert(rows(out@) =~= Seq::<Seq<char>>::empty());
    while i < n
        invariant
            n == v@.len(),
            i <= n,
            rows(out@).add(words(v@.skip(i as int))) == words(v@),
        decreases n - i,
    {
        let ghost rest = v@.skip(i as int);
        let ghost before = rows(out@);
        if is_whitespace(v[i]) {
            assert(rest.drop_first() =~= v@.skip(i + 1));
            i += 1;
        } else {
            let mut j: usize = i + 1;
            while j < n && !is_whitespace(v[j])
                invariant
                    n == v@.len(),
                    i < j <= n,
                    forall|k: int| i <= k < j ==> !is_space(v@[k]),
                decreases n - j,
            {
                j += 1;
            }
            proof {
                lemma_word_len(rest, j - i);
                assert(rest.skip(j - i) =~= v@.skip(j as int));
                assert(rest.take(j - i) =~= v@.subrange(i as int, j as int));
            }
            let w = copy_range(v, i, j);
            out.push(w);
            assert(rows(out@) =~= before.push(w@));
            assert(before.push(w@).add(words(v@.skip(j as int))) =~= before.add(
                seq![w@].add(words(v@.skip(j as int))),
            ));
            i = j;
        }
    }
    assert(words(v@.skip(n as int)) =~= Seq::<Seq<char>>::empty());
    assert(rows(out@).add(Seq::<Seq<char>>::empty()) =~= rows(out@));
    out
}

/// The pieces into which the characters `c` cut `s`: one more than there
/// are `c` in `s`, some of them empty where two `c` are neighbours or one
/// stands at an end.
pub open spec fn split_on(s: Seq<char>, c: char) -> Seq<Seq<char>>
    decreases s.len(),
{
    let n = position(s, c);
    if 0 <= n < s.len() {
        seq![s.take(n)].add(split_on(s.skip(n + 1), c))
    } else {
        seq![s]
    }
}

/// The pieces into which the characters `c` cut `v`.
pub fn split_at_char(v: &[char], c: char) -> (out: Vec<Vec<char>>)
    ensures
        rows(out@) == split_on(v@, c),
        out@.len() >= 1,
{
    let n: usize = v.len();
    let mut out: Vec<Vec<char>> = Vec::new();
    let mut i: usize = 0;
    assert(v@.skip(0) =~= v@);
    assert(rows(out@) =~= Seq::<Seq<char>>::empty());
    loop
        invariant_except_break
            rows(out@).add(split_on(v@.skip(i as int), c)) == split_on(v@, c),
        invariant
            n == v@.len(),
            i <= n,
        ensures
            rows(out@) == split_on(v@, c),
            out@.len() >= 1,
        decreases n - i,
    {
        let ghost rest = v@.skip(i as int);
        let ghost before = rows(out@);
        assert(rest =~= v@.subrange(i as int, n as int));
        let p: usize = find_char(v, i, n, c);
        if p < n - i {
            let w = copy_range(v, i, i + p);
            proof {
                assert(rest.take(p as int) =~= w@);
                assert(rest.skip(p + 1) =~= v@.skip(i + p + 1));
            }
            out.push(w);
            assert(rows(out@) =~= before.push(w@));
            assert(before.push(w@).add(split_on(v@.skip(i + p + 1), c)) =~= before.add(
                seq![w@].add(split_on(v@.skip(i + p + 1), c)),
            ));
            i = i + p + 1;
        } else {
            let w = copy_range(v, i, n);
            out.push(w);
            assert(rows(out@) =~= before.push(w@));
            assert(before.push(rest) =~= before.add(seq![rest]));
            break;
        }
    }
    out
}

/// The pieces into which the first `n - 1` characters `c` cut `s`: at most
/// `n` pieces, the last of which holds what is left, further `c` included.
pub open spec fn split_limited(s: Seq<char>, c: char, n: nat) -> Seq<Seq<char>>
    decreases n,
{
    let p = position(s, c);
    if n == 0 {
        Seq::empty()
    } else if n > 1 && 0 <= p < s.len() {
        seq![s.take(p)].add(split_limited(s.skip(p + 1), c, (n - 1) as nat))
    } else {
        seq![s]
    }
}

/// The pieces into which the first `n - 1` characters `c` cut `v`.
pub fn split_at_most(v: &[char], c: char, n: usize) -> (out: Vec<Vec<char>>)
    ensures
        rows(out@) == split_limited(v@, c, n as nat),
{
    let len: usize = v.len();
    let mut out: Vec<Vec<char>> = Vec::new();
    let mut i: usize = 0;
    let mut left: usize = n;
    assert(v@.skip(0) =~= v@);
    assert(rows(out@) =~= Seq::<Seq<char>>::empty());
    while left > 0
        invariant
            len == v@.len(),
            i <= len,
            rows(out@).add(split_limited(v@.skip(i as int), c, left as nat)) == split_limited(
                v@,
                c,
                n as nat,
            ),
        decreases left,
    {
        let ghost rest = v@.skip(i as int);
        let ghost before = rows(out@);
        assert(rest =~= v@.subrange(i as int, len as int));
        let p: usize = find_char(v, i, len, c);
        if left > 1 && p < len - i {
            let w = copy_range(v, i, i + p);
            proof {
                assert(rest.take(p as int) =~= w@);
                assert(rest.skip(p + 1) =~= v@.skip(i + p + 1));
            }
            out.push(w);
            assert(rows(out@) =~= before.push(w@));
            assert(before.push(w@).add(split_limited(v@.skip(i + p + 1), c, (left - 1) as nat))
                =~= before.add(
                seq![w@].add(split_limited(v@.skip(i + p + 1), c, (left - 1) as nat)),
            ));
            i = i + p + 1;
            left -= 1;
        } else {
            let w = copy_range(v, i, len);
            out.push(w);
            assert(rows(out@) =~= before.push(w@));
            assert(before.push(rest) =~= before.add(seq![rest]));
            assert(rows(out@).add(Seq::<Seq<char>>::empty()) =~= rows(out@));
            left = 0;
        }
    }
    assert(rows(out@).add(Seq::<Seq<char>>::empty()) =~= rows(out@));
    out
}

/// `s` with every `from` replaced by `to`.
pub open spec fn replaced(s: Seq<char>, from: char, to: char) -> Seq<char> {
    Seq::new(s.len(), |i: int| if s[i] == from { to } else { s[i] })
}

/// `v` with every `from` replaced by `to`.
pub fn replace_char(v: &[char], from: char, to: char) -> (w: Vec<char>)
    ensures
        w@ == replaced(v@, from, to),
{
    let mut w: Vec<char> = Vec::new();
    let mut i: usize = 0;
    while i < v.len()
        invariant
            i <= v@.len(),
            w@.len() == i,
            forall|k: int| 0 <= k < i ==> w@[k] == replaced(v@, from, to)[k],
        decreases v@.len() - i,
    {
        w.push(if v[i] == from { to } else { v[i] });
        i += 1;
    }
    assert(w@ =~= replaced(v@, from, to));
    w
}

/// `s` without the characters `c` at its end.
pub open spec fn without_trailing(s: Seq<char>, c: char) -> Seq<char>
    decreases s.len(),
{
    if s.len() > 0 && s.last() == c {
        without_trailing(s.drop_last(), c)
    } else {
        s
    }
}

/// `v` without the characters `c` at its end.
pub fn strip_trailing(v: &[char], c: char) -> (w: Vec<char>)
    ensures
        w@ == without_trailing(v@, c),
{
    let mut j: usize = v.len();
    assert(v@.take(j as int) =~= v@);
    while j > 0 && v[j - 1] == c
        invariant
            j <= v@.len(),
            without_trailing(v@, c) == without_trailing(v@.take(j as int), c),
        decreases j,
    {
        assert(v@.take(j as int).drop_last() =~= v@.take(j - 1));
        j -= 1;
    }
    assert(v@.take(j as int) =~= v@.subrange(0, j as int));
    copy_range(v, 0, j)
}

/// The texts of `parts` in a row, with `sep` between each two neighbours.
pub open spec fn join(parts: Seq<Seq<char>>, sep: Seq<char>) -> Seq<char>
    decreases parts.len(),
{
    if parts.len() == 0 {
        Seq::empty()
    } else if parts.len() == 1 {
        parts[0]
    } else {
        join(parts.drop_last(), sep).add(sep).add(parts.last())
    }
}

/// The texts of `parts` in a row, with `sep` between each two neighbours.
pub fn join_strings(parts: &[String], sep: &str) -> (r: String)
    ensures
        r@ == join(crate::text::views(parts@), sep@),
{
    let ghost p = crate::text::views(parts@);
    let mut r = String::new();
    let mut i: usize = 0;
    assert(p.take(0) =~= Seq::<Seq<char>>::empty());
    while i < parts.len()
        invariant
            i <= parts@.len(),
            p == crate::text::views(parts@),
            r@ == join(p.take(i as int), sep@),
        decreases parts@.len() - i,
    {
        let ghost before = r@;
        if i > 0 {
            r.append(sep);
        }
        r.append(parts[i].as_str());
        i += 1;
        assert(p.take(i as int).drop_last() =~= p.take(i - 1));
        assert(p.take(i as int).last() == parts@[i - 1]@);
        assert(r@ =~= join(p.take(i as int), sep@));
    }
    assert(p.take(parts@.len() as int) =~= p);
    r
}

/// `l` without one carriage return at its end.
pub open spec fn strip_cr(l: Seq<char>) -> Seq<char> {
    if l.len() > 0 && l.last() == '\r' {
        l.drop_last()
    } else {
        l
    }
}

/// The lines of `s`. A line ends at a line feed, or at a carriage return
/// that a line feed follows; neither belongs to the line. Text after the
/// last line feed is a line of its own, kept as it is.
pub open spec fn lines(s: Seq<char>) -> Seq<Seq<char>>
    decreases s.len(),
{
    if s.len() == 0 {
        Seq::empty()
    } else {
        let n = position(s, '\n');
        if 0 <= n < s.len() {
            seq![strip_cr(s.take(n))].add(lines(s.skip(n + 1)))
        } else {
            seq![s]
        }
    }
}

/// The characters `v[from..to]` as a vector of their own.
pub fn copy_range(v: &[char], from: usize, to: usize) -> (w: Vec<char>)
    requires
        from <= to <= v@.len(),
    ensures
        w@ == v@.subrange(from as int, to as int),
{
    let mut w: Vec<char> = Vec::new();
    let mut k: usize = from;
    while k < to
        invariant
            from <= k <= to <= v@.len(),
            w@ == v@.subrange(from as int, k as int),
        decreases to - k,
    {
        w.push(v[k]);
        k += 1;
        assert(w@ =~= v@.subrange(from as int, k as int));
    }
    w
}

/// The lines of `v`.
pub fn split_lines(v: &[char]) -> (out: Vec<Vec<char>>)
    ensures
        rows(out@) == lines(v@),
{
    let n: usize = v.len();
    let mut out: Vec<Vec<char>> = Vec::new();
    let mut i: usize = 0;
    assert(v@.skip(0) =~= v@);
    assert(rows(out@) =~= Seq::<Seq<char>>::empty());
    while i < n
        invariant
            n == v@.len(),
            i <= n,
            rows(out@).add(lines(v@.skip(i as int))) == lines(v@),
        decreases n - i,
    {
        let ghost rest = v@.skip(i as int);
        let ghost before = rows(out@);
        assert(rest =~= v@.subrange(i as int, n as int));
        let p: usize = find_char(v, i, n, '\n');
        if p < n - i {
            let end: usize = if p > 0 && v[i + p - 1] == '\r' {
                i + p - 1
            } else {
                i + p
            };
            let w = copy_range(v, i, end);
            proof {
                assert(rest.take(p as int) =~= v@.subrange(i as int, i + p));
                if p > 0 {
                    assert(rest.take(p as int).last() == v@[i + p - 1]);
                }
                assert(strip_cr(rest.take(p as int)) =~= w@);
                assert(rest.skip(p + 1) =~= v@.skip(i + p + 1));
            }
            out.push(w);
            assert(rows(out@) =~= before.push(w@));
            assert(before.push(w@).add(lines(v@.skip(i + p + 1))) =~= before.add(
                seq![w@].add(lines(v@.skip(i + p + 1))),
            ));
            i = i + p + 1;
        } else {
            let w = copy_range(v, i, n);
            out.push(w);
            assert(rows(out@) =~= before.push(w@));
            assert(before.push(rest) =~= before.add(seq![rest]));
            assert(v@.skip(n as int) =~= Seq::<char>::empty());
            assert(lines(v@.skip(n as int)) =~= Seq::<Seq<char>>::empty());
            assert(rows(out@).add(Seq::<Seq<char>>::empty()) =~= rows(out@));
            i = n;
        }
    }
    assert(lines(v@.skip(n as int)) =~= Seq::<Seq<char>>::empty());
    assert(rows(out@).add(Seq::<Seq<char>>::empty()) =~= rows(out@));
    out
}

} // verus!
