//! Following a configuration file's `Include` lines: which files a pattern
//! names, which files were read already, and the aliases found so far.

use vstd::prelude::*;
use vstd::string::StringExecFns;
use crate::text::views;
use crate::text::chars_of;
use crate::text::str_eq;
use crate::text::string_of_range;
use crate::order::lex_lt;
use crate::order::lex_less;
use crate::order::strictly_sorted;
use crate::order::lemma_lex_total;
use crate::order::lemma_lex_transitive;

verus! {

/// Whether a path starts at the root of the file system.
pub open spec fn is_absolute(p: Seq<char>) -> bool {
    p.len() > 0 && p[0] == '/'
}

/// The path `rel` as seen from the directory `base`: `rel` itself where it
/// is absolute, else `base` and `rel` with one separator between them.
pub open spec fn path_join(base: Seq<char>, rel: Seq<char>) -> Seq<char> {
    if is_absolute(rel) {
        rel
    } else if base.len() > 0 && base.last() != '/' {
        base.push('/').add(rel)
    } else {
        base.add(rel)
    }
}

/// Whether `p` begins with `~/`.
pub open spec fn in_home(p: Seq<char>) -> bool {
    p.len() >= 2 && p[0] == '~' && p[1] == '/'
}

/// `path` with a leading `~/` replaced by the home directory; `~` alone is
/// the home directory itself. Any other path stays as it is.
pub open spec fn tilde_expanded(path: Seq<char>, home: Seq<char>) -> Seq<char> {
    if in_home(path) {
        path_join(home, path.skip(2))
    } else if path == seq!['~'] {
        home
    } else {
        path
    }
}

/// The pattern of an `Include` line as a pattern of the file system: the
/// tilde expanded and, where the result is not absolute, taken from the
/// directory of the file that holds the line; from the home directory where
/// that file has no directory.
pub open spec fn include_pattern(
    pattern: Seq<char>,
    home: Seq<char>,
    parent: Option<Seq<char>>,
) -> Seq<char> {
    let e = tilde_expanded(pattern, home);
    if is_absolute(e) {
        e
    } else {
        path_join(
            match parent {
                Some(d) => d,
                None => home,
            },
            e,
        )
    }
}

/// The path `rel` as seen from the directory `base`.
pub fn join_path(base: &str, rel: &str) -> (r: String)
    ensures
        r@ == path_join(base@, rel@),
{
    let b = chars_of(base);
    let l = chars_of(rel);
    if l.len() > 0 && l[0] == '/' {
        return rel.to_owned();
    }
    let mut r = base.to_owned();
    if b.len() > 0 && b[b.len() - 1] != '/' {
        r.push('/');
    }
    r.append(rel);
    r
}

/// `path` with the tilde at its front replaced by the home directory.
pub fn expand_tilde(path: &str, home: &str) -> (r: String)
    ensures
        r@ == tilde_expanded(path@, home@),
{
    let p = chars_of(path);
    if p.len() >= 2 && p[0] == '~' && p[1] == '/' {
        let rest = string_of_range(p.as_slice(), 2, p.len());
        assert(p@.subrange(2, p@.len() as int) =~= path@.skip(2));
        join_path(home, rest.as_str())
    } else if p.len() == 1 && p[0] == '~' {
        assert(path@ =~= seq!['~']);
        home.to_owned()
    } else {
        assert(path@ != seq!['~']) by {
            if path@ == seq!['~'] {
                assert(path@.len() == 1 && path@[0] == '~');
            }
        }
        path.to_owned()
    }
}

/// The pattern of an `Include` line as a pattern of the file system.
/// `parent` is the directory of the file that holds the line.
pub fn resolve_include(pattern: &str, home: &str, parent: Option<&str>) -> (r: String)
    ensures
        r@ == include_pattern(
            pattern@,
            home@,
            match parent {
                Some(d) => Some(d@),
                None => None,
            },
        ),
{
    let e = expand_tilde(pattern, home);
    let c = chars_of(e.as_str());
    if c.len() > 0 && c[0] == '/' {
        e
    } else {
        match parent {
            Some(d) => join_path(d, e.as_str()),
            None => join_path(home, e.as_str()),
        }
    }
}

/// Whether `s` is among `list`.
pub fn list_has(list: &[String], s: &str) -> (r: bool)
    ensures
        r == views(list@).contains(s@),
{
    let mut i: usize = 0;
    while i < list.len()
        invariant
            i <= list@.len(),
            forall|k: int| 0 <= k < i ==> views(list@)[k] != s@,
        decreases list@.len() - i,
    {
        if str_eq(list[i].as_str(), s) {
            assert(views(list@)[i as int] == s@);
            return true;
        }
        i += 1;
    }
    false
}

/// Puts `s` into a list that is in dictionary order without repeats,
/// unless it is there.
pub fn insert_sorted(list: &mut Vec<String>, s: String)
    requires
        strictly_sorted(views(old(list)@)),
    ensures
        strictly_sorted(views(final(list)@)),
        forall|x: Seq<char>|
            views(final(list)@).contains(x) <==> (x == s@ || views(old(list)@).contains(x)),
{
    let key = chars_of(s.as_str());
    let ghost before = views(list@);
    let ghost sv = s@;
    let mut p: usize = 0;
    while p < list.len() && str_less(list[p].as_str(), key.as_slice())
        invariant
            views(list@) == before,
            p <= before.len(),
            key@ == sv,
            forall|k: int| 0 <= k < p ==> lex_lt(before[k], sv),
        decreases before.len() - p,
    {
        assert(before[p as int] == list@[p as int]@);
        p += 1;
    }
    assert(p < before.len() ==> before[p as int] == list@[p as int]@);
    let same: bool = p < list.len() && str_eq(list[p].as_str(), s.as_str());
    if same {
        assert(before[p as int] == sv);
        assert forall|x: Seq<char>| before.contains(x) <==> (x == sv || before.contains(x)) by {}
        return ;
    }
    proof {
        if p < before.len() {
            lemma_lex_total(before[p as int], sv);
        }
        assert forall|j: int| p <= j < before.len() implies lex_lt(sv, before[j]) by {
            if j > p {
                lemma_lex_transitive(sv, before[p as int], before[j]);
            }
        }
    }
    list.insert(p, s);
    proof {
        let after = views(list@);
        assert(after =~= before.insert(p as int, sv));
        assert forall|x: Seq<char>| after.contains(x) <==> (x == sv || before.contains(x)) by {
            if after.contains(x) {
                let i = choose|i: int| 0 <= i < after.len() && after[i] == x;
                if i < p {
                    assert(before[i] == x);
                } else if i > p {
                    assert(before[i - 1] == x);
                }
            }
            if x == sv {
                assert(after[p as int] == x);
            }
            if before.contains(x) {
                let i = choose|i: int| 0 <= i < before.len() && before[i] == x;
                if i < p {
                    assert(after[i] == x);
                } else {
                    assert(after[i + 1] == x);
                }
            }
        }
    }
}

/// Whether `a` comes before `key` in dictionary order.
pub fn str_less(a: &str, key: &[char]) -> (r: bool)
    ensures
        r == lex_lt(a@, key@),
{
    let v = chars_of(a);
    lex_less(v.as_slice(), key)
}

/// The texts of `list` in dictionary order, each once.
pub fn sorted_unique(list: &[String]) -> (out: Vec<String>)
    ensures
        strictly_sorted(views(out@)),
        forall|x: Seq<char>| views(out@).contains(x) <==> views(list@).contains(x),
{
    let mut out: Vec<String> = Vec::new();
    let mut i: usize = 0;
    while i < list.len()
        invariant
            i <= list@.len(),
            strictly_sorted(views(out@)),
            forall|x: Seq<char>|
                views(out@).contains(x) <==> views(list@).take(i as int).contains(x),
        decreases list@.len() - i,
    {
        let ghost prev = views(out@);
        insert_sorted(&mut out, list[i].clone());
        i += 1;
        proof {
            let t = views(list@).take(i as int);
            let u = views(list@).take(i - 1);
            assert forall|x: Seq<char>| views(out@).contains(x) <==> t.contains(x) by {
                if t.contains(x) {
                    let k = choose|k: int| 0 <= k < t.len() && t[k] == x;
                    if k < i - 1 {
                        assert(u[k] == x);
                    }
                }
                if u.contains(x) {
                    let k = choose|k: int| 0 <= k < u.len() && u[k] == x;
                    assert(t[k] == x);
                }
                if x == list@[i - 1]@ {
                    assert(t[i - 1] == x);
                }
            }
        }
    }
    assert(views(list@).take(list@.len() as int) =~= views(list@));
    out
}

/// The state of a scan that follows `Include` lines from file to file: the
/// files read so far, so that none is read twice and a file that includes
/// itself ends the scan instead of repeating it, and the aliases found.
#[derive(Debug, Clone)]
pub struct ConfigScan {
    pub visited: Vec<String>,
    pub aliases: Vec<String>,
}

impl ConfigScan {
    /// A scan that has read nothing.
    pub fn new() -> (s: ConfigScan)
        ensures
            s.visited@.len() == 0,
            s.aliases@.len() == 0,
    {
        ConfigScan { visited: Vec::new(), aliases: Vec::new() }
    }

    /// Asks to read the file at `path`. The answer is yes the first time a
    /// path is asked for, and the path is then remembered; it is no ever
    /// after.
    pub fn enter(&mut self, path: &str) -> (fresh: bool)
        ensures
            fresh == !views(old(self).visited@).contains(path@),
            fresh ==> views(final(self).visited@) == views(old(self).visited@).push(path@),
            !fresh ==> final(self).visited == old(self).visited,
            final(self).aliases == old(self).aliases,
            views(final(self).visited@).contains(path@),
    {
        if list_has(self.visited.as_slice(), path) {
            false
        } else {
            self.visited.push(path.to_owned());
            assert(views(self.visited@) =~= views(old(self).visited@).push(path@));
            assert(views(self.visited@)[self.visited@.len() - 1] == path@);
            true
        }
    }

    /// Takes note of an alias that a file declares.
    pub fn add_alias(&mut self, alias: String)
        ensures
            final(self).aliases@ == old(self).aliases@.push(alias),
            final(self).visited == old(self).visited,
    {
        self.aliases.push(alias);
    }

    /// The aliases found, in dictionary order, each once.
    pub fn finish(&self) -> (out: Vec<String>)
        ensures
            strictly_sorted(views(out@)),
            forall|x: Seq<char>| views(out@).contains(x) <==> views(self.aliases@).contains(x),
    {
        sorted_unique(self.aliases.as_slice())
    }
}

} // verus!
