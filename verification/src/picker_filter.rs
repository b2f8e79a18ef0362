//! The picker's filter: which hosts a query matches.

use vstd::prelude::*;
use crate::text::chars_of;
use crate::text::chars_eq;
use crate::search::contains_seq;
use crate::search::contains;
use crate::case::lowercase;
use crate::split::rows;
use crate::hosts::Host;
use crate::hosts::HostView;
use crate::picker_order::PickerHost;

verus! {

/// The texts of a host that a query is held against, in lower case.
#[derive(Debug, Clone)]
pub struct SearchKey {
    pub alias: Vec<char>,
    pub hostname: Option<Vec<char>>,
    pub user: Option<Vec<char>>,
    pub tags: Vec<Vec<char>>,
}

/// What a `SearchKey` holds.
pub struct SearchKeyView {
    pub alias: Seq<char>,
    pub hostname: Option<Seq<char>>,
    pub user: Option<Seq<char>>,
    pub tags: Seq<Seq<char>>,
}

impl View for SearchKey {
    type V = SearchKeyView;

    open spec fn view(&self) -> SearchKeyView {
        SearchKeyView {
            alias: self.alias@,
            hostname: match self.hostname {
                Some(v) => Some(v@),
                None => None,
            },
            user: match self.user {
                Some(v) => Some(v@),
                None => None,
            },
            tags: rows(self.tags@),
        }
    }
}

/// The lower-case form of an optional text.
pub open spec fn opt_lowercase(o: Option<Seq<char>>) -> Option<Seq<char>> {
    match o {
        Some(s) => Some(lowercase(s)),
        None => None,
    }
}

/// The search key of a host: alias, host name, user and tags in lower case.
pub open spec fn lowered(h: HostView) -> SearchKeyView {
    SearchKeyView {
        alias: lowercase(h.alias),
        hostname: opt_lowercase(h.hostname),
        user: opt_lowercase(h.user),
        tags: Seq::new(h.tags.len(), |i: int| lowercase(h.tags[i])),
    }
}

/// The characters of the lower-case form of `s`.
pub fn lower_chars(s: &str) -> (v: Vec<char>)
    ensures
        v@ == lowercase(s@),
{
    let l = s.to_lowercase();
    chars_of(l.as_str())
}

/// The characters of the lower-case form of an optional text.
pub fn lower_opt(o: &Option<String>) -> (r: Option<Vec<char>>)
    ensures
        (match r {
            Some(v) => Some(v@),
            None => None,
        }) == opt_lowercase(crate::text::opt_view(*o)),
{
    match o {
        Some(s) => Some(lower_chars(s.as_str())),
        None => None,
    }
}

/// The search key of a host.
pub fn search_key(host: &Host) -> (k: SearchKey)
    ensures
        k@ == lowered(host@),
{
    let mut tags: Vec<Vec<char>> = Vec::new();
    let mut i: usize = 0;
    while i < host.tags.len()
        invariant
            i <= host.tags@.len(),
            tags@.len() == i,
            forall|j: int| 0 <= j < i ==> (#[trigger] tags@[j])@ == lowercase(host.tags@[j]@),
        decreases host.tags@.len() - i,
    {
        tags.push(lower_chars(host.tags[i].as_str()));
        i += 1;
    }
    let k = SearchKey {
        alias: lower_chars(host.alias.as_str()),
        hostname: lower_opt(&host.hostname),
        user: lower_opt(&host.user),
        tags,
    };
    assert(k@.tags =~= lowered(host@).tags);
    k
}

/// Whether `q` stands in one of `texts`.
pub open spec fn any_contains(texts: Seq<Seq<char>>, q: Seq<char>) -> bool {
    exists|i: int| 0 <= i < texts.len() && contains_seq(#[trigger] texts[i], q)
}

/// Whether the query is one for tags alone: it begins with `#`.
pub open spec fn is_tag_query(q: Seq<char>) -> bool {
    q.len() > 0 && q[0] == '#'
}

/// Whether a query matches a search key. A query that begins with `#` is
/// held against the tags alone, without the `#`: it matches where what
/// follows the `#` stands in a tag. Any other query matches where it stands
/// in the alias, the host name, the user or a tag.
pub open spec fn key_matches(k: SearchKeyView, q: Seq<char>) -> bool {
    if is_tag_query(q) {
        any_contains(k.tags, q.skip(1))
    } else {
        ||| contains_seq(k.alias, q)
        ||| (k.hostname is Some && contains_seq(k.hostname->0, q))
        ||| (k.user is Some && contains_seq(k.user->0, q))
        ||| any_contains(k.tags, q)
    }
}

/// Whether `q` stands in one of `texts`.
pub fn contained_in_any(texts: &[Vec<char>], q: &[char]) -> (r: bool)
    ensures
        r == any_contains(rows(texts@), q@),
{
    let mut i: usize = 0;
    while i < texts.len()
        invariant
            i <= texts@.len(),
            forall|k: int| 0 <= k < i ==> !contains_seq(#[trigger] rows(texts@)[k], q@),
        decreases texts@.len() - i,
    {
        assert(rows(texts@)[i as int] == texts@[i as int]@);
        if contains(texts[i].as_slice(), q) {
            return true;
        }
        i += 1;
    }
    false
}

/// Whether a query matches a search key. Key and query are compared as
/// they are: for a comparison that ignores case, both are in lower case.
pub fn matches_key(k: &SearchKey, q: &[char]) -> (r: bool)
    ensures
        r == key_matches(k@, q@),
{
    if q.len() > 0 && q[0] == '#' {
        let rest = crate::split::copy_range(q, 1, q.len());
        assert(q@.subrange(1, q@.len() as int) =~= q@.skip(1));
        return contained_in_any(k.tags.as_slice(), rest.as_slice());
    }
    if contains(k.alias.as_slice(), q) {
        return true;
    }
    if let Some(h) = &k.hostname {
        if contains(h.as_slice(), q) {
            return true;
        }
    }
    if let Some(u) = &k.user {
        if contains(u.as_slice(), q) {
            return true;
        }
    }
    contained_in_any(k.tags.as_slice(), q)
}

/// Whether a query matches a host: the empty query matches every host, any
/// other is held in lower case against the host's search key, so that case
/// makes no difference.
pub open spec fn host_matches(h: HostView, query: Seq<char>) -> bool {
    query.len() == 0 || key_matches(lowered(h), lowercase(query))
}

/// The indices, in rising order, of those among the first `n` items that
/// the query matches.
pub open spec fn matching_upto(items: Seq<PickerHost>, query: Seq<char>, n: int) -> Seq<usize>
    decreases n,
{
    if n <= 0 {
        Seq::empty()
    } else if host_matches(items[n - 1]@.host, query) {
        matching_upto(items, query, n - 1).push((n - 1) as usize)
    } else {
        matching_upto(items, query, n - 1)
    }
}

/// The indices, in rising order, of the items that the query matches.
pub open spec fn matching(items: Seq<PickerHost>, query: Seq<char>) -> Seq<usize> {
    matching_upto(items, query, items.len() as int)
}

/// `matching_upto` holds exactly the indices below `n` of the items that
/// the query matches, each once, in rising order.
pub proof fn lemma_matching_upto(items: Seq<PickerHost>, query: Seq<char>, n: int)
    requires
        0 <= n <= items.len() <= usize::MAX,
    ensures
        matching_upto(items, query, n).len() <= n,
        forall|k: int|
            0 <= k < matching_upto(items, query, n).len() ==> 0 <= (#[trigger] matching_upto(
                items,
                query,
                n,
            )[k]) < n && host_matches(items[matching_upto(items, query, n)[k] as int]@.host, query),
        forall|k: int, l: int|
            0 <= k < l < matching_upto(items, query, n).len() ==> matching_upto(items, query, n)[k]
                < matching_upto(items, query, n)[l],
        forall|i: int|
            0 <= i < n && host_matches(items[i]@.host, query) ==> matching_upto(
                items,
                query,
                n,
            ).contains(i as usize),
    decreases n,
{
    if n > 0 {
        lemma_matching_upto(items, query, n - 1);
        let prev = matching_upto(items, query, n - 1);
        let cur = matching_upto(items, query, n);
        assert forall|i: int| 0 <= i < n && host_matches(items[i]@.host, query) implies cur.contains(
            i as usize,
        ) by {
            if i < n - 1 {
                let k = choose|k: int| 0 <= k < prev.len() && prev[k] == i as usize;
                assert(cur[k] == i as usize);
            } else {
                assert(cur[cur.len() - 1] == i as usize);
            }
        }
    }
}

/// What `filter_hosts` returns holds exactly the indices of the items that
/// the query matches: every match is there, and nothing else.
pub proof fn lemma_matching(items: Seq<PickerHost>, query: Seq<char>)
    requires
        items.len() <= usize::MAX,
    ensures
        matching(items, query).len() <= items.len(),
        forall|i: int|
            0 <= i < items.len() ==> (matching(items, query).contains(i as usize) <==> host_matches(
                #[trigger] items[i]@.host,
                query,
            )),
        forall|k: int|
            0 <= k < matching(items, query).len() ==> (#[trigger] matching(items, query)[k])
                < items.len(),
        forall|k: int, l: int|
            0 <= k < l < matching(items, query).len() ==> matching(items, query)[k] < matching(
                items,
                query,
            )[l],
{
    let n = items.len() as int;
    lemma_matching_upto(items, query, n);
    let m = matching(items, query);
    assert forall|i: int| 0 <= i < items.len() && m.contains(i as usize) implies host_matches(
        #[trigger] items[i]@.host,
        query,
    ) by {
        let k = choose|k: int| 0 <= k < m.len() && m[k] == i as usize;
        assert(host_matches(items[m[k] as int]@.host, query));
    }
}

/// The indices, in rising order, of the items that the query matches.
pub fn filter_hosts(items: &[PickerHost], query: &str) -> (out: Vec<usize>)
    ensures
        out@ == matching(items@, query@),
{
    let q = chars_of(query);
    let lowered_query = if q.len() == 0 {
        Vec::new()
    } else {
        crate::picker_filter::lower_chars(query)
    };
    let mut out: Vec<usize> = Vec::new();
    let mut i: usize = 0;
    while i < items.len()
        invariant
            i <= items@.len(),
            q@ == query@,
            q@.len() > 0 ==> lowered_query@ == lowercase(query@),
            out@ == matching_upto(items@, query@, i as int),
        decreases items@.len() - i,
    {
        let hit = if q.len() == 0 {
            true
        } else {
            let key = search_key(&items[i].host);
            matches_key(&key, lowered_query.as_slice())
        };
        if hit {
            out.push(i);
        }
        i += 1;
    }
    out
}

/// Whether a host carries `tag`, compared in lower case.
pub open spec fn has_tag(h: HostView, tag: Seq<char>) -> bool {
    exists|i: int| 0 <= i < h.tags.len() && lowercase(#[trigger] h.tags[i]) == lowercase(tag)
}

/// The indices, in rising order, of those among the first `n` hosts that
/// carry the tag.
pub open spec fn tagged_upto(hosts: Seq<Host>, tag: Seq<char>, n: int) -> Seq<usize>
    decreases n,
{
    if n <= 0 {
        Seq::empty()
    } else if has_tag(hosts[n - 1]@, tag) {
        tagged_upto(hosts, tag, n - 1).push((n - 1) as usize)
    } else {
        tagged_upto(hosts, tag, n - 1)
    }
}

/// Whether a host carries `tag`, of which `want` is the lower-case form.
fn carries_tag(h: &Host, tag: &str, want: &[char]) -> (r: bool)
    requires
        want@ == lowercase(tag@),
    ensures
        r == has_tag(h@, tag@),
{
    let mut t: usize = 0;
    while t < h.tags.len()
        invariant
            t <= h.tags@.len(),
            want@ == lowercase(tag@),
            forall|j: int| 0 <= j < t ==> lowercase(#[trigger] h@.tags[j]) != lowercase(tag@),
        decreases h.tags@.len() - t,
    {
        let l = lower_chars(h.tags[t].as_str());
        assert(h@.tags[t as int] == h.tags@[t as int]@);
        if chars_eq(l.as_slice(), want) {
            return true;
        }
        t += 1;
    }
    false
}

/// The indices, in rising order, of the hosts that carry `tag`, case
/// ignored.
pub fn hosts_with_tag(hosts: &[Host], tag: &str) -> (out: Vec<usize>)
    ensures
        out@ == tagged_upto(hosts@, tag@, hosts@.len() as int),
{
    let want = lower_chars(tag);
    let mut out: Vec<usize> = Vec::new();
    let mut i: usize = 0;
    while i < hosts.len()
        invariant
            i <= hosts@.len(),
            want@ == lowercase(tag@),
            out@ == tagged_upto(hosts@, tag@, i as int),
        decreases hosts@.len() - i,
    {
        let found = carries_tag(&hosts[i], tag, want.as_slice());
        if found {
            out.push(i);
        }
        i += 1;
    }
    out
}

} // verus!
