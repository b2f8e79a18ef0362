//! The connection history: which host was connected to last, and when.

use vstd::prelude::*;
use crate::text::chars_of;
use crate::text::str_eq;
use crate::order::lex_lt;
use crate::order::lex_less;
use crate::order::lemma_lex_asymmetric;
use crate::order::lemma_lex_not_after;
use crate::order::Ranked;
use crate::order::sorted;
use crate::order::sort;

verus! {

/// A host of the history with the time of the last connection to it, as
/// text in the form `2026-02-27T10:30:00Z`, so that a later time comes later
/// in dictionary order.
#[derive(Debug, Clone)]
pub struct RecentHost {
    pub alias: String,
    pub last_connected: String,
}

/// Whether `a` was connected to more lately than `b`; of two hosts with the
/// same time, whether its alias comes first.
pub open spec fn more_recent(a: RecentHost, b: RecentHost) -> bool {
    lex_lt(b.last_connected@, a.last_connected@) || (!lex_lt(
        a.last_connected@,
        b.last_connected@,
    ) && lex_lt(a.alias@, b.alias@))
}

impl Ranked for RecentHost {
    open spec fn ranks_before(&self, other: &Self) -> bool {
        more_recent(*self, *other)
    }

    fn is_before(&self, other: &Self) -> (r: bool) {
        let ta = chars_of(self.last_connected.as_str());
        let tb = chars_of(other.last_connected.as_str());
        if lex_less(tb.as_slice(), ta.as_slice()) {
            return true;
        }
        if lex_less(ta.as_slice(), tb.as_slice()) {
            return false;
        }
        let a = chars_of(self.alias.as_str());
        let b = chars_of(other.alias.as_str());
        lex_less(a.as_slice(), b.as_slice())
    }

    proof fn lemma_asymmetric(a: &Self, b: &Self) {
        if lex_lt(b.last_connected@, a.last_connected@) {
            lemma_lex_asymmetric(b.last_connected@, a.last_connected@);
        } else {
            lemma_lex_asymmetric(a.alias@, b.alias@);
        }
    }

    proof fn lemma_not_after(a: &Self, b: &Self, c: &Self) {
        let (ta, tb, tc) = (a.last_connected@, b.last_connected@, c.last_connected@);
        lemma_lex_not_after(tc, tb, ta);
        if !lex_lt(tc, ta) {
            lemma_lex_not_after(tb, ta, tc);
            lemma_lex_not_after(ta, tc, tb);
            lemma_lex_not_after(a.alias@, b.alias@, c.alias@);
        }
    }
}

/// The latest time among the records of `alias`; none where it has no
/// record. A record is an alias and the time of one connection.
pub open spec fn latest(records: Seq<(String, String)>, alias: Seq<char>) -> Option<Seq<char>>
    decreases records.len(),
{
    if records.len() == 0 {
        None
    } else {
        let rest = latest(records.drop_last(), alias);
        if records.last().0@ != alias {
            rest
        } else {
            match rest {
                Some(t) => if lex_lt(t, records.last().1@) {
                    Some(records.last().1@)
                } else {
                    Some(t)
                },
                None => Some(records.last().1@),
            }
        }
    }
}

/// The time that the list keeps for `alias`: that of the first host of the
/// alias.
pub open spec fn kept(hosts: Seq<RecentHost>, alias: Seq<char>) -> Option<Seq<char>>
    decreases hosts.len(),
{
    if hosts.len() == 0 {
        None
    } else if hosts[0].alias@ == alias {
        Some(hosts[0].last_connected@)
    } else {
        kept(hosts.drop_first(), alias)
    }
}

/// Whether no alias stands twice in the list.
pub open spec fn distinct(hosts: Seq<RecentHost>) -> bool {
    forall|i: int, j: int|
        0 <= i < j < hosts.len() ==> (#[trigger] hosts[i]).alias@ != (#[trigger] hosts[j]).alias@
}

/// In a list without a repeated alias, the time kept for a host's alias is
/// that host's.
pub proof fn lemma_kept_at(hosts: Seq<RecentHost>, i: int)
    requires
        0 <= i < hosts.len(),
        distinct(hosts),
    ensures
        kept(hosts, hosts[i].alias@) == Some(hosts[i].last_connected@),
    decreases i,
{
    if i > 0 {
        let rest = hosts.drop_first();
        assert(hosts[0].alias@ != hosts[i].alias@);
        assert forall|x: int, y: int| 0 <= x < y < rest.len() implies (#[trigger] rest[x]).alias@
            != (#[trigger] rest[y]).alias@ by {
            assert(rest[x] == hosts[x + 1] && rest[y] == hosts[y + 1]);
        }
        assert(rest[i - 1] == hosts[i]);
        lemma_kept_at(rest, i - 1);
    }
}

/// Where no host of the list has the alias, no time is kept for it.
pub proof fn lemma_kept_none(hosts: Seq<RecentHost>, alias: Seq<char>)
    requires
        forall|i: int| 0 <= i < hosts.len() ==> (#[trigger] hosts[i]).alias@ != alias,
    ensures
        kept(hosts, alias) is None,
    decreases hosts.len(),
{
    if hosts.len() > 0 {
        let rest = hosts.drop_first();
        assert(hosts[0].alias@ != alias);
        assert forall|i: int| 0 <= i < rest.len() implies (#[trigger] rest[i]).alias@ != alias by {
            assert(rest[i] == hosts[i + 1]);
        }
        lemma_kept_none(rest, alias);
    }
}

/// Takes note of one connection: the host of the alias gets the time where
/// it is later than the one it has, and an alias that is not in the list
/// joins it.
fn note(hosts: &mut Vec<RecentHost>, alias: &str, time: &str)
    requires
        distinct(old(hosts)@),
    ensures
        distinct(final(hosts)@),
        forall|a: Seq<char>|
            #[trigger] kept(final(hosts)@, a) == if a != alias@ {
                kept(old(hosts)@, a)
            } else {
                match kept(old(hosts)@, a) {
                    Some(t) => if lex_lt(t, time@) {
                        Some(time@)
                    } else {
                        Some(t)
                    },
                    None => Some(time@),
                }
            },
{
    let ghost before = hosts@;
    let mut i: usize = 0;
    while i < hosts.len() && !str_eq(hosts[i].alias.as_str(), alias)
        invariant
            hosts@ == before,
            i <= before.len(),
            forall|k: int| 0 <= k < i ==> (#[trigger] before[k]).alias@ != alias@,
        decreases before.len() - i,
    {
        i += 1;
    }
    if i < hosts.len() {
        proof {
            lemma_kept_at(before, i as int);
        }
        let old_time = chars_of(hosts[i].last_connected.as_str());
        let new_time = chars_of(time);
        if lex_less(old_time.as_slice(), new_time.as_slice()) {
            hosts.set(i, RecentHost { alias: alias.to_owned(), last_connected: time.to_owned() });
        }
    } else {
        proof {
            lemma_kept_none(before, alias@);
        }
        hosts.push(RecentHost { alias: alias.to_owned(), last_connected: time.to_owned() });
    }
    proof {
        let after = hosts@;
        assert forall|x: int, y: int| 0 <= x < y < after.len() implies (#[trigger] after[x]).alias@
            != (#[trigger] after[y]).alias@ by {
            if x < before.len() && y < before.len() {
                assert(before[x].alias@ != before[y].alias@);
            }
        }
        assert forall|a: Seq<char>| #[trigger] kept(after, a) == if a != alias@ {
            kept(before, a)
        } else {
            match kept(before, a) {
                Some(t) => if lex_lt(t, time@) {
                    Some(time@)
                } else {
                    Some(t)
                },
                None => Some(time@),
            }
        } by {
            if a == alias@ {
                lemma_kept_at(after, i as int);
            } else if exists|k: int| 0 <= k < before.len() && (#[trigger] before[k]).alias@ == a {
                let k = choose|k: int| 0 <= k < before.len() && (#[trigger] before[k]).alias@ == a;
                lemma_kept_at(before, k);
                assert(after[k] == before[k]);
                lemma_kept_at(after, k);
            } else {
                lemma_kept_none(before, a);
                assert forall|k: int| 0 <= k < after.len() implies (#[trigger] after[k]).alias@
                    != a by {
                    if k < before.len() {
                        assert(before[k].alias@ != a);
                    }
                }
                lemma_kept_none(after, a);
            }
        }
    }
}

/// The hosts of the history, each once, with the time of the last
/// connection to it, the host connected to most lately first.
pub fn last_connected_hosts(records: &[(String, String)]) -> (out: Vec<RecentHost>)
    ensures
        sorted(out@),
        distinct(out@),
        forall|a: Seq<char>| #[trigger] kept(out@, a) == latest(records@, a),
{
    let mut hosts: Vec<RecentHost> = Vec::new();
    let mut i: usize = 0;
    assert(records@.take(0) =~= Seq::<(String, String)>::empty());
    while i < records.len()
        invariant
            i <= records@.len(),
            distinct(hosts@),
            forall|a: Seq<char>| #[trigger] kept(hosts@, a) == latest(records@.take(i as int), a),
        decreases records@.len() - i,
    {
        note(&mut hosts, records[i].0.as_str(), records[i].1.as_str());
        i += 1;
        proof {
            assert(records@.take(i as int).drop_last() =~= records@.take(i - 1));
            assert(records@.take(i as int).last() == records@[i - 1]);
        }
    }
    assert(records@.take(i as int) =~= records@);
    let ghost grouped = hosts@;
    let out = sort(hosts);
    proof {
        lemma_rearranged(grouped, out@);
        assert forall|a: Seq<char>| #[trigger] kept(out@, a) == latest(records@, a) by {
            lemma_rearranged_kept(grouped, out@, a);
        }
    }
    out
}

/// A list put in another order stays without a repeated alias.
pub proof fn lemma_rearranged(a: Seq<RecentHost>, b: Seq<RecentHost>)
    requires
        distinct(a),
        a.to_multiset() == b.to_multiset(),
    ensures
        distinct(b),
{
    broadcast use vstd::seq_lib::group_to_multiset_ensures;

    assert(a.no_duplicates()) by {
        assert forall|i: int, j: int| 0 <= i < a.len() && 0 <= j < a.len() && i != j implies a[i]
            != a[j] by {
            if i < j {
                assert(a[i].alias@ != a[j].alias@);
            } else {
                assert(a[j].alias@ != a[i].alias@);
            }
        }
    }
    a.lemma_multiset_has_no_duplicates();
    b.lemma_multiset_has_no_duplicates_conv();
    assert forall|i: int, j: int| 0 <= i < j < b.len() implies (#[trigger] b[i]).alias@ != (
    #[trigger] b[j]).alias@ by {
        assert(b[i] != b[j]);
        assert(b.to_multiset().count(b[i]) > 0);
        assert(b.to_multiset().count(b[j]) > 0);
        assert(a.to_multiset().count(b[i]) > 0);
        assert(a.to_multiset().count(b[j]) > 0);
        assert(a.contains(b[i]));
        assert(a.contains(b[j]));
        let x = choose|x: int| 0 <= x < a.len() && a[x] == b[i];
        let y = choose|y: int| 0 <= y < a.len() && a[y] == b[j];
        if x < y {
            assert(a[x].alias@ != a[y].alias@);
        } else {
            assert(a[y].alias@ != a[x].alias@);
        }
    }
}

/// A list without a repeated alias keeps the same time for an alias in
/// whatever order it is put.
pub proof fn lemma_rearranged_kept(a: Seq<RecentHost>, b: Seq<RecentHost>, alias: Seq<char>)
    requires
        distinct(a),
        distinct(b),
        a.to_multiset() == b.to_multiset(),
    ensures
        kept(a, alias) == kept(b, alias),
{
    broadcast use vstd::seq_lib::group_to_multiset_ensures;

    if exists|k: int| 0 <= k < a.len() && (#[trigger] a[k]).alias@ == alias {
        let k = choose|k: int| 0 <= k < a.len() && (#[trigger] a[k]).alias@ == alias;
        lemma_kept_at(a, k);
        assert(a.to_multiset().count(a[k]) > 0);
        assert(b.to_multiset().count(a[k]) > 0);
        assert(b.contains(a[k]));
        let j = choose|j: int| 0 <= j < b.len() && b[j] == a[k];
        lemma_kept_at(b, j);
    } else {
        lemma_kept_none(a, alias);
        assert forall|j: int| 0 <= j < b.len() implies (#[trigger] b[j]).alias@ != alias by {
            assert(b.to_multiset().count(b[j]) > 0);
            assert(a.to_multiset().count(b[j]) > 0);
            assert(a.contains(b[j]));
            let x = choose|x: int| 0 <= x < a.len() && a[x] == b[j];
            assert(a[x].alias@ != alias);
        }
        lemma_kept_none(b, alias);
    }
}

} // verus!
