//! The picker's items and the order in which it shows them: by group, then
//! by how lately a host was connected to, and by alias those that never
//! were.

use vstd::prelude::*;
use crate::text::chars_of;
use crate::text::str_eq;
use crate::text::opt_view;
use crate::order::lex_lt;
use crate::order::lex_less;
use crate::order::lemma_lex_asymmetric;
use crate::order::lemma_lex_not_after;
use crate::order::Ranked;
use crate::order::stably_sorted;
use crate::order::sort;
use crate::hosts::Host;
use crate::hosts::HostView;
use crate::history::RecentHost;

verus! {

/// A host as the picker shows it: with the time of the last connection to
/// it, where one is on record.
#[derive(Debug, Clone)]
pub struct PickerHost {
    pub host: Host,
    pub last_connected: Option<String>,
}

/// What a `PickerHost` holds.
pub struct PickerHostView {
    pub host: HostView,
    pub last_connected: Option<Seq<char>>,
}

impl View for PickerHost {
    type V = PickerHostView;

    open spec fn view(&self) -> PickerHostView {
        PickerHostView { host: self.host@, last_connected: opt_view(self.last_connected) }
    }
}

/// The time on record for `alias`: that of the first record of the alias.
pub open spec fn recency_of(recent: Seq<RecentHost>, alias: Seq<char>) -> Option<Seq<char>>
    decreases recent.len(),
{
    if recent.len() == 0 {
        None
    } else if recent[0].alias@ == alias {
        Some(recent[0].last_connected@)
    } else {
        recency_of(recent.drop_first(), alias)
    }
}

/// The time on record for `alias`.
pub fn find_recency(recent: &[RecentHost], alias: &str) -> (r: Option<String>)
    ensures
        opt_view(r) == recency_of(recent@, alias@),
{
    let mut i: usize = 0;
    assert(recent@.skip(0) =~= recent@);
    while i < recent.len()
        invariant
            i <= recent@.len(),
            recency_of(recent@, alias@) == recency_of(recent@.skip(i as int), alias@),
        decreases recent@.len() - i,
    {
        if str_eq(recent[i].alias.as_str(), alias) {
            return Some(recent[i].last_connected.clone());
        }
        assert(recent@.skip(i as int).drop_first() =~= recent@.skip(i + 1));
        i += 1;
    }
    None
}

/// The hosts as picker items, in their order, each with the time on record
/// for its alias.
pub fn join_recent(hosts: &[Host], recent: &[RecentHost]) -> (out: Vec<PickerHost>)
    ensures
        out@.len() == hosts@.len(),
        forall|i: int|
            0 <= i < hosts@.len() ==> (#[trigger] out@[i])@ == (PickerHostView {
                host: hosts@[i]@,
                last_connected: recency_of(recent@, hosts@[i]@.alias),
            }),
{
    let mut out: Vec<PickerHost> = Vec::new();
    let mut i: usize = 0;
    while i < hosts.len()
        invariant
            i <= hosts@.len(),
            out@.len() == i,
            forall|k: int|
                0 <= k < i ==> (#[trigger] out@[k])@ == (PickerHostView {
                    host: hosts@[k]@,
                    last_connected: recency_of(recent@, hosts@[k]@.alias),
                }),
        decreases hosts@.len() - i,
    {
        let last_connected = find_recency(recent, hosts[i].alias.as_str());
        out.push(PickerHost { host: hosts[i].duplicate(), last_connected });
        i += 1;
    }
    out
}

/// The group of a host: its first tag. A host without tags has none.
pub open spec fn group_of(h: HostView) -> Option<Seq<char>> {
    if h.tags.len() > 0 {
        Some(h.tags[0])
    } else {
        None
    }
}

/// Whether the optional text `a` comes before `b`: texts in dictionary
/// order, and every text before none.
pub open spec fn opt_before(a: Option<Seq<char>>, b: Option<Seq<char>>) -> bool {
    match a {
        Some(x) => match b {
            Some(y) => lex_lt(x, y),
            None => true,
        },
        None => false,
    }
}

/// Whether the time `a` ranks before `b`: the later time first, and every
/// time before none.
pub open spec fn later_first(a: Option<Seq<char>>, b: Option<Seq<char>>) -> bool {
    match a {
        Some(x) => match b {
            Some(y) => lex_lt(y, x),
            None => true,
        },
        None => false,
    }
}

/// Whether `a` ranks before `b` inside one group: by the time of the last
/// connection, the later first and those without one last; hosts without a
/// time by alias. Hosts with the same time rank alike.
pub open spec fn recency_before(a: PickerHostView, b: PickerHostView) -> bool {
    later_first(a.last_connected, b.last_connected) || (a.last_connected is None
        && b.last_connected is None && lex_lt(a.host.alias, b.host.alias))
}

/// Whether the picker shows `a` before `b`: by group in dictionary order,
/// hosts without tags after all groups; inside a group as `recency_before`
/// says.
pub open spec fn shown_before(a: PickerHostView, b: PickerHostView) -> bool {
    opt_before(group_of(a.host), group_of(b.host)) || (!opt_before(
        group_of(b.host),
        group_of(a.host),
    ) && recency_before(a, b))
}

/// Two optional texts do not each come before the other.
pub proof fn lemma_opt_before_asymmetric(a: Option<Seq<char>>, b: Option<Seq<char>>)
    requires
        opt_before(a, b),
    ensures
        !opt_before(b, a),
{
    if a is Some && b is Some {
        lemma_lex_asymmetric(a->0, b->0);
    }
}

/// If `b` does not come before `a`, nor `c` before `b`, then `c` does not
/// come before `a`.
pub proof fn lemma_opt_before_not_after(
    a: Option<Seq<char>>,
    b: Option<Seq<char>>,
    c: Option<Seq<char>>,
)
    requires
        !opt_before(b, a),
        !opt_before(c, b),
    ensures
        !opt_before(c, a),
{
    if a is Some && b is Some && c is Some {
        lemma_lex_not_after(a->0, b->0, c->0);
    }
}

/// Two times do not each rank before the other.
pub proof fn lemma_later_first_asymmetric(a: Option<Seq<char>>, b: Option<Seq<char>>)
    requires
        later_first(a, b),
    ensures
        !later_first(b, a),
{
    if a is Some && b is Some {
        lemma_lex_asymmetric(b->0, a->0);
    }
}

/// If the time `b` does not rank before `a`, nor `c` before `b`, then `c`
/// does not rank before `a`.
pub proof fn lemma_later_first_not_after(
    a: Option<Seq<char>>,
    b: Option<Seq<char>>,
    c: Option<Seq<char>>,
)
    requires
        !later_first(b, a),
        !later_first(c, b),
    ensures
        !later_first(c, a),
{
    if a is Some && b is Some && c is Some {
        lemma_lex_not_after(c->0, b->0, a->0);
    }
}

/// Inside a group, two hosts do not each rank before the other.
pub proof fn lemma_recency_asymmetric(a: PickerHostView, b: PickerHostView)
    requires
        recency_before(a, b),
    ensures
        !recency_before(b, a),
{
    if later_first(a.last_connected, b.last_connected) {
        lemma_later_first_asymmetric(a.last_connected, b.last_connected);
    } else {
        lemma_lex_asymmetric(a.host.alias, b.host.alias);
    }
}

/// Inside a group, if `b` does not rank before `a`, nor `c` before `b`,
/// then `c` does not rank before `a`.
pub proof fn lemma_recency_not_after(a: PickerHostView, b: PickerHostView, c: PickerHostView)
    requires
        !recency_before(b, a),
        !recency_before(c, b),
    ensures
        !recency_before(c, a),
{
    lemma_later_first_not_after(a.last_connected, b.last_connected, c.last_connected);
    if a.last_connected is None && b.last_connected is None && c.last_connected is None {
        lemma_lex_not_after(a.host.alias, b.host.alias, c.host.alias);
    }
}

/// Of two hosts the picker does not show each before the other.
pub proof fn lemma_shown_asymmetric(a: PickerHostView, b: PickerHostView)
    requires
        shown_before(a, b),
    ensures
        !shown_before(b, a),
{
    if opt_before(group_of(a.host), group_of(b.host)) {
        lemma_opt_before_asymmetric(group_of(a.host), group_of(b.host));
    } else {
        lemma_recency_asymmetric(a, b);
    }
}

/// If the picker does not show `b` before `a`, nor `c` before `b`, then it
/// does not show `c` before `a`.
pub proof fn lemma_shown_not_after(a: PickerHostView, b: PickerHostView, c: PickerHostView)
    requires
        !shown_before(b, a),
        !shown_before(c, b),
    ensures
        !shown_before(c, a),
{
    let (ga, gb, gc) = (group_of(a.host), group_of(b.host), group_of(c.host));
    lemma_opt_before_not_after(ga, gb, gc);
    if !opt_before(ga, gc) {
        lemma_opt_before_not_after(gb, gc, ga);
        lemma_opt_before_not_after(gc, ga, gb);
        lemma_recency_not_after(a, b, c);
    }
}

/// Whether the optional text `a` comes before `b`.
pub fn is_opt_before(a: Option<&String>, b: Option<&String>) -> (r: bool)
    ensures
        r == opt_before(
            match a {
                Some(s) => Some(s@),
                None => None,
            },
            match b {
                Some(s) => Some(s@),
                None => None,
            },
        ),
{
    match a {
        Some(x) => match b {
            Some(y) => {
                let xv = chars_of(x.as_str());
                let yv = chars_of(y.as_str());
                lex_less(xv.as_slice(), yv.as_slice())
            },
            None => true,
        },
        None => false,
    }
}

/// The first tag of a host.
pub fn first_tag(h: &Host) -> (r: Option<&String>)
    ensures
        (match r {
            Some(s) => Some(s@),
            None => None,
        }) == group_of(h@),
{
    if h.tags.len() > 0 {
        assert(h@.tags[0] == h.tags@[0]@);
        Some(&h.tags[0])
    } else {
        None
    }
}

/// Whether `a` and `b` stand in one group.
pub fn same_group(a: &Host, b: &Host) -> (r: bool)
    ensures
        r == (group_of(a@) == group_of(b@)),
{
    match first_tag(a) {
        Some(x) => match first_tag(b) {
            Some(y) => str_eq(x.as_str(), y.as_str()),
            None => false,
        },
        None => first_tag(b).is_none(),
    }
}

impl Ranked for PickerHost {
    open spec fn ranks_before(&self, other: &Self) -> bool {
        shown_before(self@, other@)
    }

    fn is_before(&self, other: &Self) -> (r: bool) {
        let ga = first_tag(&self.host);
        let gb = first_tag(&other.host);
        if is_opt_before(ga, gb) {
            return true;
        }
        if is_opt_before(gb, ga) {
            return false;
        }
        match &self.last_connected {
            Some(ta) => match &other.last_connected {
                Some(tb) => {
                    let x = chars_of(ta.as_str());
                    let y = chars_of(tb.as_str());
                    lex_less(y.as_slice(), x.as_slice())
                },
                None => true,
            },
            None => match &other.last_connected {
                Some(_) => false,
                None => {
                    let xa = chars_of(self.host.alias.as_str());
                    let xb = chars_of(other.host.alias.as_str());
                    lex_less(xa.as_slice(), xb.as_slice())
                },
            },
        }
    }

    proof fn lemma_asymmetric(a: &Self, b: &Self) {
        lemma_shown_asymmetric(a@, b@);
    }

    proof fn lemma_not_after(a: &Self, b: &Self, c: &Self) {
        lemma_shown_not_after(a@, b@, c@);
    }
}

/// The items in the order in which the picker shows them. Items that rank
/// alike keep the order in which they stood.
pub fn sort_picker_hosts(items: Vec<PickerHost>) -> (out: Vec<PickerHost>)
    ensures
        stably_sorted(out@, items@),
        out@.to_multiset() == items@.to_multiset(),
        forall|i: int, j: int|
            0 <= i < j < out@.len() ==> !shown_before(#[trigger] out@[j]@, #[trigger] out@[i]@),
{
    let out = sort(items);
    assert forall|i: int, j: int| 0 <= i < j < out@.len() implies !shown_before(
        #[trigger] out@[j]@,
        #[trigger] out@[i]@,
    ) by {
        assert(!out@[j].ranks_before(&out@[i]));
    }
    out
}

} // verus!
