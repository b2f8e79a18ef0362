//! Host resolution: the aliases of the client's configuration file and the
//! entries of the host store, merged into one list.

use vstd::prelude::*;
use crate::text::views;
use crate::text::opt_view;
use crate::text::clone_opt;
use crate::text::clone_strings;
use crate::text::chars_of;
use crate::text::chars_eq;
use crate::order::lex_lt;
use crate::order::lex_less;
use crate::order::strictly_sorted;
use crate::order::lemma_lex_total;
use crate::order::lemma_lex_transitive;
use crate::order::lemma_lex_irreflexive;
use crate::hosts_toml::HostEntry;
use crate::hosts_toml::HostEntryView;
use crate::hosts_toml::lookup;

verus! {

/// Where a host is known from.
#[derive(Debug, Clone, Copy, PartialEq, Eq, Structural)]
pub enum HostSource {
    /// The client's configuration file names it.
    SshConfig,
    /// The host store holds it.
    HostsToml,
}

/// One host that a connection can be made to.
#[derive(Debug, Clone)]
pub struct Host {
    pub alias: String,
    pub hostname: Option<String>,
    pub user: Option<String>,
    pub port: Option<u16>,
    pub identity_file: Option<String>,
    pub tags: Vec<String>,
    pub source: HostSource,
}

/// What a `Host` holds.
pub struct HostView {
    pub alias: Seq<char>,
    pub hostname: Option<Seq<char>>,
    pub user: Option<Seq<char>>,
    pub port: Option<u16>,
    pub identity_file: Option<Seq<char>>,
    pub tags: Seq<Seq<char>>,
    pub source: HostSource,
}

impl View for Host {
    type V = HostView;

    open spec fn view(&self) -> HostView {
        HostView {
            alias: self.alias@,
            hostname: opt_view(self.hostname),
            user: opt_view(self.user),
            port: self.port,
            identity_file: opt_view(self.identity_file),
            tags: views(self.tags@),
            source: self.source,
        }
    }
}

impl Host {
    /// A copy of this host.
    pub fn duplicate(&self) -> (r: Host)
        ensures
            r@ == self@,
    {
        Host {
            alias: self.alias.clone(),
            hostname: clone_opt(&self.hostname),
            user: clone_opt(&self.user),
            port: self.port,
            identity_file: clone_opt(&self.identity_file),
            tags: clone_strings(self.tags.as_slice()),
            source: self.source,
        }
    }
}

/// The host that stands for an alias of the configuration file: nothing is
/// known of it but the alias.
pub open spec fn config_host(alias: Seq<char>) -> HostView {
    HostView {
        alias,
        hostname: None,
        user: None,
        port: None,
        identity_file: None,
        tags: Seq::empty(),
        source: HostSource::SshConfig,
    }
}

/// The host that stands for an entry of the store: it carries the entry's
/// attributes as they are.
pub open spec fn stored_host(alias: Seq<char>, e: HostEntryView) -> HostView {
    HostView {
        alias,
        hostname: Some(e.hostname),
        user: e.user,
        port: e.port,
        identity_file: e.identity_file,
        tags: e.tags,
        source: HostSource::HostsToml,
    }
}

/// The host that an alias resolves to: the store's entry where the store
/// has one, else the bare alias where the configuration file names it, else
/// none.
pub open spec fn resolve(
    aliases: Seq<Seq<char>>,
    store: Seq<(String, HostEntry)>,
    alias: Seq<char>,
) -> Option<HostView> {
    match lookup(store, alias) {
        Some(e) => Some(stored_host(alias, e)),
        None => if aliases.contains(alias) {
            Some(config_host(alias))
        } else {
            None
        },
    }
}

/// The aliases of a list of hosts, in the list's order.
pub open spec fn aliases_of(hosts: Seq<Host>) -> Seq<Seq<char>> {
    Seq::new(hosts.len(), |i: int| hosts[i]@.alias)
}

/// The host of the list that has the alias: the last one, should there be
/// several.
pub open spec fn find(hosts: Seq<Host>, alias: Seq<char>) -> Option<HostView>
    decreases hosts.len(),
{
    if hosts.len() == 0 {
        None
    } else if hosts.last()@.alias == alias {
        Some(hosts.last()@)
    } else {
        find(hosts.drop_last(), alias)
    }
}

/// In a list without a repeated alias, `find` gives the one host that has
/// the alias.
pub proof fn lemma_find_at(hosts: Seq<Host>, i: int)
    requires
        0 <= i < hosts.len(),
        strictly_sorted(aliases_of(hosts)),
    ensures
        find(hosts, hosts[i]@.alias) == Some(hosts[i]@),
    decreases hosts.len(),
{
    if i < hosts.len() - 1 {
        assert(lex_lt(aliases_of(hosts)[i], aliases_of(hosts)[hosts.len() - 1]));
        lemma_lex_irreflexive(hosts[i]@.alias);
        let rest = hosts.drop_last();
        assert forall|x: int, y: int| 0 <= x < y < rest.len() implies lex_lt(
            aliases_of(rest)[x],
            aliases_of(rest)[y],
        ) by {
            assert(lex_lt(aliases_of(hosts)[x], aliases_of(hosts)[y]));
        }
        lemma_find_at(rest, i);
    }
}

/// Where no host of the list has the alias, `find` gives none.
pub proof fn lemma_find_none(hosts: Seq<Host>, alias: Seq<char>)
    requires
        forall|i: int| 0 <= i < hosts.len() ==> hosts[i]@.alias != alias,
    ensures
        find(hosts, alias) is None,
    decreases hosts.len(),
{
    if hosts.len() > 0 {
        lemma_find_none(hosts.drop_last(), alias);
    }
}

/// What `find` gives is a host of the list that has the alias.
pub proof fn lemma_find_some(hosts: Seq<Host>, alias: Seq<char>)
    requires
        find(hosts, alias) is Some,
    ensures
        exists|i: int| 0 <= i < hosts.len() && hosts[i]@.alias == alias && find(hosts, alias) == Some(
            hosts[i]@,
        ),
    decreases hosts.len(),
{
    if hosts.last()@.alias == alias {
        assert(hosts[hosts.len() - 1]@.alias == alias);
    } else {
        lemma_find_some(hosts.drop_last(), alias);
        let i = choose|i: int|
            0 <= i < hosts.len() - 1 && hosts.drop_last()[i]@.alias == alias && find(
                hosts.drop_last(),
                alias,
            ) == Some(hosts.drop_last()[i]@);
        assert(hosts[i]@.alias == alias);
    }
}

/// Whether the alias of `h` comes before `key` in dictionary order.
pub fn alias_less(h: &Host, key: &[char]) -> (r: bool)
    ensures
        r == lex_lt(h@.alias, key@),
{
    let cur = chars_of(h.alias.as_str());
    lex_less(cur.as_slice(), key)
}

/// Whether the alias of `h` is `key`.
pub fn alias_is(h: &Host, key: &[char]) -> (r: bool)
    ensures
        r == (h@.alias == key@),
{
    let cur = chars_of(h.alias.as_str());
    chars_eq(cur.as_slice(), key)
}

/// Puts `h` into a list that is sorted by alias, in place of the host that
/// has its alias, if there is one.
pub fn upsert(hosts: &mut Vec<Host>, h: Host)
    requires
        strictly_sorted(aliases_of(old(hosts)@)),
    ensures
        strictly_sorted(aliases_of(final(hosts)@)),
        forall|a: Seq<char>|
            #[trigger] find(final(hosts)@, a) == if a == h@.alias {
                Some(h@)
            } else {
                find(old(hosts)@, a)
            },
{
    let key = chars_of(h.alias.as_str());
    let ghost before = hosts@;
    let ghost hv = h@;
    let mut p: usize = 0;
    while p < hosts.len() && alias_less(&hosts[p], key.as_slice())
        invariant
            hosts@ == before,
            p <= before.len(),
            key@ == hv.alias,
            forall|k: int| 0 <= k < p ==> lex_lt(before[k]@.alias, hv.alias),
        decreases before.len() - p,
    {
        p += 1;
    }
    let same: bool = p < hosts.len() && alias_is(&hosts[p], key.as_slice());
    proof {
        if p < before.len() && !same {
            lemma_lex_total(before[p as int]@.alias, hv.alias);
        }
        assert forall|j: int| p < j < before.len() implies lex_lt(hv.alias, before[j]@.alias) by {
            assert(lex_lt(aliases_of(before)[p as int], aliases_of(before)[j]));
            if !same {
                lemma_lex_transitive(hv.alias, before[p as int]@.alias, before[j]@.alias);
            }
        }
    }
    if same {
        hosts.set(p, h);
    } else {
        hosts.insert(p, h);
    }
    proof {
        let after = hosts@;
        assert forall|x: int, y: int| 0 <= x < y < after.len() implies lex_lt(
            aliases_of(after)[x],
            aliases_of(after)[y],
        ) by {
            let bx = if same || x < p { x } else { x - 1 };
            let by_ = if same || y < p { y } else { y - 1 };
            if x != p && y != p {
                assert(lex_lt(aliases_of(before)[bx], aliases_of(before)[by_]));
            }
        }
        assert forall|a: Seq<char>| #[trigger] find(after, a) == if a == hv.alias {
            Some(hv)
        } else {
            find(before, a)
        } by {
            if a == hv.alias {
                lemma_find_at(after, p as int);
            } else if find(before, a) is Some {
                lemma_find_some(before, a);
                let i = choose|i: int|
                    0 <= i < before.len() && before[i]@.alias == a && find(before, a) == Some(
                        before[i]@,
                    );
                let j = if same || i < p { i } else { i + 1 };
                assert(after[j] == before[i]);
                lemma_find_at(after, j);
            } else {
                assert forall|i: int| 0 <= i < after.len() implies after[i]@.alias != a by {
                    if i != p && after[i]@.alias == a {
                        let k = if same || i < p { i } else { i - 1 };
                        assert(after[i] == before[k]);
                        lemma_find_at(before, k);
                    }
                }
                lemma_find_none(after, a);
            }
        }
    }
}

/// The hosts that can be connected to: every alias of the configuration
/// file and every entry of the store, once each, sorted by alias. Where both
/// name an alias the store's entry stands, whole; an alias that only the
/// configuration file names carries nothing but its name.
pub fn list_all_hosts(ssh_aliases: &[String], store: &[(String, HostEntry)]) -> (out: Vec<Host>)
    ensures
        strictly_sorted(aliases_of(out@)),
        forall|a: Seq<char>| #[trigger] find(out@, a) == resolve(views(ssh_aliases@), store@, a),
        forall|i: int|
            0 <= i < out@.len() ==> match lookup(store@, #[trigger] out@[i]@.alias) {
                Some(e) => out@[i]@ == stored_host(out@[i]@.alias, e),
                None => out@[i]@ == config_host(out@[i]@.alias) && views(ssh_aliases@).contains(
                    out@[i]@.alias,
                ),
            },
{
    let mut out: Vec<Host> = Vec::new();
    let ghost none = Seq::<(String, HostEntry)>::empty();
    let mut i: usize = 0;
    assert(views(ssh_aliases@).take(0) =~= Seq::<Seq<char>>::empty());
    while i < ssh_aliases.len()
        invariant
            i <= ssh_aliases@.len(),
            none == Seq::<(String, HostEntry)>::empty(),
            strictly_sorted(aliases_of(out@)),
            forall|a: Seq<char>|
                #[trigger] find(out@, a) == resolve(views(ssh_aliases@).take(i as int), none, a),
        decreases ssh_aliases@.len() - i,
    {
        let ghost prev = views(ssh_aliases@).take(i as int);
        let h = Host {
            alias: ssh_aliases[i].clone(),
            hostname: None,
            user: None,
            port: None,
            identity_file: None,
            tags: Vec::new(),
            source: HostSource::SshConfig,
        };
        assert(h@ =~= config_host(ssh_aliases@[i as int]@)) by {
            assert(views(h.tags@) =~= Seq::<Seq<char>>::empty());
        }
        upsert(&mut out, h);
        i += 1;
        proof {
            let next = views(ssh_aliases@).take(i as int);
            assert(next =~= prev.push(ssh_aliases@[i - 1]@));
            assert forall|a: Seq<char>| #[trigger] find(out@, a) == resolve(next, none, a) by {
                if a == ssh_aliases@[i - 1]@ {
                    assert(next[i - 1] == a);
                } else if prev.contains(a) {
                    let k = choose|k: int| 0 <= k < prev.len() && prev[k] == a;
                    assert(next[k] == a);
                } else if next.contains(a) {
                    let k = choose|k: int| 0 <= k < next.len() && next[k] == a;
                    assert(prev[k] == a);
                }
            }
        }
    }
    assert(views(ssh_aliases@).take(i as int) =~= views(ssh_aliases@));
    let mut j: usize = 0;
    assert(store@.take(0) =~= none);
    while j < store.len()
        invariant
            j <= store@.len(),
            strictly_sorted(aliases_of(out@)),
            forall|a: Seq<char>|
                #[trigger] find(out@, a) == resolve(views(ssh_aliases@), store@.take(j as int), a),
        decreases store@.len() - j,
    {
        let e = store[j].1.duplicate();
        let h = Host {
            alias: store[j].0.clone(),
            hostname: Some(e.hostname),
            user: e.user,
            port: e.port,
            identity_file: e.identity_file,
            tags: e.tags,
            source: HostSource::HostsToml,
        };
        assert(h@ == stored_host(store@[j as int].0@, store@[j as int].1@));
        upsert(&mut out, h);
        j += 1;
        proof {
            assert(store@.take(j as int).drop_last() =~= store@.take(j - 1));
            assert(store@.take(j as int).last() == store@[j - 1]);
        }
    }
    assert(store@.take(j as int) =~= store@);
    proof {
        assert forall|k: int| 0 <= k < out@.len() implies match lookup(
            store@,
            #[trigger] out@[k]@.alias,
        ) {
            Some(e) => out@[k]@ == stored_host(out@[k]@.alias, e),
            None => out@[k]@ == config_host(out@[k]@.alias) && views(ssh_aliases@).contains(
                out@[k]@.alias,
            ),
        } by {
            lemma_find_at(out@, k);
            assert(find(out@, out@[k]@.alias) == resolve(
                views(ssh_aliases@),
                store@,
                out@[k]@.alias,
            ));
        }
    }
    out
}

} // verus!
