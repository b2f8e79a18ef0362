//! Managing the host store: the entry that a command describes, the hosts
//! that the store does not own, the order of the listing, and the offer to
//! keep a host that was typed by hand.

use vstd::prelude::*;
use crate::text::views;
use crate::text::opt_view;
use crate::text::chars_of;
use crate::text::str_eq;
use crate::text::string_of;
use crate::text::string_of_range;
use crate::text::trim;
use crate::text::trim_range;
use crate::search::position;
use crate::search::find_char;
use crate::case::eq_ignore_case;
use crate::case::eq_ignore_ascii_case;
use crate::split::rows;
use crate::split::copy_range;
use crate::split::split_on;
use crate::split::split_at_char;
use crate::order::lex_lt;
use crate::order::lex_less;
use crate::order::lemma_lex_asymmetric;
use crate::order::lemma_lex_not_after;
use crate::order::Ranked;
use crate::order::stably_sorted;
use crate::order::sort;
use crate::ssh::host_part;
use crate::ssh::target_full;
use crate::ssh::port_of;
use crate::ssh::flag_value;
use crate::ssh::extract_target_host_full;
use crate::ssh::extract_port;
use crate::ssh::extract_identity_file;
use crate::hosts::Host;
use crate::hosts::HostView;
use crate::hosts::HostSource;
use crate::hosts_toml::HostEntry;
use crate::hosts_toml::HostEntryView;

verus! {

/// What stands before the first `@` of `target`; none where it has no `@`.
pub open spec fn user_part(target: Seq<char>) -> Option<Seq<char>> {
    let p = position(target, '@');
    if 0 <= p < target.len() {
        Some(target.take(p))
    } else {
        None
    }
}

/// The user and the host of a target in the form `user@host` or `host`.
pub fn split_target(target: &str) -> (r: (Option<String>, String))
    ensures
        opt_view(r.0) == user_part(target@),
        r.1@ == host_part(target@),
{
    let t = chars_of(target);
    let n: usize = t.len();
    assert(t@.subrange(0, n as int) =~= t@);
    let p = find_char(t.as_slice(), 0, n, '@');
    if p < n {
        assert(t@.subrange(0, p as int) =~= target@.take(p as int));
        assert(t@.subrange(p + 1, n as int) =~= target@.skip(p + 1));
        (Some(string_of_range(t.as_slice(), 0, p)), string_of_range(t.as_slice(), p + 1, n))
    } else {
        (None, target.to_owned())
    }
}

/// The entry that the command to add a host describes.
pub fn entry_from_target(target: &str, port: Option<u16>, key: Option<String>, tags: Vec<String>) -> (e:
    HostEntry)
    ensures
        e@ == (HostEntryView {
            hostname: host_part(target@),
            user: user_part(target@),
            port,
            identity_file: opt_view(key),
            tags: views(tags@),
        }),
{
    let (user, hostname) = split_target(target);
    HostEntry { hostname, user, port, identity_file: key, tags }
}

/// The index of the first host with the alias `alias`; the number of hosts
/// where there is none.
pub open spec fn alias_index(hosts: Seq<Host>, alias: Seq<char>) -> int
    decreases hosts.len(),
{
    if hosts.len() == 0 || hosts[0]@.alias == alias {
        0
    } else {
        1 + alias_index(hosts.drop_first(), alias)
    }
}

/// The index of the first host with the alias `alias`.
pub fn find_alias(hosts: &[Host], alias: &str) -> (r: Option<usize>)
    ensures
        match r {
            Some(i) => i == alias_index(hosts@, alias@) && i < hosts@.len() && hosts@[i as int]@.alias
                == alias@,
            None => alias_index(hosts@, alias@) == hosts@.len() && forall|k: int|
                0 <= k < hosts@.len() ==> (#[trigger] hosts@[k])@.alias != alias@,
        },
{
    let mut i: usize = 0;
    assert(hosts@.skip(0) =~= hosts@);
    while i < hosts.len()
        invariant
            i <= hosts@.len(),
            alias_index(hosts@, alias@) == i + alias_index(hosts@.skip(i as int), alias@),
            forall|k: int| 0 <= k < i ==> (#[trigger] hosts@[k])@.alias != alias@,
        decreases hosts@.len() - i,
    {
        assert(hosts@.skip(i as int)[0] == hosts@[i as int]);
        if str_eq(hosts[i].alias.as_str(), alias) {
            return Some(i);
        }
        assert(hosts@.skip(i as int).drop_first() =~= hosts@.skip(i + 1));
        i += 1;
    }
    None
}

/// Whether the host `name` comes from the client's configuration file, so
/// that the store can neither remove nor change it.
pub fn is_config_managed(hosts: &[Host], name: &str) -> (r: bool)
    ensures
        r == (alias_index(hosts@, name@) < hosts@.len() && hosts@[alias_index(
            hosts@,
            name@,
        )]@.source == HostSource::SshConfig),
{
    match find_alias(hosts, name) {
        Some(i) => hosts[i].source == HostSource::SshConfig,
        None => false,
    }
}

/// Whether the listing shows `a` before `b`: the hosts of the store before
/// those of the configuration file, each kind by alias.
pub open spec fn listed_before(a: HostView, b: HostView) -> bool {
    (a.source == HostSource::HostsToml && b.source == HostSource::SshConfig) || (a.source
        == b.source && lex_lt(a.alias, b.alias))
}

impl Ranked for Host {
    open spec fn ranks_before(&self, other: &Self) -> bool {
        listed_before(self@, other@)
    }

    fn is_before(&self, other: &Self) -> (r: bool) {
        if self.source == HostSource::HostsToml && other.source == HostSource::SshConfig {
            return true;
        }
        if self.source == HostSource::SshConfig && other.source == HostSource::HostsToml {
            return false;
        }
        let a = chars_of(self.alias.as_str());
        let b = chars_of(other.alias.as_str());
        lex_less(a.as_slice(), b.as_slice())
    }

    proof fn lemma_asymmetric(a: &Self, b: &Self) {
        if a@.source == b@.source {
            lemma_lex_asymmetric(a@.alias, b@.alias);
        }
    }

    proof fn lemma_not_after(a: &Self, b: &Self, c: &Self) {
        if a@.source == b@.source && b@.source == c@.source {
            lemma_lex_not_after(a@.alias, b@.alias, c@.alias);
        }
    }
}

/// The hosts in the order of the listing. Hosts that rank alike keep the
/// order in which they stood.
pub fn sort_for_listing(hosts: Vec<Host>) -> (out: Vec<Host>)
    ensures
        stably_sorted(out@, hosts@),
        out@.to_multiset() == hosts@.to_multiset(),
        forall|i: int, j: int|
            0 <= i < j < out@.len() ==> !listed_before(#[trigger] out@[j]@, #[trigger] out@[i]@),
{
    let out = sort(hosts);
    assert forall|i: int, j: int| 0 <= i < j < out@.len() implies !listed_before(
        #[trigger] out@[j]@,
        #[trigger] out@[i]@,
    ) by {
        assert(!out@[j].ranks_before(&out@[i]));
    }
    out
}

/// Whether a host is the one that `hostname` names: by its alias or by its
/// host name.
pub open spec fn names_host(h: HostView, hostname: Seq<char>) -> bool {
    h.alias == hostname || h.hostname == Some(hostname)
}

/// Whether a host is known as the target `user@hostname`: it is the host
/// that `hostname` names and has that user, or its alias is the target as a
/// whole.
pub open spec fn known_as(h: HostView, user: Seq<char>, hostname: Seq<char>, target: Seq<char>) -> bool {
    (names_host(h, hostname) && h.user == Some(user)) || h.alias == target
}

/// What to offer when the user connects to a target typed by hand.
#[derive(Debug, Clone, Copy, PartialEq, Eq, Structural)]
pub enum SaveOffer {
    /// Nothing: the arguments name no target of the form `user@host`, or
    /// the target is known.
    Nothing,
    /// The host is known, the user is new: ask for a name, and skip where
    /// none is given.
    NewUser,
    /// The host is new: ask for a name, with the host name as the default.
    NewHost,
}

/// What to offer for a target, among these hosts.
pub open spec fn offer_for(target: Option<Seq<char>>, hosts: Seq<Host>) -> SaveOffer {
    match target {
        None => SaveOffer::Nothing,
        Some(t) => match user_part(t) {
            None => SaveOffer::Nothing,
            Some(u) => if exists|i: int|
                0 <= i < hosts.len() && known_as((#[trigger] hosts[i])@, u, host_part(t), t) {
                SaveOffer::Nothing
            } else if exists|i: int|
                0 <= i < hosts.len() && names_host((#[trigger] hosts[i])@, host_part(t)) {
                SaveOffer::NewUser
            } else {
                SaveOffer::NewHost
            },
        },
    }
}

/// Whether an optional text is `s`.
fn opt_is(o: &Option<String>, s: &str) -> (r: bool)
    ensures
        r == (opt_view(*o) == Some(s@)),
{
    match o {
        Some(x) => str_eq(x.as_str(), s),
        None => false,
    }
}

/// What to offer when the user connects with these arguments.
pub fn save_offer(args: &[String], hosts: &[Host]) -> (r: SaveOffer)
    ensures
        r == offer_for(target_full(views(args@)), hosts@),
{
    let target = match extract_target_host_full(args) {
        Some(t) => t,
        None => {
            return SaveOffer::Nothing;
        },
    };
    let (user, hostname) = split_target(target.as_str());
    let user = match user {
        Some(u) => u,
        None => {
            return SaveOffer::Nothing;
        },
    };
    let mut host_known: bool = false;
    let mut i: usize = 0;
    while i < hosts.len()
        invariant
            i <= hosts@.len(),
            target_full(views(args@)) == Some(target@),
            user_part(target@) == Some(user@),
            host_part(target@) == hostname@,
            forall|k: int|
                0 <= k < i ==> !known_as((#[trigger] hosts@[k])@, user@, hostname@, target@),
            host_known <==> exists|k: int|
                0 <= k < i && names_host((#[trigger] hosts@[k])@, hostname@),
        decreases hosts@.len() - i,
    {
        let h = &hosts[i];
        let names = str_eq(h.alias.as_str(), hostname.as_str()) || opt_is(
            &h.hostname,
            hostname.as_str(),
        );
        if (names && opt_is(&h.user, user.as_str())) || str_eq(h.alias.as_str(), target.as_str()) {
            assert(known_as(hosts@[i as int]@, user@, hostname@, target@));
            return SaveOffer::Nothing;
        }
        if names {
            host_known = true;
        }
        i += 1;
    }
    if host_known {
        SaveOffer::NewUser
    } else {
        SaveOffer::NewHost
    }
}

/// The name under which to keep the host, given the user's answer: for a
/// new user of a known host the answer, and none where it is empty; for a
/// new host none where the answer is `n` or `no`, the host name where it is
/// empty, and else the answer. White space around the answer does not
/// count.
pub open spec fn alias_for(offer: SaveOffer, reply: Seq<char>, hostname: Seq<char>) -> Option<
    Seq<char>,
> {
    let input = trim(reply);
    match offer {
        SaveOffer::Nothing => None,
        SaveOffer::NewUser => if input.len() == 0 {
            None
        } else {
            Some(input)
        },
        SaveOffer::NewHost => if eq_ignore_case(input, "n"@) || eq_ignore_case(input, "no"@) {
            None
        } else if input.len() == 0 {
            Some(hostname)
        } else {
            Some(input)
        },
    }
}

/// The name under which to keep the host, given the user's answer.
pub fn alias_from_reply(offer: SaveOffer, reply: &str, hostname: &str) -> (r: Option<String>)
    ensures
        opt_view(r) == alias_for(offer, reply@, hostname@),
{
    let v = chars_of(reply);
    assert(v@.subrange(0, v@.len() as int) =~= v@);
    let (a, b) = trim_range(v.as_slice(), 0, v.len());
    let input = copy_range(v.as_slice(), a, b);
    match offer {
        SaveOffer::Nothing => None,
        SaveOffer::NewUser => {
            if input.len() == 0 {
                None
            } else {
                Some(string_of(input.as_slice()))
            }
        },
        SaveOffer::NewHost => {
            let n = chars_of("n");
            let no = chars_of("no");
            if eq_ignore_ascii_case(input.as_slice(), n.as_slice()) || eq_ignore_ascii_case(
                input.as_slice(),
                no.as_slice(),
            ) {
                None
            } else if input.len() == 0 {
                Some(hostname.to_owned())
            } else {
                Some(string_of(input.as_slice()))
            }
        },
    }
}

/// The tags among `parts`: each part without the white space around it,
/// the empty ones left out.
pub open spec fn tags_among(parts: Seq<Seq<char>>) -> Seq<Seq<char>>
    decreases parts.len(),
{
    if parts.len() == 0 {
        Seq::empty()
    } else if trim(parts.last()).len() == 0 {
        tags_among(parts.drop_last())
    } else {
        tags_among(parts.drop_last()).push(trim(parts.last()))
    }
}

/// The tags that a line names, with commas between them.
pub fn parse_tags(line: &str) -> (out: Vec<String>)
    ensures
        views(out@) == tags_among(split_on(line@, ',')),
{
    let v = chars_of(line);
    let parts = split_at_char(v.as_slice(), ',');
    let ghost p = rows(parts@);
    let mut out: Vec<String> = Vec::new();
    let mut i: usize = 0;
    assert(p.take(0) =~= Seq::<Seq<char>>::empty());
    assert(views(out@) =~= Seq::<Seq<char>>::empty());
    while i < parts.len()
        invariant
            i <= parts@.len(),
            p == rows(parts@),
            views(out@) == tags_among(p.take(i as int)),
        decreases parts@.len() - i,
    {
        let ghost before = views(out@);
        assert(p.take(i + 1).drop_last() =~= p.take(i as int));
        assert(p.take(i + 1).last() == parts@[i as int]@);
        let part = parts[i].as_slice();
        assert(part@.subrange(0, part@.len() as int) =~= part@);
        let (a, b) = trim_range(part, 0, part.len());
        if a < b {
            out.push(string_of_range(part, a, b));
            assert(views(out@) =~= before.push(trim(part@)));
        }
        i += 1;
    }
    assert(p.take(parts@.len() as int) =~= p);
    out
}

/// The entry to keep for a target typed by hand: user and host as typed,
/// port and identity file as the arguments give them.
pub fn entry_to_save(args: &[String], user: &str, hostname: &str, tags: Vec<String>) -> (e: HostEntry)
    ensures
        e@ == (HostEntryView {
            hostname: hostname@,
            user: Some(user@),
            port: port_of(views(args@)),
            identity_file: flag_value(views(args@), 'i'),
            tags: views(tags@),
        }),
{
    HostEntry {
        hostname: hostname.to_owned(),
        user: Some(user.to_owned()),
        port: extract_port(args),
        identity_file: extract_identity_file(args),
        tags,
    }
}

} // verus!
