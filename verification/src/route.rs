//! What a command line asks for: a connection typed by hand, a host to
//! look up, or one of the program's own commands.

use vstd::prelude::*;
use vstd::string::StringExecFns;
use crate::text::views;
use crate::text::chars_of;
use crate::text::chars_eq;
use crate::text::str_eq;
use crate::search::contains_seq;
use crate::search::contains;
use crate::search::has_char;
use crate::split::join;
use crate::split::join_strings;
use crate::ssh::is_flag;
use crate::connect::own_flag;
use crate::connect::is_oken_flag;
use crate::connect::ssh_args;
use crate::connect::with_keepalive;
use crate::connect::build_ssh_args;
use crate::connect::inject_keepalive;
use crate::hosts::Host;
use crate::manage::alias_index;
use crate::manage::find_alias;
use crate::manage::names_host;
use crate::oken_config::OkenConfig;
use crate::reconnect::Supervisor;

verus! {

/// What kind of request a command line is.
#[derive(Debug, Clone, Copy, PartialEq, Eq, Structural)]
pub enum ArgKind {
    /// One of the program's own commands or flags, or nothing at all.
    Commands,
    /// A single word that may name a host or part of one.
    Query,
    /// Arguments for the client, to hand on as they are.
    Passthrough,
}

/// What kind of request the arguments are; the first of them is the
/// program's name. `known_subcommand` says whether the second is the name of
/// one of the program's commands.
pub open spec fn kind_of(args: Seq<Seq<char>>, known_subcommand: bool) -> ArgKind {
    if args.len() > 1 && !known_subcommand && !own_flag(args[1]) {
        if args.len() == 2 && !args[1].contains('@') && !is_flag(args[1]) {
            ArgKind::Query
        } else {
            ArgKind::Passthrough
        }
    } else {
        ArgKind::Commands
    }
}

/// What kind of request the arguments are.
pub fn classify_args(args: &[String], known_subcommand: bool) -> (r: ArgKind)
    ensures
        r == kind_of(views(args@), known_subcommand),
{
    if args.len() > 1 && !known_subcommand {
        assert(views(args@)[1] == args@[1]@);
        if is_oken_flag(args[1].as_str()) {
            return ArgKind::Commands;
        }
        let a = chars_of(args[1].as_str());
        if args.len() == 2 && !has_char(a.as_slice(), '@') && !(a.len() > 0 && a[0] == '-') {
            ArgKind::Query
        } else {
            ArgKind::Passthrough
        }
    } else {
        ArgKind::Commands
    }
}

/// Whether the alias of some other host holds the query.
pub open spec fn has_other_match(hosts: Seq<Host>, query: Seq<char>) -> bool {
    exists|i: int|
        0 <= i < hosts.len() && (#[trigger] hosts[i])@.alias != query && contains_seq(
            hosts[i]@.alias,
            query,
        )
}

/// The host to connect to for a query, without asking: the one whose alias
/// is the query, where no other alias holds the query. None where the user
/// is to pick.
pub fn resolve_query(hosts: &[Host], query: &str) -> (r: Option<usize>)
    ensures
        match r {
            Some(i) => i == alias_index(hosts@, query@) && i < hosts@.len() && !has_other_match(
                hosts@,
                query@,
            ),
            None => alias_index(hosts@, query@) == hosts@.len() || has_other_match(hosts@, query@),
        },
{
    let q = chars_of(query);
    let mut i: usize = 0;
    while i < hosts.len()
        invariant
            i <= hosts@.len(),
            q@ == query@,
            forall|k: int|
                0 <= k < i ==> !((#[trigger] hosts@[k])@.alias != query@ && contains_seq(
                    hosts@[k]@.alias,
                    query@,
                )),
        decreases hosts@.len() - i,
    {
        let a = chars_of(hosts[i].alias.as_str());
        if !chars_eq(a.as_slice(), q.as_slice()) && contains(a.as_slice(), q.as_slice()) {
            return None;
        }
        i += 1;
    }
    find_alias(hosts, query)
}

/// The index of the first host that `target` names, by alias or by host
/// name.
pub fn find_by_target(hosts: &[Host], target: &str) -> (r: Option<usize>)
    ensures
        match r {
            Some(i) => i < hosts@.len() && names_host(hosts@[i as int]@, target@) && forall|k: int|
                0 <= k < i ==> !names_host((#[trigger] hosts@[k])@, target@),
            None => forall|k: int|
                0 <= k < hosts@.len() ==> !names_host((#[trigger] hosts@[k])@, target@),
        },
{
    let mut i: usize = 0;
    while i < hosts.len()
        invariant
            i <= hosts@.len(),
            forall|k: int| 0 <= k < i ==> !names_host((#[trigger] hosts@[k])@, target@),
        decreases hosts@.len() - i,
    {
        let h = &hosts[i];
        let by_name = match &h.hostname {
            Some(hn) => str_eq(hn.as_str(), target),
            None => false,
        };
        if str_eq(h.alias.as_str(), target) || by_name {
            return Some(i);
        }
        i += 1;
    }
    None
}

/// The supervisor under which to run the client; none where reconnecting
/// is switched off, by the settings or for this run.
pub fn plan_run(no_reconnect: bool, cfg: &OkenConfig) -> (r: Option<Supervisor>)
    ensures
        r == if no_reconnect || !cfg.reconnect {
            None
        } else {
            Some(
                Supervisor {
                    attempts_used: 0,
                    max_retries: cfg.reconnect_retries,
                    delay_secs: cfg.reconnect_delay_secs,
                },
            )
        },
{
    if no_reconnect || !cfg.reconnect {
        None
    } else {
        Some(Supervisor::new(cfg.reconnect_retries, cfg.reconnect_delay_secs))
    }
}

/// The command that connects to a host, as one line: the client at
/// `ssh_path` with the host's arguments and the keepalive options for a
/// host of the list, and the plain client with the name for any other.
pub open spec fn command_line(
    ssh_path: Seq<char>,
    name: Seq<char>,
    hosts: Seq<Host>,
    keepalive: nat,
) -> Seq<char> {
    let i = alias_index(hosts, name);
    if 0 <= i < hosts.len() {
        join(seq![ssh_path].add(with_keepalive(ssh_args(hosts[i]@), keepalive)), " "@)
    } else {
        "ssh "@.add(name)
    }
}

/// The command that connects to a host, as one line.
pub fn print_command(ssh_path: &str, name: &str, hosts: &[Host], keepalive: u32) -> (r: String)
    ensures
        r@ == command_line(ssh_path@, name@, hosts@, keepalive as nat),
{
    match find_alias(hosts, name) {
        Some(i) => {
            let mut parts = build_ssh_args(&hosts[i]);
            inject_keepalive(&mut parts, keepalive);
            let mut full: Vec<String> = Vec::new();
            full.push(ssh_path.to_owned());
            let ghost tail = views(parts@);
            full.append(&mut parts);
            assert(views(full@) =~= seq![ssh_path@].add(tail));
            join_strings(full.as_slice(), " ")
        },
        None => {
            let mut r = "ssh ".to_owned();
            r.append(name);
            r
        },
    }
}

/// The query that shows the hosts with the tag `tag` in the picker.
pub fn tag_query(tag: &str) -> (r: String)
    ensures
        r@ == seq!['#'].add(tag@),
{
    let mut r = String::new();
    r.push('#');
    r.append(tag);
    assert(r@ =~= seq!['#'].add(tag@));
    r
}

} // verus!
