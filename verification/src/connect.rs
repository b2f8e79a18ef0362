//! Preparing a connection: the client's arguments for a host, the
//! keepalive options, and the warning for hosts that carry a danger tag.

use vstd::prelude::*;
use vstd::string::StringExecFns;
use crate::text::views;
use crate::text::chars_of;
use crate::text::str_eq;
use crate::text::trim;
use crate::text::trim_range;
use crate::search::contains_seq;
use crate::search::occurs_at;
use crate::search::contains;
use crate::numbers::decimal;
use crate::numbers::push_decimal;
use crate::case::eq_ignore_case;
use crate::case::eq_ignore_ascii_case;
use crate::split::join;
use crate::split::join_strings;
use crate::hosts::Host;
use crate::hosts::HostView;

verus! {

/// The name of the client option that sets the keepalive interval.
pub open spec fn interval_key() -> Seq<char> {
    "ServerAliveInterval"@
}

/// Whether some argument holds the name of the keepalive interval option.
pub open spec fn keepalive_set(args: Seq<Seq<char>>) -> bool {
    exists|i: int| 0 <= i < args.len() && contains_seq(#[trigger] args[i], interval_key())
}

/// The two options that switch keepalive probes on: one every `interval`
/// seconds, and the connection given up after three without an answer.
pub open spec fn keepalive_options(interval: nat) -> Seq<Seq<char>> {
    seq![
        "-o"@,
        "ServerAliveInterval="@.add(decimal(interval)),
        "-o"@,
        "ServerAliveCountMax=3"@,
    ]
}

/// The arguments with the keepalive options before them, unless they set
/// the interval themselves.
pub open spec fn with_keepalive(args: Seq<Seq<char>>, interval: nat) -> Seq<Seq<char>> {
    if keepalive_set(args) {
        args
    } else {
        keepalive_options(interval).add(args)
    }
}

/// Arguments that went through `with_keepalive` set the interval.
pub proof fn lemma_keepalive_sets(args: Seq<Seq<char>>, interval: nat)
    ensures
        keepalive_set(with_keepalive(args, interval)),
{
    if !keepalive_set(args) {
        let out = keepalive_options(interval).add(args);
        let opt = "ServerAliveInterval="@.add(decimal(interval));
        reveal_strlit("ServerAliveInterval=");
        reveal_strlit("ServerAliveInterval");
        assert(opt.subrange(0, 19) =~= interval_key());
        assert(occurs_at(opt, interval_key(), 0));
        assert(out[1] == opt);
    }
}

/// Putting the keepalive options in is idempotent: a second pass, with
/// whatever interval, leaves the arguments as the first pass made them.
pub proof fn lemma_keepalive_idempotent(args: Seq<Seq<char>>, first: nat, second: nat)
    ensures
        with_keepalive(with_keepalive(args, first), second) == with_keepalive(args, first),
{
    lemma_keepalive_sets(args, first);
}

/// Whether some argument holds the name of the keepalive interval option.
pub fn has_keepalive(args: &[String]) -> (r: bool)
    ensures
        r == keepalive_set(views(args@)),
{
    let key = chars_of("ServerAliveInterval");
    let mut i: usize = 0;
    while i < args.len()
        invariant
            i <= args@.len(),
            key@ == interval_key(),
            forall|k: int| 0 <= k < i ==> !contains_seq(#[trigger] views(args@)[k], interval_key()),
        decreases args@.len() - i,
    {
        let a = chars_of(args[i].as_str());
        assert(views(args@)[i as int] == a@);
        if contains(a.as_slice(), key.as_slice()) {
            return true;
        }
        i += 1;
    }
    false
}

/// Puts the keepalive options before the arguments, unless an argument
/// sets the interval already: what the user wrote is never doubled nor
/// overridden.
pub fn inject_keepalive(args: &mut Vec<String>, interval: u32)
    ensures
        views(final(args)@) == with_keepalive(views(old(args)@), interval as nat),
{
    if !has_keepalive(args.as_slice()) {
        let mut option = "ServerAliveInterval=".to_owned();
        push_decimal(&mut option, interval as u64);
        let mut prefix: Vec<String> = Vec::new();
        prefix.push("-o".to_owned());
        prefix.push(option);
        prefix.push("-o".to_owned());
        prefix.push("ServerAliveCountMax=3".to_owned());
        assert(views(prefix@) =~= keepalive_options(interval as nat));
        prefix.append(args);
        assert(views(prefix@) =~= keepalive_options(interval as nat).add(views(old(args)@)));
        *args = prefix;
    }
}

/// How the client is told where to go: user and host name where both are
/// known, the host name alone, or else the alias, which the client looks up
/// itself.
pub open spec fn target_of(h: HostView) -> Seq<char> {
    match h.hostname {
        Some(hn) => match h.user {
            Some(u) => u.add("@"@).add(hn),
            None => hn,
        },
        None => h.alias,
    }
}

/// The client's arguments for a host: the target, then the port, then the
/// identity file, the last two where the host has them.
pub open spec fn ssh_args(h: HostView) -> Seq<Seq<char>> {
    seq![target_of(h)].add(
        match h.port {
            Some(p) => seq!["-p"@, decimal(p as nat)],
            None => Seq::empty(),
        },
    ).add(
        match h.identity_file {
            Some(f) => seq!["-i"@, f],
            None => Seq::empty(),
        },
    )
}

/// The text that names the host to the client.
pub fn target_text(host: &Host) -> (r: String)
    ensures
        r@ == target_of(host@),
{
    match &host.hostname {
        Some(hn) => match &host.user {
            Some(u) => {
                let mut t = u.clone();
                t.append("@");
                t.append(hn.as_str());
                t
            },
            None => hn.clone(),
        },
        None => host.alias.clone(),
    }
}

/// The client's arguments for a host.
pub fn build_ssh_args(host: &Host) -> (args: Vec<String>)
    ensures
        views(args@) == ssh_args(host@),
{
    let mut args: Vec<String> = Vec::new();
    args.push(target_text(host));
    if let Some(port) = host.port {
        args.push("-p".to_owned());
        let mut p = String::new();
        push_decimal(&mut p, port as u64);
        assert(p@ =~= decimal(port as nat));
        args.push(p);
    }
    if let Some(identity) = &host.identity_file {
        args.push("-i".to_owned());
        args.push(identity.clone());
    }
    assert(views(args@) =~= ssh_args(host@));
    args
}

/// Whether `tag` is a danger tag: equal to one of `danger` but for the case
/// of ASCII letters.
pub open spec fn is_danger(tag: Seq<char>, danger: Seq<Seq<char>>) -> bool {
    exists|i: int| 0 <= i < danger.len() && eq_ignore_case(#[trigger] danger[i], tag)
}

/// Those of `tags` that are danger tags, in their order.
pub open spec fn danger_among(tags: Seq<Seq<char>>, danger: Seq<Seq<char>>) -> Seq<Seq<char>> {
    tags.filter(|t: Seq<char>| is_danger(t, danger))
}

/// Whether `tag` is a danger tag.
pub fn is_danger_tag(tag: &str, danger_tags: &[String]) -> (r: bool)
    ensures
        r == is_danger(tag@, views(danger_tags@)),
{
    let t = chars_of(tag);
    let mut i: usize = 0;
    while i < danger_tags.len()
        invariant
            i <= danger_tags@.len(),
            t@ == tag@,
            forall|k: int| 0 <= k < i ==> !eq_ignore_case(#[trigger] views(danger_tags@)[k], tag@),
        decreases danger_tags@.len() - i,
    {
        let d = chars_of(danger_tags[i].as_str());
        assert(views(danger_tags@)[i as int] == d@);
        if eq_ignore_ascii_case(d.as_slice(), t.as_slice()) {
            return true;
        }
        i += 1;
    }
    false
}

/// The tags of `host` that are danger tags: those for which the user is
/// asked before a connection is made.
pub fn danger_matches(host: &Host, danger_tags: &[String]) -> (out: Vec<String>)
    ensures
        views(out@) == danger_among(host@.tags, views(danger_tags@)),
{
    let ghost tags = views(host.tags@);
    let ghost pred = |t: Seq<char>| is_danger(t, views(danger_tags@));
    let mut out: Vec<String> = Vec::new();
    let mut i: usize = 0;
    assert(tags.take(0).filter(pred) =~= Seq::<Seq<char>>::empty()) by {
        reveal(Seq::filter);
    }
    assert(views(out@) =~= Seq::<Seq<char>>::empty());
    while i < host.tags.len()
        invariant
            i <= host.tags@.len(),
            tags == views(host.tags@),
            pred == |t: Seq<char>| is_danger(t, views(danger_tags@)),
            views(out@) == tags.take(i as int).filter(pred),
        decreases host.tags@.len() - i,
    {
        let ghost before = views(out@);
        proof {
            tags.take(i as int).lemma_filter_push(tags[i as int], pred);
            assert(tags.take(i + 1) =~= tags.take(i as int).push(tags[i as int]));
        }
        if is_danger_tag(host.tags[i].as_str(), danger_tags) {
            out.push(host.tags[i].clone());
            assert(views(out@) =~= before.push(tags[i as int]));
        }
        i += 1;
    }
    assert(tags.take(host.tags@.len() as int) =~= tags);
    out
}

/// The warning shown before a connection to a host with danger tags.
pub open spec fn warning_of(alias: Seq<char>, matches: Seq<Seq<char>>) -> Seq<char> {
    "'"@.add(alias).add("' is tagged ["@).add(join(matches, ", "@)).add("]"@)
}

/// The warning shown before a connection to a host with danger tags.
pub fn warning_text(alias: &str, matches: &[String]) -> (r: String)
    ensures
        r@ == warning_of(alias@, views(matches@)),
{
    let mut r = "'".to_owned();
    r.append(alias);
    r.append("' is tagged [");
    let j = join_strings(matches, ", ");
    r.append(j.as_str());
    r.append("]");
    r
}

/// Whether an answer means yes: `y` or `yes`, in either case, white space
/// around it allowed.
pub open spec fn means_yes(line: Seq<char>) -> bool {
    eq_ignore_case(trim(line), "y"@) || eq_ignore_case(trim(line), "yes"@)
}

/// Whether an answer means yes.
pub fn is_affirmative(line: &str) -> (r: bool)
    ensures
        r == means_yes(line@),
{
    let v = chars_of(line);
    assert(v@.subrange(0, v@.len() as int) =~= v@);
    let (a, b) = trim_range(v.as_slice(), 0, v.len());
    let t = crate::split::copy_range(v.as_slice(), a, b);
    let y = chars_of("y");
    let yes = chars_of("yes");
    eq_ignore_ascii_case(t.as_slice(), y.as_slice()) || eq_ignore_ascii_case(
        t.as_slice(),
        yes.as_slice(),
    )
}

/// Whether `arg` is one of this program's own flags.
pub open spec fn own_flag(arg: Seq<char>) -> bool {
    ||| arg == "--help"@
    ||| arg == "-h"@
    ||| arg == "--version"@
    ||| arg == "-V"@
    ||| arg == "--tag"@
    ||| arg == "--yes"@
    ||| arg == "--no-reconnect"@
}

/// Whether `arg` is one of this program's own flags, which are not handed
/// to the client.
pub fn is_oken_flag(arg: &str) -> (r: bool)
    ensures
        r == own_flag(arg@),
{
    str_eq(arg, "--help") || str_eq(arg, "-h") || str_eq(arg, "--version") || str_eq(arg, "-V")
        || str_eq(arg, "--tag") || str_eq(arg, "--yes") || str_eq(arg, "--no-reconnect")
}

} // verus!
