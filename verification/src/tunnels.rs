//! Tunnel profiles: a target with the flags of its forwardings, kept under
//! a name and run in the background over a control socket.

use vstd::prelude::*;
use vstd::string::StringExecFns;
use crate::text::views;
use crate::text::clone_strings;
use crate::store::names;
use crate::store::without;
use crate::store::has_name;
use crate::store::remove_named;
use crate::ssh::target_full;
use crate::ssh::flags_from;
use crate::ssh::extract_target_host_full;
use crate::ssh::extract_ssh_flags;

verus! {

/// A tunnel profile.
#[derive(Debug, Clone)]
pub struct TunnelEntry {
    /// The target, as the user wrote it.
    pub host: String,
    /// The client's flags for the tunnel, each with its value.
    pub ssh_flags: Vec<String>,
}

/// What a `TunnelEntry` holds.
pub struct TunnelEntryView {
    pub host: Seq<char>,
    pub ssh_flags: Seq<Seq<char>>,
}

impl View for TunnelEntry {
    type V = TunnelEntryView;

    open spec fn view(&self) -> TunnelEntryView {
        TunnelEntryView { host: self.host@, ssh_flags: views(self.ssh_flags@) }
    }
}

/// Why a tunnel command was refused.
#[derive(Debug, Clone, Copy, PartialEq, Eq, Structural)]
pub enum TunnelError {
    /// No profile has that name.
    NotFound,
    /// The arguments name no target.
    NoTarget,
}

/// Keeps `entry` under `name`, in place of what the store held under that
/// name.
pub fn add_tunnel(store: &mut Vec<(String, TunnelEntry)>, name: &str, entry: TunnelEntry)
    ensures
        final(store)@ == without(old(store)@, name@).push(final(store)@.last()),
        final(store)@.last().0@ == name@,
        final(store)@.last().1 == entry,
{
    remove_named(store, name);
    store.push((name.to_owned(), entry));
}

/// Removes what the store holds under `name`. A store without that name is
/// left as it is, and the lack is reported.
pub fn remove_tunnel(store: &mut Vec<(String, TunnelEntry)>, name: &str) -> (r: Result<
    (),
    TunnelError,
>)
    ensures
        !names(old(store)@).contains(name@) ==> r == Err::<(), TunnelError>(TunnelError::NotFound)
            && *final(store) == *old(store),
        names(old(store)@).contains(name@) ==> r is Ok && final(store)@ == without(
            old(store)@,
            name@,
        ),
        r is Ok ==> !names(final(store)@).contains(name@),
{
    if !has_name(store, name) {
        return Err(TunnelError::NotFound);
    }
    remove_named(store, name);
    Ok(())
}

/// The profile that a list of arguments describes: its first positional
/// argument is the target, its flags are the tunnel's. Arguments without a
/// positional one describe none.
pub fn tunnel_from_args(args: &[String]) -> (r: Result<TunnelEntry, TunnelError>)
    ensures
        match r {
            Ok(e) => target_full(views(args@)) == Some(e@.host) && e@.ssh_flags == flags_from(
                views(args@),
                0,
            ),
            Err(e) => e == TunnelError::NoTarget && target_full(views(args@)) is None,
        },
{
    match extract_target_host_full(args) {
        Some(host) => Ok(TunnelEntry { host, ssh_flags: extract_ssh_flags(args) }),
        None => Err(TunnelError::NoTarget),
    }
}

/// The client's arguments that start a tunnel in the background: no
/// command, master of the control socket at `socket`, then the profile's
/// flags and its target.
pub open spec fn start_args_of(socket: Seq<char>, e: TunnelEntryView) -> Seq<Seq<char>> {
    seq!["-N"@, "-M"@, "-S"@, socket].add(e.ssh_flags).push(e.host)
}

/// The client's arguments that start a tunnel in the background.
pub fn start_args(socket: &str, entry: &TunnelEntry) -> (args: Vec<String>)
    ensures
        views(args@) == start_args_of(socket@, entry@),
{
    let mut args: Vec<String> = Vec::new();
    args.push("-N".to_owned());
    args.push("-M".to_owned());
    args.push("-S".to_owned());
    args.push(socket.to_owned());
    let mut flags = clone_strings(entry.ssh_flags.as_slice());
    let ghost head = views(args@);
    let ghost fl = views(flags@);
    args.append(&mut flags);
    assert(views(args@) =~= head.add(fl));
    args.push(entry.host.clone());
    assert(views(args@) =~= start_args_of(socket@, entry@));
    args
}

/// The client's arguments that send `command` to the master of the control
/// socket at `socket`.
pub open spec fn control_args_of(socket: Seq<char>, command: Seq<char>, host: Seq<char>) -> Seq<
    Seq<char>,
> {
    seq!["-S"@, socket, "-O"@, command, host]
}

/// The client's arguments that send `command`, which is `stop` or `check`,
/// to the master of the control socket at `socket`.
pub fn control_args(socket: &str, command: &str, host: &str) -> (args: Vec<String>)
    ensures
        views(args@) == control_args_of(socket@, command@, host@),
{
    let mut args: Vec<String> = Vec::new();
    args.push("-S".to_owned());
    args.push(socket.to_owned());
    args.push("-O".to_owned());
    args.push(command.to_owned());
    args.push(host.to_owned());
    assert(views(args@) =~= control_args_of(socket@, command@, host@));
    args
}

/// The name of the file of a tunnel's control socket.
pub fn socket_file_name(name: &str) -> (r: String)
    ensures
        r@ == name@.add(".sock"@),
{
    let mut r = name.to_owned();
    r.append(".sock");
    r
}

} // verus!
