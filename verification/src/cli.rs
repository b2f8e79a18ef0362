//! The commands that manage hosts and tunnels, as the command line names
//! them.

use vstd::prelude::*;

verus! {

/// A command on the host store.
#[derive(Debug, Clone)]
pub enum HostCommand {
    /// Add a host under `name`, with `target` in the form `user@host` or
    /// `host`.
    Add { name: String, target: String, port: Option<u16>, key: Option<String>, tag: Vec<String> },
    /// List all hosts.
    List,
    /// Remove the host `name`.
    Remove { name: String },
    /// Open the store in the user's editor.
    Edit { name: Option<String> },
}

/// A command on the tunnel profiles.
#[derive(Debug, Clone)]
pub enum TunnelCommand {
    /// Keep the flags and the target among `args` as the profile `name`.
    Add { name: String, args: Vec<String> },
    /// Start the profile `name` in the background.
    Start { name: String },
    /// Stop the running tunnel `name`.
    Stop { name: String },
    /// Remove the profile `name`.
    Remove { name: String },
    /// List all profiles.
    List,
}

} // verus!
