//! Where to look for the client, and for the directories that the program
//! keeps its files in.

use vstd::prelude::*;
use crate::text::views;
use crate::text::str_eq;
use crate::config_scan::path_join;
use crate::config_scan::join_path;

verus! {

/// The places where the client may be, in the order in which to look: the
/// file `ssh` in each directory of the search path, then the two places
/// where systems keep it.
pub open spec fn candidates_of(dirs: Seq<Seq<char>>) -> Seq<Seq<char>> {
    Seq::new(dirs.len(), |i: int| path_join(dirs[i], "ssh"@)).push("/usr/bin/ssh"@).push(
        "/usr/local/bin/ssh"@,
    )
}

/// The places where the client may be, in the order in which to look.
pub fn ssh_candidates(dirs: &[String]) -> (out: Vec<String>)
    ensures
        views(out@) == candidates_of(views(dirs@)),
{
    let mut out: Vec<String> = Vec::new();
    let mut i: usize = 0;
    while i < dirs.len()
        invariant
            i <= dirs@.len(),
            out@.len() == i,
            forall|k: int| 0 <= k < i ==> (#[trigger] out@[k])@ == path_join(dirs@[k]@, "ssh"@),
        decreases dirs@.len() - i,
    {
        out.push(join_path(dirs[i].as_str(), "ssh"));
        i += 1;
    }
    out.push("/usr/bin/ssh".to_owned());
    out.push("/usr/local/bin/ssh".to_owned());
    assert(views(out@) =~= candidates_of(views(dirs@)));
    out
}

/// Whether two paths name one file. Each is given in its canonical form,
/// or as none where it has none, and a path without one names no file.
pub fn same_file(a: Option<&str>, b: Option<&str>) -> (r: bool)
    ensures
        r == match (a, b) {
            (Some(x), Some(y)) => x@ == y@,
            _ => false,
        },
{
    match a {
        Some(x) => match b {
            Some(y) => str_eq(x, y),
            None => false,
        },
        None => false,
    }
}

/// The first candidate that can be used. Each candidate comes with two
/// findings: whether it is a file, and whether it is this program itself,
/// which stands in for the client where the user has named it so.
pub fn first_usable(findings: &[(bool, bool)]) -> (r: Option<usize>)
    ensures
        match r {
            Some(i) => i < findings@.len() && findings@[i as int].0 && !findings@[i as int].1
                && forall|k: int|
                0 <= k < i ==> !((#[trigger] findings@[k]).0 && !findings@[k].1),
            None => forall|k: int|
                0 <= k < findings@.len() ==> !((#[trigger] findings@[k]).0 && !findings@[k].1),
        },
{
    let mut i: usize = 0;
    while i < findings.len()
        invariant
            i <= findings@.len(),
            forall|k: int| 0 <= k < i ==> !((#[trigger] findings@[k]).0 && !findings@[k].1),
        decreases findings@.len() - i,
    {
        if findings[i].0 && !findings[i].1 {
            return Some(i);
        }
        i += 1;
    }
    None
}

/// The directory of the program's files of one kind: the directory `oken`
/// under `base` where the environment names a base, else under `fallback`
/// in the home directory; none where neither is known.
pub open spec fn program_dir(
    base: Option<Seq<char>>,
    home: Option<Seq<char>>,
    fallback: Seq<char>,
) -> Option<Seq<char>> {
    match base {
        Some(b) => Some(path_join(b, "oken"@)),
        None => match home {
            Some(h) => Some(path_join(path_join(h, fallback), "oken"@)),
            None => None,
        },
    }
}

/// The directory `oken` under `base`, or under `fallback` in the home
/// directory.
fn dir_under(base: Option<&str>, home: Option<&str>, fallback: &str) -> (r: Option<String>)
    ensures
        crate::text::opt_view(r) == program_dir(
            match base {
                Some(b) => Some(b@),
                None => None,
            },
            match home {
                Some(h) => Some(h@),
                None => None,
            },
            fallback@,
        ),
{
    match base {
        Some(b) => Some(join_path(b, "oken")),
        None => match home {
            Some(h) => {
                let under = join_path(h, fallback);
                Some(join_path(under.as_str(), "oken"))
            },
            None => None,
        },
    }
}

/// The directory of the program's settings: `oken` under the base that
/// `XDG_CONFIG_HOME` names, or under `.config` in the home directory.
pub fn config_dir(xdg_config_home: Option<&str>, home: Option<&str>) -> (r: Option<String>)
    ensures
        crate::text::opt_view(r) == program_dir(
            match xdg_config_home {
                Some(b) => Some(b@),
                None => None,
            },
            match home {
                Some(h) => Some(h@),
                None => None,
            },
            ".config"@,
        ),
{
    dir_under(xdg_config_home, home, ".config")
}

/// The directory of the program's data: `oken` under the base that
/// `XDG_DATA_HOME` names, or under `.local/share` in the home directory.
pub fn data_dir(xdg_data_home: Option<&str>, home: Option<&str>) -> (r: Option<String>)
    ensures
        crate::text::opt_view(r) == program_dir(
            match xdg_data_home {
                Some(b) => Some(b@),
                None => None,
            },
            match home {
                Some(h) => Some(h@),
                None => None,
            },
            ".local/share"@,
        ),
{
    dir_under(xdg_data_home, home, ".local/share")
}

} // verus!
