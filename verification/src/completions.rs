//! Installing shell completions: which shell, into which directory, and
//! what to add to the shell's start file.

use vstd::prelude::*;
use vstd::string::StringExecFns;
use crate::text::views;
use crate::text::opt_view;
use crate::text::chars_of;
use crate::text::str_eq;
use crate::search::contains_seq;
use crate::search::contains;
use crate::config_scan::path_join;
use crate::config_scan::join_path;

verus! {

/// A shell that completions can be written for.
#[derive(Debug, Clone, Copy, PartialEq, Eq, Structural)]
pub enum ShellKind {
    Zsh,
    Bash,
    Fish,
    Elvish,
    PowerShell,
}

/// The shell that runs the program `name`; none for a name that is not
/// known.
pub open spec fn shell_named(name: Seq<char>) -> Option<ShellKind> {
    if name == "zsh"@ {
        Some(ShellKind::Zsh)
    } else if name == "bash"@ {
        Some(ShellKind::Bash)
    } else if name == "fish"@ {
        Some(ShellKind::Fish)
    } else if name == "elvish"@ {
        Some(ShellKind::Elvish)
    } else if name == "powershell"@ || name == "pwsh"@ {
        Some(ShellKind::PowerShell)
    } else {
        None
    }
}

/// The shell that runs the program `name`: the file name of the user's
/// shell.
pub fn detect_shell(name: &str) -> (r: Option<ShellKind>)
    ensures
        r == shell_named(name@),
{
    if str_eq(name, "zsh") {
        Some(ShellKind::Zsh)
    } else if str_eq(name, "bash") {
        Some(ShellKind::Bash)
    } else if str_eq(name, "fish") {
        Some(ShellKind::Fish)
    } else if str_eq(name, "elvish") {
        Some(ShellKind::Elvish)
    } else if str_eq(name, "powershell") || str_eq(name, "pwsh") {
        Some(ShellKind::PowerShell)
    } else {
        None
    }
}

/// The name of the file that holds a shell's completions; none for a shell
/// whose completions the user installs by hand.
pub fn completion_file(shell: ShellKind) -> (r: Option<String>)
    ensures
        opt_view(r) == match shell {
            ShellKind::Zsh => Some("_oken"@),
            ShellKind::Bash => Some("oken"@),
            ShellKind::Fish => Some("oken.fish"@),
            _ => None,
        },
{
    match shell {
        ShellKind::Zsh => Some("_oken".to_owned()),
        ShellKind::Bash => Some("oken".to_owned()),
        ShellKind::Fish => Some("oken.fish".to_owned()),
        _ => None,
    }
}

/// What to add to the start file of zsh so that it finds the completions
/// in `dir`: a line that puts `dir` on the function path, and a line that
/// loads the completion system unless the file names it already. Nothing
/// where the file names `dir` already.
pub open spec fn addition_for(content: Seq<char>, dir: Seq<char>) -> Option<Seq<char>> {
    if contains_seq(content, dir) {
        None
    } else {
        let line = "\n# Added by oken completions\nfpath=("@.add(dir).add(" $fpath)\n"@);
        if contains_seq(content, "compinit"@) {
            Some(line)
        } else {
            Some(line.add("autoload -Uz compinit && compinit\n"@))
        }
    }
}

/// What to add to the start file of zsh so that it finds the completions
/// in `dir`.
pub fn zshrc_addition(content: &str, dir: &str) -> (r: Option<String>)
    ensures
        opt_view(r) == addition_for(content@, dir@),
{
    let c = chars_of(content);
    let d = chars_of(dir);
    if contains(c.as_slice(), d.as_slice()) {
        return None;
    }
    let mut line = "\n# Added by oken completions\nfpath=(".to_owned();
    line.append(dir);
    line.append(" $fpath)\n");
    let k = chars_of("compinit");
    if !contains(c.as_slice(), k.as_slice()) {
        line.append("autoload -Uz compinit && compinit\n");
    }
    Some(line)
}

/// The directory in which zsh completions are kept by preference:
/// `.zfunc` in the directory that `ZDOTDIR` names, or in the home directory.
pub open spec fn preferred_dir(zdotdir: Option<Seq<char>>, home: Seq<char>) -> Seq<char> {
    match zdotdir {
        Some(z) => path_join(z, ".zfunc"@),
        None => path_join(home, ".zfunc"@),
    }
}

/// The directories in which zsh completions may be kept, in the order in
/// which to look for one that exists.
pub open spec fn zsh_dirs(zdotdir: Option<Seq<char>>, home: Seq<char>) -> Seq<Seq<char>> {
    (match zdotdir {
        Some(z) => seq![path_join(z, ".zfunc"@)],
        None => Seq::empty(),
    }).push(path_join(home, ".zfunc"@)).push(path_join(home, ".config/zsh/.zfunc"@)).push(
        path_join(home, ".zsh/completions"@),
    )
}

/// The directories in which zsh completions may be kept.
pub fn zsh_dir_candidates(zdotdir: Option<&str>, home: &str) -> (out: Vec<String>)
    ensures
        views(out@) == zsh_dirs(
            match zdotdir {
                Some(z) => Some(z@),
                None => None,
            },
            home@,
        ),
{
    let mut out: Vec<String> = Vec::new();
    if let Some(z) = zdotdir {
        out.push(join_path(z, ".zfunc"));
    }
    out.push(join_path(home, ".zfunc"));
    out.push(join_path(home, ".config/zsh/.zfunc"));
    out.push(join_path(home, ".zsh/completions"));
    assert(views(out@) =~= zsh_dirs(
        match zdotdir {
            Some(z) => Some(z@),
            None => None,
        },
        home@,
    ));
    out
}

/// The directory to make for zsh completions where none exists.
pub fn preferred_zsh_dir(zdotdir: Option<&str>, home: &str) -> (r: String)
    ensures
        r@ == preferred_dir(
            match zdotdir {
                Some(z) => Some(z@),
                None => None,
            },
            home@,
        ),
{
    match zdotdir {
        Some(z) => join_path(z, ".zfunc"),
        None => join_path(home, ".zfunc"),
    }
}

} // verus!
