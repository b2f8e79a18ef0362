//! Classifying the arguments of the connection client: which flags take a
//! value, and where the target stands among them.

use vstd::prelude::*;
use crate::text::views;
use crate::text::opt_view;
use crate::text::chars_of;
use crate::text::string_of_range;
use crate::search::position;
use crate::search::find_char;
use crate::numbers::parse_unsigned;
use crate::numbers::parse_number;

verus! {

/// Whether `arg` is one of the client's flags that the next argument
/// belongs to, as its value.
pub open spec fn takes_value(arg: Seq<char>) -> bool {
    &&& arg.len() == 2
    &&& arg[0] == '-'
    &&& {
        ||| arg[1] == 'p'
        ||| arg[1] == 'i'
        ||| arg[1] == 'o'
        ||| arg[1] == 'l'
        ||| arg[1] == 'L'
        ||| arg[1] == 'R'
        ||| arg[1] == 'D'
        ||| arg[1] == 'F'
        ||| arg[1] == 'J'
        ||| arg[1] == 'W'
        ||| arg[1] == 'b'
        ||| arg[1] == 'c'
        ||| arg[1] == 'm'
        ||| arg[1] == 'e'
        ||| arg[1] == 'S'
        ||| arg[1] == 'E'
        ||| arg[1] == 'B'
        ||| arg[1] == 'w'
        ||| arg[1] == 'O'
    }
}

/// Whether `arg` begins with a hyphen.
pub open spec fn is_flag(arg: Seq<char>) -> bool {
    arg.len() > 0 && arg[0] == '-'
}

/// The index of the first positional argument at or after `from`: flags are
/// passed over, and so is the value of each flag that takes one. Where
/// there is no positional argument, the number of arguments.
pub open spec fn target_index(args: Seq<Seq<char>>, from: int) -> int
    decreases args.len() - from,
{
    if from < 0 || from >= args.len() {
        args.len() as int
    } else if takes_value(args[from]) {
        if from + 1 < args.len() {
            target_index(args, from + 2)
        } else {
            args.len() as int
        }
    } else if is_flag(args[from]) {
        target_index(args, from + 1)
    } else {
        from
    }
}

/// The first positional argument, as it stands.
pub open spec fn target_full(args: Seq<Seq<char>>) -> Option<Seq<char>> {
    let i = target_index(args, 0);
    if 0 <= i < args.len() {
        Some(args[i])
    } else {
        None
    }
}

/// What follows the first `@` of `target`; all of it where it has none.
pub open spec fn host_part(target: Seq<char>) -> Seq<char> {
    let p = position(target, '@');
    if 0 <= p < target.len() {
        target.skip(p + 1)
    } else {
        target
    }
}

/// The host of the first positional argument.
pub open spec fn target_host(args: Seq<Seq<char>>) -> Option<Seq<char>> {
    match target_full(args) {
        Some(t) => Some(host_part(t)),
        None => None,
    }
}

/// The index of the first argument that is `-` and `letter`; the number of
/// arguments where there is none.
pub open spec fn flag_index(args: Seq<Seq<char>>, letter: char) -> int
    decreases args.len(),
{
    if args.len() == 0 || args[0] == seq!['-', letter] {
        0
    } else {
        1 + flag_index(args.drop_first(), letter)
    }
}

/// The argument after the first `-` and `letter`, if both are there.
pub open spec fn flag_value(args: Seq<Seq<char>>, letter: char) -> Option<Seq<char>> {
    let i = flag_index(args, letter);
    if 0 <= i && i + 1 < args.len() {
        Some(args[i + 1])
    } else {
        None
    }
}

/// The port that the arguments give: the value of the first `-p`, where
/// it is a number that fits sixteen bits.
pub open spec fn port_of(args: Seq<Seq<char>>) -> Option<u16> {
    match flag_value(args, 'p') {
        Some(v) => match parse_unsigned(v, 0xffff) {
            Some(n) => Some(n as u16),
            None => None,
        },
        None => None,
    }
}

/// The flags among the arguments from `from` on, each flag that takes a
/// value with its value; positional arguments are left out.
pub open spec fn flags_from(args: Seq<Seq<char>>, from: int) -> Seq<Seq<char>>
    decreases args.len() - from,
{
    if from < 0 || from >= args.len() {
        Seq::empty()
    } else if takes_value(args[from]) {
        if from + 1 < args.len() {
            seq![args[from], args[from + 1]].add(flags_from(args, from + 2))
        } else {
            seq![args[from]]
        }
    } else if is_flag(args[from]) {
        seq![args[from]].add(flags_from(args, from + 1))
    } else {
        flags_from(args, from + 1)
    }
}

/// Whether `arg` is a flag that takes a value.
pub fn is_value_flag(arg: &[char]) -> (r: bool)
    ensures
        r == takes_value(arg@),
{
    if arg.len() != 2 || arg[0] != '-' {
        return false;
    }
    let c: char = arg[1];
    c == 'p' || c == 'i' || c == 'o' || c == 'l' || c == 'L' || c == 'R' || c == 'D' || c == 'F'
        || c == 'J' || c == 'W' || c == 'b' || c == 'c' || c == 'm' || c == 'e' || c == 'S' || c
        == 'E' || c == 'B' || c == 'w' || c == 'O'
}

/// The index of the first positional argument, or the number of arguments.
pub fn find_target(args: &[String]) -> (r: usize)
    ensures
        r == target_index(views(args@), 0),
        r <= args@.len(),
{
    let n: usize = args.len();
    let mut i: usize = 0;
    while i < n
        invariant
            n == args@.len(),
            i <= n,
            target_index(views(args@), 0) == target_index(views(args@), i as int),
        decreases n - i,
    {
        let arg = chars_of(args[i].as_str());
        assert(views(args@)[i as int] == arg@);
        if is_value_flag(arg.as_slice()) {
            if i + 1 >= n {
                return n;
            }
            i += 2;
        } else if arg.len() > 0 && arg[0] == '-' {
            i += 1;
        } else {
            return i;
        }
    }
    n
}

/// The first positional argument, as it stands: with the user before the
/// host where the argument names one.
pub fn extract_target_host_full(args: &[String]) -> (r: Option<String>)
    ensures
        opt_view(r) == target_full(views(args@)),
{
    let i = find_target(args);
    if i < args.len() {
        assert(views(args@)[i as int] == args@[i as int]@);
        Some(args[i].clone())
    } else {
        None
    }
}

/// The host of the first positional argument: what follows its first `@`,
/// or all of it.
pub fn extract_target_host(args: &[String]) -> (r: Option<String>)
    ensures
        opt_view(r) == target_host(views(args@)),
{
    let i = find_target(args);
    if i < args.len() {
        assert(views(args@)[i as int] == args@[i as int]@);
        let t = chars_of(args[i].as_str());
        let n: usize = t.len();
        assert(t@.subrange(0, n as int) =~= t@);
        let p = find_char(t.as_slice(), 0, n, '@');
        if p < n {
            Some(string_of_range(t.as_slice(), p + 1, n))
        } else {
            Some(args[i].clone())
        }
    } else {
        None
    }
}

/// The index of the first argument that is `-` and `letter`.
pub fn find_flag(args: &[String], letter: char) -> (r: usize)
    ensures
        r == flag_index(views(args@), letter),
        r <= args@.len(),
{
    let n: usize = args.len();
    let mut i: usize = 0;
    assert(views(args@).skip(0) =~= views(args@));
    while i < n
        invariant
            n == args@.len(),
            i <= n,
            flag_index(views(args@), letter) == i + flag_index(views(args@).skip(i as int), letter),
        decreases n - i,
    {
        let arg = chars_of(args[i].as_str());
        let ghost rest = views(args@).skip(i as int);
        assert(rest[0] == arg@);
        if arg.len() == 2 && arg[0] == '-' && arg[1] == letter {
            assert(arg@ =~= seq!['-', letter]);
            return i;
        }
        assert(arg@ != seq!['-', letter]) by {
            if arg@ == seq!['-', letter] {
                assert(arg@.len() == 2 && arg@[0] == '-' && arg@[1] == letter);
            }
        }
        assert(rest.drop_first() =~= views(args@).skip(i + 1));
        i += 1;
    }
    n
}

/// The port that the arguments give.
pub fn extract_port(args: &[String]) -> (r: Option<u16>)
    ensures
        r == port_of(views(args@)),
{
    let i = find_flag(args, 'p');
    if i < args.len() && i + 1 < args.len() {
        assert(views(args@)[i + 1] == args@[i + 1]@);
        let v = chars_of(args[i + 1].as_str());
        match parse_number(v.as_slice(), 0xffff) {
            Some(n) => Some(n as u16),
            None => None,
        }
    } else {
        None
    }
}

/// The identity file that the arguments give: the value of the first `-i`.
pub fn extract_identity_file(args: &[String]) -> (r: Option<String>)
    ensures
        opt_view(r) == flag_value(views(args@), 'i'),
{
    let i = find_flag(args, 'i');
    if i < args.len() && i + 1 < args.len() {
        assert(views(args@)[i + 1] == args@[i + 1]@);
        Some(args[i + 1].clone())
    } else {
        None
    }
}

/// The flags among the arguments, each flag that takes a value with its
/// value; positional arguments are left out.
pub fn extract_ssh_flags(args: &[String]) -> (out: Vec<String>)
    ensures
        views(out@) == flags_from(views(args@), 0),
{
    let n: usize = args.len();
    let ghost a = views(args@);
    let mut out: Vec<String> = Vec::new();
    let mut i: usize = 0;
    assert(views(out@) =~= Seq::<Seq<char>>::empty());
    while i < n
        invariant
            n == args@.len(),
            a == views(args@),
            i <= n,
            views(out@).add(flags_from(a, i as int)) == flags_from(a, 0),
        decreases n - i,
    {
        let ghost before = views(out@);
        let arg = chars_of(args[i].as_str());
        assert(a[i as int] == arg@);
        if is_value_flag(arg.as_slice()) {
            out.push(args[i].clone());
            if i + 1 < n {
                out.push(args[i + 1].clone());
                assert(views(out@) =~= before.add(seq![a[i as int], a[i + 1]]));
                assert(before.add(seq![a[i as int], a[i + 1]]).add(flags_from(a, i + 2)) =~= before.add(
                    flags_from(a, i as int),
                ));
                i += 2;
            } else {
                assert(views(out@) =~= before.add(seq![a[i as int]]));
                assert(flags_from(a, i as int) =~= seq![a[i as int]]);
                i = n;
                assert(views(out@).add(flags_from(a, n as int)) =~= views(out@));
            }
        } else if arg.len() > 0 && arg[0] == '-' {
            out.push(args[i].clone());
            assert(views(out@) =~= before.add(seq![a[i as int]]));
            assert(before.add(seq![a[i as int]]).add(flags_from(a, i + 1)) =~= before.add(
                flags_from(a, i as int),
            ));
            i += 1;
        } else {
            i += 1;
        }
    }
    assert(views(out@).add(flags_from(a, n as int)) =~= views(out@));
    out
}

/// What a list of arguments says of the connection it asks for.
#[derive(Debug, Clone)]
pub struct ResolvedArguments {
    /// The first positional argument, as it stands.
    pub target: Option<String>,
    /// The host of the first positional argument.
    pub host_only: Option<String>,
    /// The value of the first `-p`, where it is a port number.
    pub port: Option<u16>,
    /// The value of the first `-i`.
    pub identity_file: Option<String>,
}

/// Reads target, host, port and identity file off a list of arguments.
pub fn resolve_arguments(args: &[String]) -> (r: ResolvedArguments)
    ensures
        opt_view(r.target) == target_full(views(args@)),
        opt_view(r.host_only) == target_host(views(args@)),
        r.port == port_of(views(args@)),
        opt_view(r.identity_file) == flag_value(views(args@), 'i'),
{
    ResolvedArguments {
        target: extract_target_host_full(args),
        host_only: extract_target_host(args),
        port: extract_port(args),
        identity_file: extract_identity_file(args),
    }
}

} // verus!
