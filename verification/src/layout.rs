//! Tables of text: cells padded to the width of their column.

use vstd::prelude::*;
use vstd::string::StringExecFns;
use vstd::string::StringSliceAdditionalSpecFns;
use crate::text::views;
use crate::split::join;
use crate::split::join_strings;
use crate::numbers::decimal;
use crate::numbers::push_decimal;
use crate::order::lex_lt;
use crate::order::lex_less;
use crate::order::lemma_lex_asymmetric;
use crate::order::lemma_lex_not_after;
use crate::order::Ranked;
use crate::order::stably_sorted;
use crate::order::sort;
use crate::text::chars_of;
use crate::hosts::Host;
use crate::hosts::HostView;
use crate::hosts::HostSource;
use crate::tunnels::TunnelEntry;
use crate::audit::AuditEntry;

verus! {

/// `n` spaces.
pub open spec fn spaces(n: nat) -> Seq<char> {
    Seq::new(n, |i: int| ' ')
}

/// `s` with spaces put after it until it has `width` characters.
pub open spec fn padded(s: Seq<char>, width: nat) -> Seq<char> {
    if s.len() >= width {
        s
    } else {
        s.add(spaces((width - s.len()) as nat))
    }
}

/// `s` with spaces put before it until it has `width` characters.
pub open spec fn padded_left(s: Seq<char>, width: nat) -> Seq<char> {
    if s.len() >= width {
        s
    } else {
        spaces((width - s.len()) as nat).add(s)
    }
}

/// Appends `n` spaces to `out`.
pub fn push_spaces(out: &mut String, n: usize)
    ensures
        final(out)@ == old(out)@.add(spaces(n as nat)),
{
    let mut k: usize = 0;
    assert(out@ =~= old(out)@.add(spaces(0)));
    while k < n
        invariant
            k <= n,
            out@ == old(out)@.add(spaces(k as nat)),
        decreases n - k,
    {
        out.push(' ');
        k += 1;
        assert(out@ =~= old(out)@.add(spaces(k as nat)));
    }
}

/// Appends `s` to `out`, and spaces after it until `width` characters are
/// added.
pub fn push_padded_text(out: &mut String, s: &str, width: usize)
    ensures
        final(out)@ == old(out)@.add(padded(s@, width as nat)),
{
    let len: usize = s.unicode_len();
    out.append(s);
    if len < width {
        push_spaces(out, width - len);
        assert(out@ =~= old(out)@.add(padded(s@, width as nat)));
    }
}

/// Appends spaces to `out` until they and `s` make `width` characters, and
/// then `s`.
pub fn push_padded_left(out: &mut String, s: &str, width: usize)
    ensures
        final(out)@ == old(out)@.add(padded_left(s@, width as nat)),
{
    let len: usize = s.unicode_len();
    if len < width {
        push_spaces(out, width - len);
    }
    out.append(s);
    assert(out@ =~= old(out)@.add(padded_left(s@, width as nat)));
}

/// How a column of a table is laid out.
#[derive(Debug, Clone, Copy, PartialEq, Eq, Structural)]
pub struct Column {
    /// The least number of characters of a cell.
    pub width: usize,
    /// Whether the text stands at the right of its cell.
    pub right: bool,
}

/// The text of a cell in a column.
pub open spec fn cell_text(s: Seq<char>, column: Column) -> Seq<char> {
    if column.right {
        padded_left(s, column.width as nat)
    } else {
        padded(s, column.width as nat)
    }
}

/// The cells of a row as they are shown: each in the layout of its column,
/// and those past the last column as they are.
pub open spec fn shown_cells(cells: Seq<Seq<char>>, columns: Seq<Column>) -> Seq<Seq<char>> {
    Seq::new(
        cells.len(),
        |i: int|
            if i < columns.len() {
                cell_text(cells[i], columns[i])
            } else {
                cells[i]
            },
    )
}

/// A row of a table: its cells as they are shown, with two spaces between
/// each two.
pub open spec fn row_text(cells: Seq<Seq<char>>, columns: Seq<Column>) -> Seq<char> {
    join(shown_cells(cells, columns), "  "@)
}

/// A row of a table.
pub fn format_row(cells: &[String], columns: &[Column]) -> (r: String)
    ensures
        r@ == row_text(views(cells@), columns@),
{
    let mut shown: Vec<String> = Vec::new();
    let mut i: usize = 0;
    while i < cells.len()
        invariant
            i <= cells@.len(),
            shown@.len() == i,
            forall|k: int|
                0 <= k < i ==> (#[trigger] shown@[k])@ == shown_cells(views(cells@), columns@)[k],
        decreases cells@.len() - i,
    {
        let mut cell = String::new();
        assert(views(cells@)[i as int] == cells@[i as int]@);
        if i < columns.len() {
            if columns[i].right {
                push_padded_left(&mut cell, cells[i].as_str(), columns[i].width);
            } else {
                push_padded_text(&mut cell, cells[i].as_str(), columns[i].width);
            }
            assert(cell@ =~= cell_text(cells@[i as int]@, columns@[i as int]));
        } else {
            cell.append(cells[i].as_str());
            assert(cell@ =~= cells@[i as int]@);
        }
        shown.push(cell);
        i += 1;
    }
    assert(views(shown@) =~= shown_cells(views(cells@), columns@));
    join_strings(shown.as_slice(), "  ")
}

/// The number of bytes that a text takes in UTF-8, as far as it fits the
/// machine's word.
pub open spec fn byte_width(s: Seq<char>) -> usize {
    vstd::utf8::encode_utf8(s).len() as usize
}

/// The width of a column that holds `texts`: the greatest number of bytes
/// of a text, and at least `least`.
pub open spec fn widest(texts: Seq<Seq<char>>, least: usize) -> usize
    decreases texts.len(),
{
    if texts.len() == 0 {
        least
    } else {
        let rest = widest(texts.drop_last(), least);
        if byte_width(texts.last()) > rest {
            byte_width(texts.last())
        } else {
            rest
        }
    }
}

/// The width of a column that holds `texts`.
pub fn column_width(texts: &[String], least: usize) -> (w: usize)
    ensures
        w == widest(views(texts@), least),
{
    let ghost t = views(texts@);
    let mut w: usize = least;
    let mut i: usize = 0;
    assert(t.take(0) =~= Seq::<Seq<char>>::empty());
    while i < texts.len()
        invariant
            i <= texts@.len(),
            t == views(texts@),
            w == widest(t.take(i as int), least),
        decreases texts@.len() - i,
    {
        assert(t.take(i + 1).drop_last() =~= t.take(i as int));
        assert(t.take(i + 1).last() == texts@[i as int]@);
        let n: usize = texts[i].as_str().len();
        if n > w {
            w = n;
        }
        i += 1;
    }
    assert(t.take(texts@.len() as int) =~= t);
    w
}

/// The target of a host as the tables show it: user and host name, the
/// host name alone, or nothing where the host name is not known.
pub open spec fn shown_target(h: HostView) -> Seq<char> {
    match h.hostname {
        Some(hn) => match h.user {
            Some(u) => u.add("@"@).add(hn),
            None => hn,
        },
        None => Seq::empty(),
    }
}

/// The target of a host as the tables show it.
pub fn target_label(h: &Host) -> (r: String)
    ensures
        r@ == shown_target(h@),
{
    match &h.hostname {
        Some(hn) => match &h.user {
            Some(u) => {
                let mut t = u.clone();
                t.append("@");
                t.append(hn.as_str());
                t
            },
            None => hn.clone(),
        },
        None => String::new(),
    }
}

/// The cells of a host's row in the listing: alias, target, port, tags and
/// source. A missing port and missing tags show as `-`; the source is named
/// for the hosts of the configuration file only.
pub open spec fn host_cells(h: HostView) -> Seq<Seq<char>> {
    seq![
        h.alias,
        shown_target(h),
        match h.port {
            Some(p) => decimal(p as nat),
            None => "-"@,
        },
        if h.tags.len() == 0 {
            "-"@
        } else {
            join(h.tags, ", "@)
        },
        if h.source == HostSource::SshConfig {
            "\x1b[2mssh config\x1b[0m"@
        } else {
            Seq::empty()
        },
    ]
}

/// The cells of a host's row in the listing.
pub fn host_row(h: &Host) -> (cells: Vec<String>)
    ensures
        views(cells@) == host_cells(h@),
{
    let mut cells: Vec<String> = Vec::new();
    cells.push(h.alias.clone());
    cells.push(target_label(h));
    match h.port {
        Some(p) => {
            let mut t = String::new();
            push_decimal(&mut t, p as u64);
            assert(t@ =~= decimal(p as nat));
            cells.push(t);
        },
        None => {
            cells.push("-".to_owned());
        },
    }
    if h.tags.len() == 0 {
        cells.push("-".to_owned());
    } else {
        cells.push(join_strings(h.tags.as_slice(), ", "));
    }
    if h.source == HostSource::SshConfig {
        cells.push("\x1b[2mssh config\x1b[0m".to_owned());
    } else {
        cells.push(String::new());
    }
    assert(views(cells@) =~= host_cells(h@));
    cells
}

/// The columns of the listing of hosts, for these aliases and targets: the
/// first two as wide as their widest text, and at least 4 and 6, then the
/// port at the right of 5 characters and the tags in 16.
pub open spec fn host_columns(aliases: Seq<Seq<char>>, targets: Seq<Seq<char>>) -> Seq<Column> {
    seq![
        Column { width: widest(aliases, 4), right: false },
        Column { width: widest(targets, 6), right: false },
        Column { width: 5, right: true },
        Column { width: 16, right: false },
    ]
}

/// The columns of the listing of these hosts.
pub fn host_table_columns(hosts: &[Host]) -> (columns: Vec<Column>)
    ensures
        columns@ == host_columns(
            Seq::new(hosts@.len(), |i: int| hosts@[i]@.alias),
            Seq::new(hosts@.len(), |i: int| shown_target(hosts@[i]@)),
        ),
{
    let mut aliases: Vec<String> = Vec::new();
    let mut targets: Vec<String> = Vec::new();
    let mut i: usize = 0;
    while i < hosts.len()
        invariant
            i <= hosts@.len(),
            aliases@.len() == i,
            targets@.len() == i,
            forall|k: int| 0 <= k < i ==> (#[trigger] aliases@[k])@ == hosts@[k]@.alias,
            forall|k: int| 0 <= k < i ==> (#[trigger] targets@[k])@ == shown_target(hosts@[k]@),
        decreases hosts@.len() - i,
    {
        aliases.push(hosts[i].alias.clone());
        targets.push(target_label(&hosts[i]));
        i += 1;
    }
    assert(views(aliases@) =~= Seq::new(hosts@.len(), |i: int| hosts@[i]@.alias));
    assert(views(targets@) =~= Seq::new(hosts@.len(), |i: int| shown_target(hosts@[i]@)));
    let mut columns: Vec<Column> = Vec::new();
    columns.push(Column { width: column_width(aliases.as_slice(), 4), right: false });
    columns.push(Column { width: column_width(targets.as_slice(), 6), right: false });
    columns.push(Column { width: 5, right: true });
    columns.push(Column { width: 16, right: false });
    assert(columns@ =~= host_columns(views(aliases@), views(targets@)));
    columns
}

/// Whether the tunnel `a` is listed before `b`: by name.
pub open spec fn named_before(a: (String, TunnelEntry), b: (String, TunnelEntry)) -> bool {
    lex_lt(a.0@, b.0@)
}

impl Ranked for (String, TunnelEntry) {
    open spec fn ranks_before(&self, other: &Self) -> bool {
        named_before(*self, *other)
    }

    fn is_before(&self, other: &Self) -> (r: bool) {
        let a = chars_of(self.0.as_str());
        let b = chars_of(other.0.as_str());
        lex_less(a.as_slice(), b.as_slice())
    }

    proof fn lemma_asymmetric(a: &Self, b: &Self) {
        lemma_lex_asymmetric(a.0@, b.0@);
    }

    proof fn lemma_not_after(a: &Self, b: &Self, c: &Self) {
        lemma_lex_not_after(a.0@, b.0@, c.0@);
    }
}

/// The tunnels in the order of their listing: by name.
pub fn sort_tunnels(entries: Vec<(String, TunnelEntry)>) -> (out: Vec<(String, TunnelEntry)>)
    ensures
        stably_sorted(out@, entries@),
        out@.to_multiset() == entries@.to_multiset(),
{
    sort(entries)
}

/// The cells of a tunnel's row in the listing: name, target, whether it
/// runs, and its flags with a space between each two.
pub open spec fn tunnel_cells(name: Seq<char>, host: Seq<char>, flags: Seq<Seq<char>>, running: bool) -> Seq<
    Seq<char>,
> {
    seq![
        name,
        host,
        if running {
            "running"@
        } else {
            "stopped"@
        },
        join(flags, " "@),
    ]
}

/// The cells of a tunnel's row in the listing.
pub fn tunnel_row(name: &str, entry: &TunnelEntry, running: bool) -> (cells: Vec<String>)
    ensures
        views(cells@) == tunnel_cells(name@, entry@.host, entry@.ssh_flags, running),
{
    let mut cells: Vec<String> = Vec::new();
    cells.push(name.to_owned());
    cells.push(entry.host.clone());
    if running {
        cells.push("running".to_owned());
    } else {
        cells.push("stopped".to_owned());
    }
    cells.push(join_strings(entry.ssh_flags.as_slice(), " "));
    assert(views(cells@) =~= tunnel_cells(name@, entry@.host, entry@.ssh_flags, running));
    cells
}

/// The columns of the listing of tunnels, for these names and targets: both
/// as wide as their widest text and at least 4, then the state at the right
/// of 7 characters.
pub open spec fn tunnel_columns(names: Seq<Seq<char>>, hosts: Seq<Seq<char>>) -> Seq<Column> {
    seq![
        Column { width: widest(names, 4), right: false },
        Column { width: widest(hosts, 4), right: false },
        Column { width: 7, right: true },
    ]
}

/// The columns of the listing of these tunnels.
pub fn tunnel_table_columns(entries: &[(String, TunnelEntry)]) -> (columns: Vec<Column>)
    ensures
        columns@ == tunnel_columns(
            Seq::new(entries@.len(), |i: int| entries@[i].0@),
            Seq::new(entries@.len(), |i: int| entries@[i].1@.host),
        ),
{
    let mut names: Vec<String> = Vec::new();
    let mut hosts: Vec<String> = Vec::new();
    let mut i: usize = 0;
    while i < entries.len()
        invariant
            i <= entries@.len(),
            names@.len() == i,
            hosts@.len() == i,
            forall|k: int| 0 <= k < i ==> (#[trigger] names@[k])@ == entries@[k].0@,
            forall|k: int| 0 <= k < i ==> (#[trigger] hosts@[k])@ == entries@[k].1@.host,
        decreases entries@.len() - i,
    {
        names.push(entries[i].0.clone());
        hosts.push(entries[i].1.host.clone());
        i += 1;
    }
    assert(views(names@) =~= Seq::new(entries@.len(), |i: int| entries@[i].0@));
    assert(views(hosts@) =~= Seq::new(entries@.len(), |i: int| entries@[i].1@.host));
    let mut columns: Vec<Column> = Vec::new();
    columns.push(Column { width: column_width(names.as_slice(), 4), right: false });
    columns.push(Column { width: column_width(hosts.as_slice(), 4), right: false });
    columns.push(Column { width: 7, right: true });
    assert(columns@ =~= tunnel_columns(views(names@), views(hosts@)));
    columns
}

/// The columns of the listing of sessions, for these aliases and targets:
/// the time in 19 characters, alias and target as wide as their widest text
/// and at least 5 and 6, then the duration at the right of 8 characters.
pub open spec fn audit_columns(aliases: Seq<Seq<char>>, targets: Seq<Seq<char>>) -> Seq<Column> {
    seq![
        Column { width: 19, right: false },
        Column { width: widest(aliases, 5), right: false },
        Column { width: widest(targets, 6), right: false },
        Column { width: 8, right: true },
    ]
}

/// The columns of the listing of these sessions.
pub fn audit_table_columns(entries: &[AuditEntry]) -> (columns: Vec<Column>)
    ensures
        columns@ == audit_columns(
            Seq::new(entries@.len(), |i: int| entries@[i]@.alias),
            Seq::new(entries@.len(), |i: int| entries@[i]@.target),
        ),
{
    let mut aliases: Vec<String> = Vec::new();
    let mut targets: Vec<String> = Vec::new();
    let mut i: usize = 0;
    while i < entries.len()
        invariant
            i <= entries@.len(),
            aliases@.len() == i,
            targets@.len() == i,
            forall|k: int| 0 <= k < i ==> (#[trigger] aliases@[k])@ == entries@[k]@.alias,
            forall|k: int| 0 <= k < i ==> (#[trigger] targets@[k])@ == entries@[k]@.target,
        decreases entries@.len() - i,
    {
        aliases.push(entries[i].alias.clone());
        targets.push(entries[i].target.clone());
        i += 1;
    }
    assert(views(aliases@) =~= Seq::new(entries@.len(), |i: int| entries@[i]@.alias));
    assert(views(targets@) =~= Seq::new(entries@.len(), |i: int| entries@[i]@.target));
    let mut columns: Vec<Column> = Vec::new();
    columns.push(Column { width: 19, right: false });
    columns.push(Column { width: column_width(aliases.as_slice(), 5), right: false });
    columns.push(Column { width: column_width(targets.as_slice(), 6), right: false });
    columns.push(Column { width: 8, right: true });
    assert(columns@ =~= audit_columns(views(aliases@), views(targets@)));
    columns
}

/// The cells of a session's row in the listing.
pub fn audit_row(e: &AuditEntry) -> (cells: Vec<String>)
    ensures
        views(cells@) == seq![e@.time, e@.alias, e@.target, e@.duration, e@.exit_code],
{
    let mut cells: Vec<String> = Vec::new();
    cells.push(e.time.clone());
    cells.push(e.alias.clone());
    cells.push(e.target.clone());
    cells.push(e.duration.clone());
    cells.push(e.exit_code.clone());
    assert(views(cells@) =~= seq![e@.time, e@.alias, e@.target, e@.duration, e@.exit_code]);
    cells
}

} // verus!
