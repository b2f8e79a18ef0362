//! The audit log: one line for each session, and the log read back.

use vstd::prelude::*;
use vstd::string::StringExecFns;
use crate::text::chars_of;
use crate::text::string_of;
use crate::split::rows;
use crate::split::lines;
use crate::split::split_lines;
use crate::split::split_limited;
use crate::split::split_at_most;
use crate::split::replaced;
use crate::split::replace_char;
use crate::split::without_trailing;
use crate::split::strip_trailing;
use crate::numbers::decimal;
use crate::numbers::signed_decimal;
use crate::numbers::zero_padded;
use crate::numbers::push_decimal;
use crate::numbers::push_padded;
use crate::numbers::push_signed;
use crate::numbers::parse_unsigned;
use crate::numbers::parse_signed;
use crate::numbers::parse_number;
use crate::numbers::parse_i32;
use crate::time_utils::iso8601_of;
use crate::time_utils::unix_to_iso8601;

verus! {

/// A length of time in words: seconds below a minute, minutes and seconds
/// below an hour, hours and minutes from there.
pub open spec fn duration_of(secs: nat) -> Seq<char> {
    if secs < 60 {
        decimal(secs).add("s"@)
    } else if secs < 3600 {
        decimal(secs / 60).add("m "@).add(zero_padded(decimal(secs % 60), 2)).add("s"@)
    } else {
        decimal(secs / 3600).add("h "@).add(zero_padded(decimal((secs % 3600) / 60), 2)).add("m"@)
    }
}

/// A length of time in words.
pub fn format_duration(secs: u64) -> (r: String)
    ensures
        r@ == duration_of(secs as nat),
{
    let mut r = String::new();
    if secs < 60 {
        push_decimal(&mut r, secs);
        r.append("s");
    } else if secs < 3600 {
        push_decimal(&mut r, secs / 60);
        r.append("m ");
        push_padded(&mut r, secs % 60, 2);
        r.append("s");
    } else {
        push_decimal(&mut r, secs / 3600);
        r.append("h ");
        push_padded(&mut r, (secs % 3600) / 60, 2);
        r.append("m");
    }
    assert(r@ =~= duration_of(secs as nat));
    r
}

/// The line that the log keeps of a session: the time it ended, the alias,
/// the target, the seconds it lasted and the client's exit code, with a tab
/// between each two and a line feed at the end.
pub open spec fn log_line(
    alias: Seq<char>,
    target: Seq<char>,
    duration_secs: nat,
    exit_code: int,
    now_secs: nat,
) -> Seq<char> {
    iso8601_of(now_secs).push('\t').add(alias).push('\t').add(target).push('\t').add(
        decimal(duration_secs),
    ).push('\t').add(signed_decimal(exit_code)).push('\n')
}

/// The line to add to the log for a session that ended at `now_secs`
/// seconds after the Unix epoch.
pub fn log_session(alias: &str, target: &str, duration_secs: u64, exit_code: i32, now_secs: u64) -> (r:
    String)
    ensures
        r@ == log_line(
            alias@,
            target@,
            duration_secs as nat,
            exit_code as int,
            now_secs as nat,
        ),
{
    let mut r = unix_to_iso8601(now_secs);
    r.push('\t');
    r.append(alias);
    r.push('\t');
    r.append(target);
    r.push('\t');
    push_decimal(&mut r, duration_secs);
    r.push('\t');
    push_signed(&mut r, exit_code as i64);
    r.push('\n');
    r
}

/// One line of the log as it is shown.
#[derive(Debug, Clone)]
pub struct AuditEntry {
    /// The time, with a space in place of `T` and without `Z`.
    pub time: String,
    pub alias: String,
    pub target: String,
    /// How long the session lasted, in words; `-` where the line does not
    /// say.
    pub duration: String,
    /// The exit code; `-` where the line does not say.
    pub exit_code: String,
}

/// What an `AuditEntry` holds.
pub struct AuditEntryView {
    pub time: Seq<char>,
    pub alias: Seq<char>,
    pub target: Seq<char>,
    pub duration: Seq<char>,
    pub exit_code: Seq<char>,
}

impl View for AuditEntry {
    type V = AuditEntryView;

    open spec fn view(&self) -> AuditEntryView {
        AuditEntryView {
            time: self.time@,
            alias: self.alias@,
            target: self.target@,
            duration: self.duration@,
            exit_code: self.exit_code@,
        }
    }
}

/// The `i`-th of `parts`, or the empty text where there are fewer.
pub open spec fn part(parts: Seq<Seq<char>>, i: int) -> Seq<char> {
    if 0 <= i < parts.len() {
        parts[i]
    } else {
        Seq::empty()
    }
}

/// A line of the log as it is shown. The line's fields are cut at its
/// first four tabs; a field that is missing is empty, and a duration or exit
/// code that is no number shows as `-`.
pub open spec fn entry_of(line: Seq<char>) -> AuditEntryView {
    let parts = split_limited(line, '\t', 5);
    AuditEntryView {
        time: without_trailing(replaced(part(parts, 0), 'T', ' '), 'Z'),
        alias: part(parts, 1),
        target: part(parts, 2),
        duration: match parse_unsigned(part(parts, 3), 0xffff_ffff_ffff_ffff) {
            Some(d) => duration_of(d),
            None => "-"@,
        },
        exit_code: match parse_signed(part(parts, 4), 0x7fff_ffff) {
            Some(c) => signed_decimal(c),
            None => "-"@,
        },
    }
}

/// The `i`-th of `parts`, or the empty text where there are fewer.
fn part_of(parts: &[Vec<char>], i: usize) -> (r: Vec<char>)
    ensures
        r@ == part(rows(parts@), i as int),
{
    if i < parts.len() {
        assert(rows(parts@)[i as int] == parts@[i as int]@);
        crate::split::copy_range(parts[i].as_slice(), 0, parts[i].len())
    } else {
        Vec::new()
    }
}

/// A line of the log as it is shown.
pub fn parse_audit_line(line: &[char]) -> (e: AuditEntry)
    ensures
        e@ == entry_of(line@),
{
    let parts = split_at_most(line, '\t', 5);
    let time = part_of(parts.as_slice(), 0);
    let spaced = replace_char(time.as_slice(), 'T', ' ');
    let shown = strip_trailing(spaced.as_slice(), 'Z');
    let duration = match parse_number(part_of(parts.as_slice(), 3).as_slice(), 0xffff_ffff_ffff_ffff) {
        Some(d) => format_duration(d),
        None => "-".to_owned(),
    };
    let exit_code = match parse_i32(part_of(parts.as_slice(), 4).as_slice()) {
        Some(c) => {
            let mut t = String::new();
            push_signed(&mut t, c as i64);
            assert(t@ =~= signed_decimal(c as int));
            t
        },
        None => "-".to_owned(),
    };
    AuditEntry {
        time: string_of(shown.as_slice()),
        alias: string_of(part_of(parts.as_slice(), 1).as_slice()),
        target: string_of(part_of(parts.as_slice(), 2).as_slice()),
        duration,
        exit_code,
    }
}

/// The last `n` of `lines`, the last one first, each as it is shown.
pub open spec fn recent_of(lines: Seq<Seq<char>>, n: nat) -> Seq<AuditEntryView> {
    let count = if n < lines.len() {
        n
    } else {
        lines.len()
    };
    Seq::new(count, |i: int| entry_of(lines[lines.len() - 1 - i]))
}

/// The views of a list of entries.
pub open spec fn entry_views(entries: Seq<AuditEntry>) -> Seq<AuditEntryView> {
    Seq::new(entries.len(), |i: int| entries[i]@)
}

/// The last `n` sessions that the log holds, the latest first.
pub fn show_recent(content: &str, n: usize) -> (out: Vec<AuditEntry>)
    ensures
        entry_views(out@) == recent_of(lines(content@), n as nat),
{
    let text = chars_of(content);
    let all = split_lines(text.as_slice());
    let total: usize = all.len();
    let count: usize = if n < total {
        n
    } else {
        total
    };
    let mut out: Vec<AuditEntry> = Vec::new();
    let mut i: usize = 0;
    while i < count
        invariant
            i <= count <= total,
            total == all@.len(),
            out@.len() == i,
            forall|k: int|
                0 <= k < i ==> (#[trigger] out@[k])@ == entry_of(rows(all@)[total - 1 - k]),
        decreases count - i,
    {
        assert(rows(all@)[total - 1 - i] == all@[total - 1 - i]@);
        out.push(parse_audit_line(all[total - 1 - i].as_slice()));
        i += 1;
    }
    assert(entry_views(out@) =~= recent_of(lines(content@), n as nat));
    out
}

} // verus!
