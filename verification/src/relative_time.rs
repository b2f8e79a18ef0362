//! How long ago a time was, in words.

use vstd::prelude::*;
use vstd::string::StringExecFns;
use crate::text::chars_of;
use crate::split::rows;
use crate::split::split_on;
use crate::split::split_at_char;
use crate::split::without_trailing;
use crate::split::strip_trailing;
use crate::numbers::decimal;
use crate::numbers::parse_unsigned;
use crate::numbers::parse_number;
use crate::numbers::push_decimal;
use crate::time_utils::days_of_date;
use crate::time_utils::epoch_days;

verus! {

/// The numbers among `parts`, in order: a part that is not a number of 32
/// bits counts for nothing.
pub open spec fn numbers_of(parts: Seq<Seq<char>>) -> Seq<u32>
    decreases parts.len(),
{
    if parts.len() == 0 {
        Seq::empty()
    } else {
        match parse_unsigned(parts.last(), 0xffff_ffff) {
            Some(n) => numbers_of(parts.drop_last()).push(n as u32),
            None => numbers_of(parts.drop_last()),
        }
    }
}

/// The numbers among `parts`, in order.
pub fn parse_numbers(parts: &[Vec<char>]) -> (out: Vec<u32>)
    ensures
        out@ == numbers_of(rows(parts@)),
{
    let ghost p = rows(parts@);
    let mut out: Vec<u32> = Vec::new();
    let mut i: usize = 0;
    assert(p.take(0) =~= Seq::<Seq<char>>::empty());
    while i < parts.len()
        invariant
            i <= parts@.len(),
            p == rows(parts@),
            out@ == numbers_of(p.take(i as int)),
        decreases parts@.len() - i,
    {
        assert(p.take(i + 1).drop_last() =~= p.take(i as int));
        assert(p.take(i + 1).last() == parts@[i as int]@);
        match parse_number(parts[i].as_slice(), 0xffff_ffff) {
            Some(n) => {
                out.push(n as u32);
            },
            None => {},
        }
        i += 1;
    }
    assert(p.take(parts@.len() as int) =~= p);
    out
}

/// The seconds from the Unix epoch to the time that `iso` writes in the
/// form `2026-02-27T10:30:00Z`: a date of three numbers with `-` between
/// them, `T`, and a time of day of two numbers or more with `:` between
/// them, of which the third counts as seconds; `Z` at the end is passed
/// over. None where `iso` is not of that form.
pub open spec fn timestamp_of(iso: Seq<char>) -> Option<int> {
    let parts = split_on(iso, 'T');
    if parts.len() != 2 {
        None
    } else {
        let date = numbers_of(split_on(parts[0], '-'));
        let time = numbers_of(split_on(without_trailing(parts[1], 'Z'), ':'));
        if date.len() != 3 || time.len() < 2 {
            None
        } else {
            Some(
                days_of_date(date[0] as int, date[1] as int, date[2] as int) * 86400 + time[0]
                    * 3600 + time[1] * 60 + if time.len() > 2 {
                    time[2] as int
                } else {
                    0
                },
            )
        }
    }
}

/// An age of `diff` seconds in words: in minutes below an hour, in hours
/// below a day, in days below a week, in weeks below five of them, and in
/// months of thirty days from there; `just now` below a minute.
pub open spec fn age_of(diff: int) -> Seq<char> {
    if diff < 60 {
        "just now"@
    } else if diff / 60 < 60 {
        decimal((diff / 60) as nat).add("m ago"@)
    } else if diff / 3600 < 24 {
        decimal((diff / 3600) as nat).add("h ago"@)
    } else if diff / 86400 < 7 {
        decimal((diff / 86400) as nat).add("d ago"@)
    } else if (diff / 86400) / 7 < 5 {
        decimal(((diff / 86400) / 7) as nat).add("w ago"@)
    } else {
        decimal(((diff / 86400) / 30) as nat).add("mo ago"@)
    }
}

/// How long before `now` the time `iso` was, in words; `iso` itself where
/// it does not write a time.
pub open spec fn relative_time(iso: Seq<char>, now: int) -> Seq<char> {
    match timestamp_of(iso) {
        Some(ts) => age_of(now - ts),
        None => iso,
    }
}

/// The seconds from the Unix epoch to the time that `iso` writes.
pub fn parse_timestamp(iso: &str) -> (r: Option<i64>)
    ensures
        match r {
            Some(ts) => timestamp_of(iso@) == Some(ts as int),
            None => timestamp_of(iso@) is None,
        },
{
    let v = chars_of(iso);
    let parts = split_at_char(v.as_slice(), 'T');
    if parts.len() != 2 {
        return None;
    }
    assert(rows(parts@)[0] == parts@[0]@ && rows(parts@)[1] == parts@[1]@);
    let date_parts = split_at_char(parts[0].as_slice(), '-');
    let date = parse_numbers(date_parts.as_slice());
    let time_text = strip_trailing(parts[1].as_slice(), 'Z');
    let time_parts = split_at_char(time_text.as_slice(), ':');
    let time = parse_numbers(time_parts.as_slice());
    if date.len() != 3 || time.len() < 2 {
        return None;
    }
    let days: i64 = epoch_days(date[0], date[1], date[2]);
    proof {
        lemma_days_bound(date[0] as int, date[1] as int, date[2] as int);
    }
    let secs: i64 = if time.len() > 2 {
        time[2] as i64
    } else {
        0
    };
    Some(days * 86400 + (time[0] as i64) * 3600 + (time[1] as i64) * 60 + secs)
}

/// The day number of a date whose parts fit 32 bits fits well inside 64.
pub proof fn lemma_days_bound(year: int, month: int, day: int)
    requires
        0 <= year <= 0xffff_ffff,
        0 <= month <= 0xffff_ffff,
        0 <= day <= 0xffff_ffff,
    ensures
        -3_000_000 <= days_of_date(year, month, day) <= 2_000_000_000_000,
{
}

/// An age of `diff` seconds in words.
pub fn age_text(diff: i128) -> (r: String)
    requires
        diff <= 0xffff_ffff_ffff_ffff,
    ensures
        r@ == age_of(diff as int),
{
    if diff < 60 {
        return "just now".to_owned();
    }
    let minutes: u64 = (diff / 60) as u64;
    let hours: u64 = (diff / 3600) as u64;
    let days: u64 = (diff / 86400) as u64;
    let weeks: u64 = days / 7;
    let months: u64 = days / 30;
    let mut r = String::new();
    if minutes < 60 {
        push_decimal(&mut r, minutes);
        r.append("m ago");
    } else if hours < 24 {
        push_decimal(&mut r, hours);
        r.append("h ago");
    } else if days < 7 {
        push_decimal(&mut r, days);
        r.append("d ago");
    } else if weeks < 5 {
        push_decimal(&mut r, weeks);
        r.append("w ago");
    } else {
        push_decimal(&mut r, months);
        r.append("mo ago");
    }
    assert(r@ =~= age_of(diff as int));
    r
}

/// How long before `now`, in seconds from the Unix epoch, the time `iso`
/// was, in words; `iso` itself where it does not write a time.
pub fn format_relative_time(iso: &str, now: i64) -> (r: String)
    ensures
        r@ == relative_time(iso@, now as int),
{
    match parse_timestamp(iso) {
        Some(ts) => age_text(now as i128 - ts as i128),
        None => iso.to_owned(),
    }
}

} // verus!
