//! Calendar arithmetic: days since the Unix epoch to dates of the Gregorian
//! calendar and back, and times as text.

use vstd::prelude::*;
use crate::numbers::decimal;
use crate::numbers::zero_padded;
use crate::numbers::push_padded;

verus! {

/// The day number of a date, counted from 1 January 1970, which is day 0.
/// The date is taken as one of the Gregorian calendar; a month or a day past
/// the calendar's range counts on into the following months.
pub open spec fn days_of_date(year: int, month: int, day: int) -> int {
    let a = if month <= 14 {
        (14 - month) / 12
    } else {
        -((month - 14) / 12)
    };
    let y2 = year + 4800 - a;
    let m2 = month + 12 * a - 3;
    day + (153 * m2 + 2) / 5 + 365 * y2 + y2 / 4 - y2 / 100 + y2 / 400 - 32045 - 2440588
}

/// The day number of a date, counted from 1 January 1970.
pub fn epoch_days(year: u32, month: u32, day: u32) -> (r: i64)
    ensures
        r == days_of_date(year as int, month as int, day as int),
{
    let y: i64 = year as i64;
    let m: i64 = month as i64;
    let d: i64 = day as i64;
    let a: i64 = if m <= 14 {
        (14 - m) / 12
    } else {
        -((m - 14) / 12)
    };
    let y2: i64 = y + 4800 - a;
    let m2: i64 = m + 12 * a - 3;
    let jdn: i64 = d + (153 * m2 + 2) / 5 + 365 * y2 + y2 / 4 - y2 / 100 + y2 / 400 - 32045;
    jdn - 2440588
}

/// The year, counted from 1 March, the day of that year, and the month,
/// counted from March, of the day `z`, counted from 1 March of the year 0.
pub open spec fn shifted_date(z: int) -> (int, int, int) {
    let era = z / 146097;
    let doe = z - era * 146097;
    let yoe = (doe - doe / 1460 + doe / 36524 - doe / 146096) / 365;
    let doy = doe - (365 * yoe + yoe / 4 - yoe / 100);
    let mp = (5 * doy + 2) / 153;
    (yoe + era * 400, doy, mp)
}

/// The date of the Gregorian calendar on day `days` after 1 January 1970:
/// year, month from 1 to 12, day of the month from 1.
pub open spec fn date_of_days(days: int) -> (int, int, int) {
    let (y, doy, mp) = shifted_date(days + 719468);
    let d = doy - (153 * mp + 2) / 5 + 1;
    let m = if mp < 10 {
        mp + 3
    } else {
        mp - 9
    };
    (
        if m <= 2 {
            y + 1
        } else {
            y
        },
        m,
        d,
    )
}

/// The month of a date lies between 1 and 12, its day between 1 and 31.
pub proof fn lemma_date_in_range(days: int)
    ensures
        1 <= date_of_days(days).1 <= 12,
        1 <= date_of_days(days).2 <= 31,
{
    let z = days + 719468;
    let era = z / 146097;
    let doe = z - era * 146097;
    assert(0 <= doe <= 146096);
    let yoe = (doe - doe / 1460 + doe / 36524 - doe / 146096) / 365;
    assert(0 <= yoe <= 399);
    let doy = doe - (365 * yoe + yoe / 4 - yoe / 100);
    assert(0 <= doy <= 365);
    let mp = (5 * doy + 2) / 153;
    assert(0 <= mp <= 11);
}

/// Day number and date are two names for one day: the date of a day number
/// has that day number.
pub proof fn lemma_date_round_trip(days: int)
    ensures
        ({
            let (y, m, d) = date_of_days(days);
            days_of_date(y, m, d) == days
        }),
{
    let z = days + 719468;
    let era = z / 146097;
    let doe = z - era * 146097;
    assert(0 <= doe <= 146096);
    let yoe = (doe - doe / 1460 + doe / 36524 - doe / 146096) / 365;
    assert(0 <= yoe <= 399);
    let doy = doe - (365 * yoe + yoe / 4 - yoe / 100);
    assert(0 <= doy <= 365);
    let mp = (5 * doy + 2) / 153;
    assert(0 <= mp <= 11);
    let (y, m, d) = date_of_days(days);
    let a = if m <= 14 {
        (14 - m) / 12
    } else {
        -((m - 14) / 12)
    };
    assert(a == if m <= 2 { 1int } else { 0int });
    let y2 = y + 4800 - a;
    let m2 = m + 12 * a - 3;
    assert(m2 == mp);
    let k = era + 12;
    assert(y2 == yoe + 400 * k);
    assert(y2 / 4 == yoe / 4 + 100 * k);
    assert(y2 / 100 == yoe / 100 + 4 * k);
    assert(y2 / 400 == k);
}

/// The number of the 400-year cycle in which the day `z` lies, and the day
/// within the cycle. Days count from 1 March of the year 0.
fn cycle_of(z: i64) -> (r: (i64, i64))
    requires
        z >= i64::MIN + 146097,
    ensures
        r.0 == (z as int) / 146097,
        r.1 == z - r.0 * 146097,
        0 <= r.1 <= 146096,
{
    let era: i64 = if z >= 0 {
        z / 146097
    } else {
        -((-(z + 1)) / 146097) - 1
    };
    (era, z - era * 146097)
}

/// The year that the formula gives for a day of a cycle begins on or before
/// that day, and no more than 365 days before it.
proof fn lemma_year_of_cycle(doe: u32)
    requires
        doe <= 146096,
    ensures
        ({
            let yoe = (doe - doe / 1460 + doe / 36524 - doe / 146096) / 365;
            &&& 0 <= yoe <= 399
            &&& 0 <= doe - (365 * yoe + yoe / 4 - yoe / 100) <= 365
        }),
{
    assert(doe <= 146096 ==> {
        let yoe = (doe - doe / 1460 + doe / 36524 - doe / 146096) / 365;
        &&& yoe <= 399
        &&& 365 * yoe + yoe / 4 - yoe / 100 <= doe
        &&& doe - (365 * yoe + yoe / 4 - yoe / 100) <= 365
    }) by (bit_vector);
}

/// The year within the cycle, and the day within that year, of the day
/// `doe` of a cycle.
fn year_of_cycle(doe: i64) -> (r: (i64, i64))
    requires
        0 <= doe <= 146096,
    ensures
        r.0 == (doe - doe / 1460 + doe / 36524 - doe / 146096) / 365,
        r.1 == doe - (365 * r.0 + r.0 / 4 - r.0 / 100),
        0 <= r.0 <= 399,
        0 <= r.1 <= 365,
{
    proof {
        lemma_year_of_cycle(doe as u32);
    }
    let yoe: i64 = (doe - doe / 1460 + doe / 36524 - doe / 146096) / 365;
    (yoe, doe - (365 * yoe + yoe / 4 - yoe / 100))
}

/// The date on day `z` after 1 January 1970, with the year as wide as the
/// day number.
pub fn civil_from_days_wide(z: i64) -> (r: (i64, u32, u32))
    requires
        z <= i64::MAX - 719468,
    ensures
        r.0 == date_of_days(z as int).0,
        r.1 == date_of_days(z as int).1,
        r.2 == date_of_days(z as int).2,
        1 <= r.1 <= 12,
        1 <= r.2 <= 31,
{
    let (era, doe) = cycle_of(z + 719468);
    let (yoe, doy) = year_of_cycle(doe);
    let y: i64 = yoe + era * 400;
    let mp: i64 = (5 * doy + 2) / 153;
    let d: i64 = doy - (153 * mp + 2) / 5 + 1;
    let m: i64 = if mp < 10 {
        mp + 3
    } else {
        mp - 9
    };
    let y: i64 = if m <= 2 {
        y + 1
    } else {
        y
    };
    (y, m as u32, d as u32)
}

/// The date on day `z` after 1 January 1970.
pub fn civil_from_days(z: i64) -> (r: (i32, u32, u32))
    requires
        z <= i64::MAX - 719468,
        i32::MIN <= date_of_days(z as int).0 <= i32::MAX,
    ensures
        r.0 == date_of_days(z as int).0,
        r.1 == date_of_days(z as int).1,
        r.2 == date_of_days(z as int).2,
        1 <= r.1 <= 12,
        1 <= r.2 <= 31,
{
    let (y, m, d) = civil_from_days_wide(z);
    (y as i32, m, d)
}

/// The time `secs` seconds after the Unix epoch, as text: date, `T`, time
/// of day and `Z`, the year with four digits or more, the other numbers
/// with two.
pub open spec fn iso8601_of(secs: nat) -> Seq<char> {
    let days = (secs / 86400) as int;
    let tod = secs % 86400;
    let (y, mo, d) = date_of_days(days);
    zero_padded(decimal(y as nat), 4).push('-').add(zero_padded(decimal(mo as nat), 2)).push(
        '-',
    ).add(zero_padded(decimal(d as nat), 2)).push('T').add(
        zero_padded(decimal(tod / 3600), 2),
    ).push(':').add(zero_padded(decimal((tod % 3600) / 60), 2)).push(':').add(
        zero_padded(decimal(tod % 60), 2),
    ).push('Z')
}

/// The time `secs` seconds after the Unix epoch, as text in UTC.
pub fn unix_to_iso8601(secs: u64) -> (r: String)
    ensures
        r@ == iso8601_of(secs as nat),
{
    let days: u64 = secs / 86400;
    let tod: u64 = secs % 86400;
    let h: u64 = tod / 3600;
    let m: u64 = (tod % 3600) / 60;
    let s: u64 = tod % 60;
    let (y, mo, d) = civil_from_days_wide(days as i64);
    proof {
        lemma_year_not_negative(days as int);
    }
    let mut r = String::new();
    push_padded(&mut r, y as u64, 4);
    r.push('-');
    push_padded(&mut r, mo as u64, 2);
    r.push('-');
    push_padded(&mut r, d as u64, 2);
    r.push('T');
    push_padded(&mut r, h, 2);
    r.push(':');
    push_padded(&mut r, m, 2);
    r.push(':');
    push_padded(&mut r, s, 2);
    r.push('Z');
    assert(r@ =~= iso8601_of(secs as nat));
    r
}

/// From the epoch on the year is 1970 or later.
pub proof fn lemma_year_not_negative(days: int)
    requires
        days >= 0,
    ensures
        date_of_days(days).0 >= 1970,
{
    let z = days + 719468;
    let era = z / 146097;
    assert(era >= 4);
    let doe = z - era * 146097;
    assert(0 <= doe <= 146096);
    let yoe = (doe - doe / 1460 + doe / 36524 - doe / 146096) / 365;
    assert(0 <= yoe <= 399);
    if era == 4 {
        assert(doe >= 135080);
        assert(yoe >= 369);
        let doy = doe - (365 * yoe + yoe / 4 - yoe / 100);
        if yoe == 369 {
            assert(doy >= 306);
            let mp = (5 * doy + 2) / 153;
            assert(mp >= 10);
        }
    }
}

} // verus!
