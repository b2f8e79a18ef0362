use oken::audit::{format_duration, log_session, parse_audit_line, show_recent};
use oken::relative_time::{age_text, format_relative_time, parse_timestamp};
use oken::time_utils::{civil_from_days, civil_from_days_wide, epoch_days, unix_to_iso8601};

#[test]
fn epoch_is_day_zero() {
    assert_eq!(epoch_days(1970, 1, 1), 0);
    assert_eq!(epoch_days(1970, 1, 2), 1);
    assert_eq!(epoch_days(1969, 12, 31), -1);
    assert_eq!(epoch_days(2000, 3, 1), 11017);
    assert_eq!(epoch_days(2026, 2, 27), 20511);
    assert_eq!(epoch_days(2024, 2, 29), 19782);
}

#[test]
fn days_become_dates() {
    assert_eq!(civil_from_days(0), (1970, 1, 1));
    assert_eq!(civil_from_days(-1), (1969, 12, 31));
    assert_eq!(civil_from_days(11016), (2000, 2, 29));
    assert_eq!(civil_from_days(11017), (2000, 3, 1));
    assert_eq!(civil_from_days(20511), (2026, 2, 27));
    assert_eq!(civil_from_days(-719468), (0, 3, 1));
    assert_eq!(civil_from_days(-719469), (0, 2, 29));
    assert_eq!(civil_from_days_wide(2_932_896), (9999, 12, 31));
}

#[test]
fn dates_and_days_agree() {
    let mut z: i64 = -800_000;
    while z < 800_000 {
        let (y, m, d) = civil_from_days(z);
        if y >= 0 {
            assert_eq!(epoch_days(y as u32, m, d), z);
        }
        assert!((1..=12).contains(&m));
        assert!((1..=31).contains(&d));
        z += 97;
    }
}

#[test]
fn time_is_written_in_utc() {
    assert_eq!(unix_to_iso8601(0), "1970-01-01T00:00:00Z");
    assert_eq!(unix_to_iso8601(1772188200), "2026-02-27T10:30:00Z");
    assert_eq!(unix_to_iso8601(951782399), "2000-02-28T23:59:59Z");
    assert_eq!(unix_to_iso8601(951868800), "2000-03-01T00:00:00Z");
    assert_eq!(unix_to_iso8601(253402300800), "10000-01-01T00:00:00Z");
}

#[test]
fn timestamps_are_read_back() {
    assert_eq!(parse_timestamp("2026-02-27T10:30:00Z"), Some(1772188200));
    assert_eq!(parse_timestamp("2026-02-27T10:30"), Some(1772188200));
    assert_eq!(parse_timestamp("1970-01-01T00:00:00Z"), Some(0));
    assert_eq!(parse_timestamp("2026-02-27"), None);
    assert_eq!(parse_timestamp("2026-02-27T10"), None);
    assert_eq!(parse_timestamp("2026-02T10:30:00Z"), None);
    assert_eq!(parse_timestamp("aTbTc"), None);
    assert_eq!(parse_timestamp(""), None);
    assert_eq!(parse_timestamp("2026-xx-02-27T10:30:00Z"), Some(1772188200));
}

#[test]
fn ages_are_put_in_words() {
    let then = "2026-02-27T10:30:00Z";
    let t: i64 = 1772188200;
    assert_eq!(format_relative_time(then, t), "just now");
    assert_eq!(format_relative_time(then, t - 500), "just now");
    assert_eq!(format_relative_time(then, t + 59), "just now");
    assert_eq!(format_relative_time(then, t + 60), "1m ago");
    assert_eq!(format_relative_time(then, t + 3599), "59m ago");
    assert_eq!(format_relative_time(then, t + 3600), "1h ago");
    assert_eq!(format_relative_time(then, t + 86399), "23h ago");
    assert_eq!(format_relative_time(then, t + 86400), "1d ago");
    assert_eq!(format_relative_time(then, t + 6 * 86400), "6d ago");
    assert_eq!(format_relative_time(then, t + 7 * 86400), "1w ago");
    assert_eq!(format_relative_time(then, t + 34 * 86400), "4w ago");
    assert_eq!(format_relative_time(then, t + 35 * 86400), "1mo ago");
    assert_eq!(format_relative_time(then, t + 400 * 86400), "13mo ago");
    assert_eq!(format_relative_time("yesterday", t), "yesterday");
    assert_eq!(age_text(125), "2m ago");
    assert_eq!(format_relative_time(then, i64::MIN), "just now");
    assert_eq!(format_relative_time(then, i64::MAX), "3558399704892mo ago");
}

#[test]
fn durations_are_put_in_words() {
    assert_eq!(format_duration(0), "0s");
    assert_eq!(format_duration(59), "59s");
    assert_eq!(format_duration(60), "1m 00s");
    assert_eq!(format_duration(125), "2m 05s");
    assert_eq!(format_duration(3599), "59m 59s");
    assert_eq!(format_duration(3600), "1h 00m");
    assert_eq!(format_duration(3725), "1h 02m");
    assert_eq!(format_duration(360000), "100h 00m");
}

#[test]
fn sessions_are_logged_on_one_line() {
    assert_eq!(
        log_session("web", "deploy@10.0.1.50", 125, 0, 1772188200),
        "2026-02-27T10:30:00Z\tweb\tdeploy@10.0.1.50\t125\t0\n"
    );
    assert_eq!(log_session("", "", 0, -1, 0), "1970-01-01T00:00:00Z\t\t\t0\t-1\n");
    assert_eq!(
        log_session("a", "b", u64::MAX, i32::MIN, 60),
        "1970-01-01T00:01:00Z\ta\tb\t18446744073709551615\t-2147483648\n"
    );
}

#[test]
fn log_lines_are_read_back() {
    let line: Vec<char> = "2026-02-27T10:30:00Z\tweb\tdeploy@h\t125\t255".chars().collect();
    let e = parse_audit_line(&line);
    assert_eq!(e.time, "2026-02-27 10:30:00");
    assert_eq!(e.alias, "web");
    assert_eq!(e.target, "deploy@h");
    assert_eq!(e.duration, "2m 05s");
    assert_eq!(e.exit_code, "255");
    let line: Vec<char> = "when\tweb".chars().collect();
    let e = parse_audit_line(&line);
    assert_eq!(e.time, "when");
    assert_eq!(e.alias, "web");
    assert_eq!(e.target, "");
    assert_eq!(e.duration, "-");
    assert_eq!(e.exit_code, "-");
    let line: Vec<char> = "t\ta\tb\t1\t0\textra".chars().collect();
    assert_eq!(parse_audit_line(&line).exit_code, "-");
}

#[test]
fn the_latest_sessions_come_first() {
    let log = "t1\ta\tx\t1\t0\nt2\tb\tx\t2\t0\nt3\tc\tx\t3\t1\n";
    let shown = show_recent(log, 2);
    let names: Vec<&str> = shown.iter().map(|e| e.alias.as_str()).collect();
    assert_eq!(names, vec!["c", "b"]);
    assert_eq!(shown[0].exit_code, "1");
    assert_eq!(show_recent(log, 50).len(), 3);
    assert!(show_recent(log, 0).is_empty());
    assert!(show_recent("", 5).is_empty());
}
