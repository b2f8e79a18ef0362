use oken::history::RecentHost;
use oken::hosts::{Host, HostSource};
use oken::picker::{
    adjust_scroll, any_tagged, open_picker, render_row_of, KeyOutcome, PickerError, PickerKey,
    PickerState,
};
use oken::picker_filter::{filter_hosts, hosts_with_tag, matches_key, search_key, SearchKey};
use oken::picker_order::{join_recent, sort_picker_hosts, PickerHost};
use oken::picker_view::{
    item_row_text, render_rows, search_line, search_padding, window_bounds, Row,
};

fn host(alias: &str, hostname: Option<&str>, user: Option<&str>, tags: &[&str]) -> Host {
    Host {
        alias: alias.to_string(),
        hostname: hostname.map(|s| s.to_string()),
        user: user.map(|s| s.to_string()),
        port: None,
        identity_file: None,
        tags: tags.iter().map(|s| s.to_string()).collect(),
        source: HostSource::HostsToml,
    }
}

fn item(alias: &str, tags: &[&str], last: Option<&str>) -> PickerHost {
    PickerHost {
        host: host(alias, Some("10.0.0.1"), Some("root"), tags),
        last_connected: last.map(|s| s.to_string()),
    }
}

fn sample() -> Vec<PickerHost> {
    vec![
        item("api", &["prod", "web"], None),
        item("cache", &["prod"], None),
        item("pg-main", &["DB-primary"], None),
        item("mongo", &["staging", "mydb"], None),
        item("bastion", &[], None),
        item("db", &[], None),
    ]
}

fn chars(s: &str) -> Vec<char> {
    s.chars().collect()
}

#[test]
fn tag_query_matches_tags_only() {
    let items = sample();
    assert_eq!(filter_hosts(&items, "#db"), vec![2, 3]);
    assert_eq!(filter_hosts(&items, "#DB"), vec![2, 3]);
    assert_eq!(filter_hosts(&items, "#prod"), vec![0, 1]);
    assert_eq!(filter_hosts(&items, "#nothing"), Vec::<usize>::new());
    assert_eq!(filter_hosts(&items, "#"), vec![0, 1, 2, 3]);
}

#[test]
fn plain_query_matches_any_field() {
    let items = sample();
    assert_eq!(filter_hosts(&items, "db"), vec![2, 3, 5]);
    assert_eq!(filter_hosts(&items, "BAST"), vec![4]);
    assert_eq!(filter_hosts(&items, "10.0"), vec![0, 1, 2, 3, 4, 5]);
    assert_eq!(filter_hosts(&items, "ROOT"), vec![0, 1, 2, 3, 4, 5]);
    assert_eq!(filter_hosts(&items, "zzz"), Vec::<usize>::new());
}

#[test]
fn empty_query_matches_everything() {
    let items = sample();
    assert_eq!(filter_hosts(&items, ""), vec![0, 1, 2, 3, 4, 5]);
    assert!(filter_hosts(&[], "").is_empty());
    assert!(filter_hosts(&[], "x").is_empty());
}

#[test]
fn search_key_is_lower_case() {
    let k = search_key(&host("Web-1", Some("EXAMPLE.com"), None, &["Prod", "ÄB"]));
    assert_eq!(k.alias, chars("web-1"));
    assert_eq!(k.hostname, Some(chars("example.com")));
    assert_eq!(k.user, None);
    assert_eq!(k.tags, vec![chars("prod"), chars("äb")]);
}

#[test]
fn key_is_matched_as_it_is() {
    let k = SearchKey {
        alias: chars("web"),
        hostname: Some(chars("example.com")),
        user: Some(chars("deploy")),
        tags: vec![chars("prod"), chars("mydb")],
    };
    assert!(matches_key(&k, &chars("#db")));
    assert!(!matches_key(&k, &chars("#web")));
    assert!(!matches_key(&k, &chars("#DB")));
    assert!(matches_key(&k, &chars("ample")));
    assert!(matches_key(&k, &chars("ploy")));
    assert!(matches_key(&k, &chars("prod")));
    assert!(matches_key(&k, &chars("")));
    assert!(!matches_key(&k, &chars("WEB")));
}

#[test]
fn hosts_are_found_by_tag() {
    let hosts = vec![
        host("a", None, None, &["Prod"]),
        host("b", None, None, &["production"]),
        host("c", None, None, &["dev", "PROD"]),
    ];
    assert_eq!(hosts_with_tag(&hosts, "prod"), vec![0, 2]);
    assert_eq!(hosts_with_tag(&hosts, "DEV"), vec![2]);
    assert!(hosts_with_tag(&hosts, "pro").is_empty());
}

#[test]
fn items_are_grouped_and_sorted() {
    let items = vec![
        item("zulu", &[], None),
        item("alpha", &[], Some("2026-01-01T00:00:00Z")),
        item("web-2", &["web"], None),
        item("web-1", &["web"], None),
        item("web-3", &["web"], Some("2026-01-01T00:00:00Z")),
        item("web-4", &["web"], Some("2026-02-01T00:00:00Z")),
        item("db-1", &["db", "web"], None),
        item("web-0", &["web"], Some("2026-01-01T00:00:00Z")),
    ];
    let sorted = sort_picker_hosts(items);
    let names: Vec<&str> = sorted.iter().map(|i| i.host.alias.as_str()).collect();
    assert_eq!(names, vec!["db-1", "web-4", "web-3", "web-0", "web-1", "web-2", "alpha", "zulu"]);
}

#[test]
fn hosts_are_joined_with_history() {
    let hosts = vec![host("a", None, None, &[]), host("b", None, None, &[])];
    let recent = vec![
        RecentHost { alias: "b".to_string(), last_connected: "2026-02-01T00:00:00Z".to_string() },
        RecentHost { alias: "b".to_string(), last_connected: "2025-01-01T00:00:00Z".to_string() },
    ];
    let items = join_recent(&hosts, &recent);
    assert_eq!(items.len(), 2);
    assert_eq!(items[0].last_connected, None);
    assert_eq!(items[1].last_connected.as_deref(), Some("2026-02-01T00:00:00Z"));
}

#[test]
fn picker_needs_a_host() {
    assert!(matches!(open_picker(&[], &[], None), Err(PickerError::NoHosts)));
    let hosts = vec![host("b", None, None, &[]), host("a", None, None, &["t"])];
    let (items, state) = open_picker(&hosts, &[], Some("#t")).unwrap();
    assert_eq!(items.len(), 2);
    assert_eq!(items[0].host.alias, "a");
    assert_eq!(state.query, "#t");
    assert_eq!(state.selected, 0);
    assert_eq!(state.scroll_offset, 0);
}

#[test]
fn rows_count_group_headers() {
    let items = vec![
        item("a", &["db"], None),
        item("b", &["db"], None),
        item("c", &["web"], None),
        item("d", &[], None),
    ];
    let all = vec![0, 1, 2, 3];
    assert!(any_tagged(&items, &all));
    assert_eq!(render_row_of(&items, &all, 0, true), 1);
    assert_eq!(render_row_of(&items, &all, 1, true), 2);
    assert_eq!(render_row_of(&items, &all, 2, true), 4);
    assert_eq!(render_row_of(&items, &all, 3, true), 6);
    assert_eq!(render_row_of(&items, &all, 4, true), 7);
    assert_eq!(render_row_of(&items, &all, 9, true), 7);
    assert_eq!(render_row_of(&items, &all, 2, false), 2);
    assert_eq!(render_row_of(&items, &all, 7, false), 4);
    assert_eq!(render_row_of(&items, &[], 0, true), 0);
    assert!(!any_tagged(&items, &[3]));
    assert_eq!(render_row_of(&items, &[3], 0, false), 0);
}

#[test]
fn window_follows_the_row() {
    assert_eq!(adjust_scroll(5, 2, 10), 2);
    assert_eq!(adjust_scroll(0, 9, 10), 0);
    assert_eq!(adjust_scroll(0, 10, 10), 1);
    assert_eq!(adjust_scroll(3, 20, 5), 16);
    assert_eq!(adjust_scroll(3, 3, 1), 3);
    assert_eq!(adjust_scroll(3, 4, 1), 4);
    assert_eq!(adjust_scroll(3, 20, 0), 3);
    assert_eq!(adjust_scroll(3, 1, 0), 1);
}

#[test]
fn selection_stays_in_the_window() {
    let mut items = Vec::new();
    for i in 0..40 {
        let tag = if i % 3 == 0 { "a" } else if i % 3 == 1 { "b" } else { "c" };
        items.push(item(&format!("host-{:02}", i), &[tag], None));
    }
    let items = sort_picker_hosts(items);
    let keys = [
        PickerKey::Down, PickerKey::Down, PickerKey::Down, PickerKey::Up, PickerKey::Down,
        PickerKey::Down, PickerKey::Down, PickerKey::Down, PickerKey::Down, PickerKey::Down,
        PickerKey::Down, PickerKey::Up, PickerKey::Up, PickerKey::Up, PickerKey::Up,
        PickerKey::Up, PickerKey::Up, PickerKey::Up, PickerKey::Up, PickerKey::Up, PickerKey::Up,
    ];
    for visible in [1usize, 2, 3, 7] {
        let mut state = PickerState::new(None);
        for round in 0..200 {
            let filtered = filter_hosts(&items, &state.query);
            state.settle(&items, &filtered, visible);
            let row = render_row_of(&items, &filtered, state.selected, any_tagged(&items, &filtered));
            assert!(state.scroll_offset <= row);
            assert!(row < state.scroll_offset + visible);
            let key = if round < 60 { PickerKey::Down } else { keys[round % keys.len()] };
            assert_eq!(state.press(key, &filtered), KeyOutcome::Editing);
        }
    }
}

#[test]
fn keys_move_the_selection_within_bounds() {
    let filtered = vec![4usize, 7, 9];
    let mut s = PickerState::new(None);
    assert_eq!(s.press(PickerKey::Up, &filtered), KeyOutcome::Editing);
    assert_eq!(s.selected, 0);
    s.press(PickerKey::Down, &filtered);
    s.press(PickerKey::Down, &filtered);
    assert_eq!(s.selected, 2);
    s.press(PickerKey::Down, &filtered);
    assert_eq!(s.selected, 2);
    s.press(PickerKey::Up, &filtered);
    assert_eq!(s.selected, 1);
    assert_eq!(s.press(PickerKey::Enter, &filtered), KeyOutcome::Confirmed(7));
    s.selected = 12;
    assert_eq!(s.press(PickerKey::Enter, &filtered), KeyOutcome::Confirmed(9));
    s.selected = 1;
    assert_eq!(s.press(PickerKey::Other, &filtered), KeyOutcome::Editing);
    assert_eq!(s.selected, 1);
}

#[test]
fn typing_resets_the_selection() {
    let filtered = vec![0usize, 1, 2];
    let mut s = PickerState::new(Some("ab"));
    s.press(PickerKey::Down, &filtered);
    assert_eq!(s.press(PickerKey::Char('c'), &filtered), KeyOutcome::Editing);
    assert_eq!(s.query, "abc");
    assert_eq!(s.selected, 0);
    s.press(PickerKey::Down, &filtered);
    s.press(PickerKey::Backspace, &filtered);
    assert_eq!(s.query, "ab");
    assert_eq!(s.selected, 0);
    s.press(PickerKey::Backspace, &filtered);
    s.press(PickerKey::Backspace, &filtered);
    s.press(PickerKey::Backspace, &filtered);
    assert_eq!(s.query, "");
}

#[test]
fn escape_and_interrupt_cancel() {
    let filtered = vec![0usize];
    let mut s = PickerState::new(Some("q"));
    assert_eq!(s.press(PickerKey::Escape, &filtered), KeyOutcome::Cancelled);
    assert_eq!(s.press(PickerKey::Interrupt, &filtered), KeyOutcome::Cancelled);
    assert_eq!(s.query, "q");
}

#[test]
fn enter_on_an_empty_list_changes_nothing() {
    let mut s = PickerState::new(Some("zzz"));
    assert_eq!(s.press(PickerKey::Enter, &[]), KeyOutcome::Editing);
    assert_eq!(s.press(PickerKey::Down, &[]), KeyOutcome::Editing);
    assert_eq!(s.selected, 0);
    let items = sample();
    s.settle(&items, &[], 5);
    assert_eq!(s.selected, 0);
    assert_eq!(s.scroll_offset, 0);
}

#[test]
fn settle_clamps_the_selection() {
    let items = sample();
    let mut s = PickerState::new(None);
    s.selected = 17;
    s.scroll_offset = 30;
    s.settle(&items, &[4, 5], 3);
    assert_eq!(s.selected, 1);
    assert_eq!(s.scroll_offset, 1);
}

#[test]
fn rows_are_rendered_with_headers() {
    let items = vec![
        item("a", &["db"], None),
        item("b", &["db"], Some("2026-02-27T10:30:00Z")),
        item("c", &[], None),
    ];
    let now = 1772188200 + 3 * 3600;
    let rows = render_rows(&items, &[0, 1, 2], 1, now);
    assert_eq!(rows.len(), 5);
    assert!(matches!(&rows[0], Row::Header(t) if t == "  db"));
    assert!(matches!(&rows[1], Row::Item { index: 0, selected: false, .. }));
    match &rows[2] {
        Row::Item { index, selected, text } => {
            assert_eq!(*index, 1);
            assert!(*selected);
            assert_eq!(
                text,
                &format!("> {:<16} {:<24} {:<20} {}", "b", "root@10.0.0.1", "[db]", "3h ago")
            );
        }
        _ => panic!("an item row was expected"),
    }
    assert!(matches!(&rows[3], Row::Header(t) if t == "  other"));
    assert!(matches!(&rows[4], Row::Item { index: 2, selected: false, .. }));
    let rows = render_rows(&items, &[], 0, now);
    assert_eq!(rows.len(), 1);
    assert!(matches!(&rows[0], Row::Notice(t) if t == "  No matches"));
    let rows = render_rows(&items, &[2], 0, now);
    assert_eq!(rows.len(), 1);
}

#[test]
fn item_text_is_laid_out_in_columns() {
    let plain = PickerHost { host: host("web", None, Some("u"), &[]), last_connected: None };
    assert_eq!(
        item_row_text(&plain, false, 0),
        format!("  {:<16} {:<24} {:<20} {}", "web", "", "", "")
    );
    let long = PickerHost {
        host: host("a-very-long-alias-indeed", Some("h"), None, &["x", "y"]),
        last_connected: Some("garbage".to_string()),
    };
    assert_eq!(
        item_row_text(&long, true, 0),
        format!("> {:<16} {:<24} {:<20} {}", "a-very-long-alias-indeed", "h", "[x, y]", "garbage")
    );
}

#[test]
fn window_bounds_stay_inside_the_rows() {
    assert_eq!(window_bounds(10, 0, 4), (0, 4));
    assert_eq!(window_bounds(10, 8, 4), (8, 10));
    assert_eq!(window_bounds(10, 12, 4), (10, 10));
    assert_eq!(window_bounds(10, 3, 0), (3, 3));
    assert_eq!(window_bounds(0, 0, 5), (0, 0));
}

#[test]
fn search_line_shows_query_and_count() {
    let (left, count) = search_line("db", 2, 14);
    assert_eq!(left, "  Search: db\u{2588}");
    assert_eq!(count, "2 / 14 hosts");
    assert_eq!(search_padding(left.len(), count.len(), 80), 80 - left.len() - count.len() - 2);
    assert_eq!(search_padding(50, 40, 80), 0);
    assert_eq!(search_padding(39, 39, 80), 0);
    assert_eq!(search_padding(38, 39, 80), 1);
}
