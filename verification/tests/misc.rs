use oken::audit::show_recent;
use oken::case::eq_ignore_ascii_case;
use oken::layout::{
    audit_row, audit_table_columns, column_width, format_row, host_row, host_table_columns,
    sort_tunnels, tunnel_row, tunnel_table_columns, Column,
};
use oken::tunnels::TunnelEntry;
use oken::completions::{
    completion_file, detect_shell, preferred_zsh_dir, zsh_dir_candidates, zshrc_addition, ShellKind,
};
use oken::hosts::{Host, HostSource};
use oken::locate::{config_dir, data_dir, first_usable, same_file, ssh_candidates};
use oken::numbers::{parse_i32, parse_number};
use oken::oken_config::{load_config, OkenConfig};
use oken::order::lex_less;
use oken::reconnect::Supervisor;
use oken::route::{
    classify_args, find_by_target, plan_run, print_command, resolve_query, tag_query, ArgKind,
};
use oken::search::contains;
use oken::split::{join_strings, split_at_char, split_at_most, split_lines, split_words};
use oken::text::{chars_of, is_whitespace, string_of, trim_range};

fn words_of(items: &[&str]) -> Vec<String> {
    items.iter().map(|s| s.to_string()).collect()
}

fn cs(s: &str) -> Vec<char> {
    s.chars().collect()
}

fn lines_of(items: &[&str]) -> Vec<Vec<char>> {
    items.iter().map(|s| s.chars().collect()).collect()
}

fn named(alias: &str, hostname: Option<&str>) -> Host {
    Host {
        alias: alias.to_string(),
        hostname: hostname.map(|s| s.to_string()),
        user: None,
        port: None,
        identity_file: None,
        tags: Vec::new(),
        source: HostSource::HostsToml,
    }
}

#[test]
fn settings_fall_back_on_defaults() {
    let c = load_config(None);
    assert!(c.reconnect);
    assert_eq!(c.reconnect_retries, 3);
    assert_eq!(c.reconnect_delay_secs, 5);
    assert_eq!(c.keepalive_interval, 60);
    assert_eq!(c.danger_tags, words_of(&["prod", "production"]));
    let own = OkenConfig {
        reconnect: false,
        reconnect_retries: 9,
        reconnect_delay_secs: 1,
        keepalive_interval: 15,
        danger_tags: Vec::new(),
    };
    let c = load_config(Some(own));
    assert!(!c.reconnect);
    assert_eq!(c.reconnect_retries, 9);
    assert_eq!(c.reconnect_delay_secs, 1);
    assert_eq!(c.keepalive_interval, 15);
    assert!(c.danger_tags.is_empty());
    let d = OkenConfig::default();
    assert_eq!(d.reconnect_retries, 3);
}

#[test]
fn runs_are_supervised_unless_switched_off() {
    let cfg = OkenConfig::default();
    assert_eq!(
        plan_run(false, &cfg),
        Some(Supervisor { attempts_used: 0, max_retries: 3, delay_secs: 5 })
    );
    assert_eq!(plan_run(true, &cfg), None);
    let mut off = OkenConfig::default();
    off.reconnect = false;
    assert_eq!(plan_run(false, &off), None);
}

#[test]
fn command_lines_are_told_apart() {
    assert_eq!(classify_args(&words_of(&["oken"]), false), ArgKind::Commands);
    assert_eq!(classify_args(&words_of(&["oken", "host", "list"]), true), ArgKind::Commands);
    assert_eq!(classify_args(&words_of(&["oken", "--tag", "prod"]), false), ArgKind::Commands);
    assert_eq!(classify_args(&words_of(&["oken", "--yes"]), false), ArgKind::Commands);
    assert_eq!(classify_args(&words_of(&["oken", "web"]), false), ArgKind::Query);
    assert_eq!(classify_args(&words_of(&["oken", "u@web"]), false), ArgKind::Passthrough);
    assert_eq!(classify_args(&words_of(&["oken", "-v"]), false), ArgKind::Passthrough);
    assert_eq!(classify_args(&words_of(&["oken", "web", "-p", "22"]), false), ArgKind::Passthrough);
    assert_eq!(classify_args(&words_of(&["oken", ""]), false), ArgKind::Query);
}

#[test]
fn a_query_connects_only_when_it_is_unambiguous() {
    let hosts = vec![named("web", None), named("web-2", None), named("db", None)];
    assert_eq!(resolve_query(&hosts, "db"), Some(2));
    assert_eq!(resolve_query(&hosts, "web"), None);
    assert_eq!(resolve_query(&hosts, "web-2"), Some(1));
    assert_eq!(resolve_query(&hosts, "we"), None);
    assert_eq!(resolve_query(&hosts, "nothing"), None);
    assert_eq!(resolve_query(&[], "x"), None);
}

#[test]
fn hosts_are_found_by_alias_or_host_name() {
    let hosts = vec![named("web", Some("10.0.0.1")), named("db", Some("web"))];
    assert_eq!(find_by_target(&hosts, "10.0.0.1"), Some(0));
    assert_eq!(find_by_target(&hosts, "web"), Some(0));
    assert_eq!(find_by_target(&hosts, "db"), Some(1));
    assert_eq!(find_by_target(&hosts, "nope"), None);
}

#[test]
fn the_command_is_printed_on_one_line() {
    let mut h = named("web", Some("10.0.0.1"));
    h.user = Some("root".to_string());
    h.port = Some(2222);
    let hosts = vec![h];
    assert_eq!(
        print_command("/usr/bin/ssh", "web", &hosts, 60),
        "/usr/bin/ssh -o ServerAliveInterval=60 -o ServerAliveCountMax=3 root@10.0.0.1 -p 2222"
    );
    assert_eq!(print_command("/usr/bin/ssh", "other", &hosts, 60), "ssh other");
    assert_eq!(tag_query("prod"), "#prod");
}

#[test]
fn the_client_is_looked_for_along_the_path() {
    assert_eq!(
        ssh_candidates(&words_of(&["/opt/bin", "/usr/bin/"])),
        words_of(&["/opt/bin/ssh", "/usr/bin/ssh", "/usr/bin/ssh", "/usr/local/bin/ssh"])
    );
    assert_eq!(ssh_candidates(&[]), words_of(&["/usr/bin/ssh", "/usr/local/bin/ssh"]));
    assert!(same_file(Some("/usr/bin/ssh"), Some("/usr/bin/ssh")));
    assert!(!same_file(Some("/usr/bin/ssh"), Some("/bin/ssh")));
    assert!(!same_file(None, Some("/bin/ssh")));
    assert!(!same_file(None, None));
    assert_eq!(first_usable(&[(false, false), (true, true), (true, false), (true, false)]), Some(2));
    assert_eq!(first_usable(&[(false, false), (true, true)]), None);
    assert_eq!(first_usable(&[]), None);
}

#[test]
fn directories_follow_the_environment() {
    assert_eq!(config_dir(Some("/x"), Some("/home/u")), Some("/x/oken".to_string()));
    assert_eq!(config_dir(None, Some("/home/u")), Some("/home/u/.config/oken".to_string()));
    assert_eq!(config_dir(None, None), None);
    assert_eq!(data_dir(None, Some("/home/u")), Some("/home/u/.local/share/oken".to_string()));
    assert_eq!(data_dir(Some("/d/"), None), Some("/d/oken".to_string()));
}

#[test]
fn shells_are_known_by_name() {
    assert_eq!(detect_shell("zsh"), Some(ShellKind::Zsh));
    assert_eq!(detect_shell("bash"), Some(ShellKind::Bash));
    assert_eq!(detect_shell("fish"), Some(ShellKind::Fish));
    assert_eq!(detect_shell("elvish"), Some(ShellKind::Elvish));
    assert_eq!(detect_shell("pwsh"), Some(ShellKind::PowerShell));
    assert_eq!(detect_shell("powershell"), Some(ShellKind::PowerShell));
    assert_eq!(detect_shell("tcsh"), None);
    assert_eq!(detect_shell("/bin/zsh"), None);
    assert_eq!(completion_file(ShellKind::Zsh), Some("_oken".to_string()));
    assert_eq!(completion_file(ShellKind::Bash), Some("oken".to_string()));
    assert_eq!(completion_file(ShellKind::Fish), Some("oken.fish".to_string()));
    assert_eq!(completion_file(ShellKind::Elvish), None);
}

#[test]
fn the_start_file_is_patched_once() {
    assert_eq!(
        zshrc_addition("export A=1\n", "/home/u/.zfunc"),
        Some(
            "\n# Added by oken completions\nfpath=(/home/u/.zfunc $fpath)\nautoload -Uz compinit && compinit\n"
                .to_string()
        )
    );
    assert_eq!(
        zshrc_addition("autoload -Uz compinit\n", "/home/u/.zfunc"),
        Some("\n# Added by oken completions\nfpath=(/home/u/.zfunc $fpath)\n".to_string())
    );
    assert_eq!(zshrc_addition("fpath=(/home/u/.zfunc $fpath)\n", "/home/u/.zfunc"), None);
    assert_eq!(
        zsh_dir_candidates(Some("/z"), "/home/u"),
        words_of(&[
            "/z/.zfunc",
            "/home/u/.zfunc",
            "/home/u/.config/zsh/.zfunc",
            "/home/u/.zsh/completions"
        ])
    );
    assert_eq!(zsh_dir_candidates(None, "/home/u").len(), 3);
    assert_eq!(preferred_zsh_dir(Some("/z"), "/home/u"), "/z/.zfunc");
    assert_eq!(preferred_zsh_dir(None, "/home/u"), "/home/u/.zfunc");
}

#[test]
fn text_is_cut_into_words_and_lines() {
    assert_eq!(split_words(&cs("  a  bc\td\n")), lines_of(&["a", "bc", "d"]));
    assert!(split_words(&cs(" \t ")).is_empty());
    assert_eq!(split_words(&cs("a\u{a0}b\u{3000}c")), lines_of(&["a", "b", "c"]));
    assert_eq!(split_lines(&cs("a\nb\r\n\nc")), lines_of(&["a", "b", "", "c"]));
    assert_eq!(split_lines(&cs("a\r")), lines_of(&["a\r"]));
    assert_eq!(split_lines(&cs("\n")), lines_of(&[""]));
    assert!(split_lines(&cs("")).is_empty());
    assert_eq!(split_at_char(&cs("a,,b,"), ','), lines_of(&["a", "", "b", ""]));
    assert_eq!(split_at_char(&cs(""), ','), lines_of(&[""]));
    assert_eq!(split_at_most(&cs("a\tb\tc\td"), '\t', 3), lines_of(&["a", "b", "c\td"]));
    assert_eq!(split_at_most(&cs("a\tb"), '\t', 1), lines_of(&["a\tb"]));
    assert!(split_at_most(&cs("a\tb"), '\t', 0).is_empty());
    assert_eq!(join_strings(&words_of(&["a", "b", "c"]), ", "), "a, b, c");
    assert_eq!(join_strings(&words_of(&["a"]), ", "), "a");
    assert_eq!(join_strings(&[], ", "), "");
}

#[test]
fn white_space_is_what_the_standard_says() {
    for c in " \t\n\r\u{b}\u{c}\u{85}\u{a0}\u{1680}\u{2000}\u{200a}\u{2028}\u{2029}\u{202f}\u{205f}\u{3000}".chars() {
        assert!(is_whitespace(c));
        assert!(c.is_whitespace());
    }
    let mut n: u32 = 0;
    while n < 0x3100 {
        if let Some(c) = char::from_u32(n) {
            assert_eq!(is_whitespace(c), c.is_whitespace());
        }
        n += 1;
    }
    let v = cs("  a b \n");
    assert_eq!(trim_range(&v, 0, v.len()), (2, 5));
    assert_eq!(trim_range(&v, 3, 4), (4, 4));
    assert_eq!(string_of(&chars_of("häß")), "häß");
}

#[test]
fn numbers_are_read_as_the_standard_library_reads_them() {
    for text in ["0", "7", "+7", "007", "65535", "65536", "", "+", "-", "-0", "--1", "1 ", " 1", "1_0", "٣"] {
        assert_eq!(parse_number(&cs(text), 65535), text.parse::<u16>().ok().map(|n| n as u64));
        assert_eq!(parse_number(&cs(text), u64::MAX), text.parse::<u64>().ok());
        assert_eq!(parse_i32(&cs(text)), text.parse::<i32>().ok());
    }
    for text in ["18446744073709551615", "18446744073709551616", "99999999999999999999999"] {
        assert_eq!(parse_number(&cs(text), u64::MAX), text.parse::<u64>().ok());
    }
    for text in ["2147483647", "2147483648", "-2147483648", "-2147483649", "+2147483647", "-+1", "+-1"] {
        assert_eq!(parse_i32(&cs(text)), text.parse::<i32>().ok());
    }
}

#[test]
fn texts_compare_as_strings_do() {
    let samples = ["", "a", "A", "ab", "b", "ä", "z", "aa", "\u{10000}", "\u{ffff}"];
    for x in samples {
        for y in samples {
            assert_eq!(lex_less(&cs(x), &cs(y)), x < y);
            assert_eq!(contains(&cs(x), &cs(y)), x.contains(y));
            assert_eq!(eq_ignore_ascii_case(&cs(x), &cs(y)), x.eq_ignore_ascii_case(y));
        }
    }
}

#[test]
fn rows_are_laid_out_in_columns() {
    let columns = vec![
        Column { width: 4, right: false },
        Column { width: 5, right: true },
        Column { width: 2, right: false },
    ];
    assert_eq!(format_row(&words_of(&["ab", "22", "x", "tail"]), &columns), "ab       22  x   tail");
    assert_eq!(format_row(&words_of(&["abcdef", "123456"]), &columns), "abcdef  123456");
    assert_eq!(format_row(&[], &columns), "");
    assert_eq!(column_width(&words_of(&["a", "abc", "ab"]), 2), 3);
    assert_eq!(column_width(&words_of(&["a"]), 4), 4);
    assert_eq!(column_width(&words_of(&["äö"]), 0), 4);
    let mut h = named("web", Some("10.0.0.1"));
    h.user = Some("root".to_string());
    h.port = Some(22);
    h.tags = words_of(&["prod", "web"]);
    let mut c = named("bastion-host", None);
    c.source = HostSource::SshConfig;
    let hosts = vec![h, c];
    let columns = host_table_columns(&hosts);
    assert_eq!(
        format_row(&words_of(&["NAME", "TARGET", "PORT", "TAGS", "SOURCE"]), &columns),
        format!("{:<12}  {:<13}  {:>5}  {:<16}  {}", "NAME", "TARGET", "PORT", "TAGS", "SOURCE")
    );
    assert_eq!(
        format_row(&host_row(&hosts[0]), &columns),
        format!("{:<12}  {:<13}  {:>5}  {:<16}  {}", "web", "root@10.0.0.1", "22", "prod, web", "")
    );
    assert_eq!(
        format_row(&host_row(&hosts[1]), &columns),
        format!(
            "{:<12}  {:<13}  {:>5}  {:<16}  {}",
            "bastion-host", "", "-", "-", "\x1b[2mssh config\x1b[0m"
        )
    );
}

#[test]
fn tunnels_and_sessions_are_listed() {
    let entries = vec![
        ("web".to_string(), TunnelEntry { host: "w".to_string(), ssh_flags: Vec::new() }),
        (
            "db".to_string(),
            TunnelEntry { host: "admin@prod-db".to_string(), ssh_flags: words_of(&["-L", "1:a:2"]) },
        ),
    ];
    let entries = sort_tunnels(entries);
    assert_eq!(entries[0].0, "db");
    let columns = tunnel_table_columns(&entries);
    assert_eq!(
        format_row(&tunnel_row(&entries[0].0, &entries[0].1, true), &columns),
        format!("{:<4}  {:<13}  {:>7}  {}", "db", "admin@prod-db", "running", "-L 1:a:2")
    );
    assert_eq!(
        format_row(&tunnel_row(&entries[1].0, &entries[1].1, false), &columns),
        format!("{:<4}  {:<13}  {:>7}  {}", "web", "w", "stopped", "")
    );
    let shown = show_recent("2026-02-27T10:30:00Z\tproduction-web\tu@h\t125\t0\n", 5);
    let columns = audit_table_columns(&shown);
    assert_eq!(
        format_row(&audit_row(&shown[0]), &columns),
        format!(
            "{:<19}  {:<14}  {:<6}  {:>8}  {}",
            "2026-02-27 10:30:00", "production-web", "u@h", "2m 05s", "0"
        )
    );
}
