use oken::history::last_connected_hosts;
use oken::hosts::{list_all_hosts, upsert, Host, HostSource};
use oken::hosts_toml::{add_host, remove_host, HostEntry, StoreError};
use oken::manage::{
    alias_from_reply, entry_from_target, entry_to_save, find_alias, is_config_managed, parse_tags,
    save_offer, sort_for_listing, split_target, SaveOffer,
};
use oken::tunnels::{
    add_tunnel, control_args, remove_tunnel, socket_file_name, start_args, tunnel_from_args,
    TunnelEntry, TunnelError,
};

fn strs(items: &[&str]) -> Vec<String> {
    items.iter().map(|s| s.to_string()).collect()
}

fn entry(hostname: &str) -> HostEntry {
    HostEntry {
        hostname: hostname.to_string(),
        user: None,
        port: None,
        identity_file: None,
        tags: Vec::new(),
    }
}

fn full_entry() -> HostEntry {
    HostEntry {
        hostname: "10.0.1.50".to_string(),
        user: Some("deploy".to_string()),
        port: Some(22),
        identity_file: Some("~/.ssh/key".to_string()),
        tags: strs(&["prod", "web"]),
    }
}

#[test]
fn store_wins_over_config_file() {
    let aliases = strs(&["prod-web", "bastion"]);
    let store = vec![("prod-web".to_string(), full_entry())];
    let hosts = list_all_hosts(&aliases, &store);
    assert_eq!(hosts.len(), 2);
    let h = &hosts[1];
    assert_eq!(h.alias, "prod-web");
    assert_eq!(h.source, HostSource::HostsToml);
    assert_eq!(h.hostname.as_deref(), Some("10.0.1.50"));
    assert_eq!(h.user.as_deref(), Some("deploy"));
    assert_eq!(h.port, Some(22));
    assert_eq!(h.identity_file.as_deref(), Some("~/.ssh/key"));
    assert_eq!(h.tags, strs(&["prod", "web"]));
}

#[test]
fn config_only_hosts_carry_only_their_alias() {
    let aliases = strs(&["prod-web", "bastion"]);
    let store = vec![("prod-web".to_string(), full_entry())];
    let hosts = list_all_hosts(&aliases, &store);
    let h = &hosts[0];
    assert_eq!(h.alias, "bastion");
    assert_eq!(h.source, HostSource::SshConfig);
    assert!(h.hostname.is_none());
    assert!(h.user.is_none());
    assert!(h.port.is_none());
    assert!(h.identity_file.is_none());
    assert!(h.tags.is_empty());
}

#[test]
fn hosts_are_sorted_by_alias_and_unique() {
    let aliases = strs(&["zeta", "alpha", "mid", "alpha"]);
    let store = vec![
        ("beta".to_string(), entry("b")),
        ("zeta".to_string(), entry("z1")),
        ("zeta".to_string(), entry("z2")),
    ];
    let hosts = list_all_hosts(&aliases, &store);
    let names: Vec<&str> = hosts.iter().map(|h| h.alias.as_str()).collect();
    assert_eq!(names, vec!["alpha", "beta", "mid", "zeta"]);
    assert_eq!(hosts[3].hostname.as_deref(), Some("z2"));
    assert_eq!(hosts[3].source, HostSource::HostsToml);
    assert_eq!(hosts[1].source, HostSource::HostsToml);
    assert_eq!(hosts[0].source, HostSource::SshConfig);
}

#[test]
fn empty_sources_give_no_hosts() {
    assert!(list_all_hosts(&[], &[]).is_empty());
    let hosts = list_all_hosts(&[], &[("a".to_string(), entry("h"))]);
    assert_eq!(hosts.len(), 1);
    let hosts = list_all_hosts(&strs(&["a"]), &[]);
    assert_eq!(hosts.len(), 1);
    assert_eq!(hosts[0].source, HostSource::SshConfig);
}

#[test]
fn upsert_replaces_by_alias() {
    let mut hosts = list_all_hosts(&strs(&["a", "c"]), &[]);
    let mut b = hosts[0].duplicate();
    b.alias = "b".to_string();
    upsert(&mut hosts, b);
    let mut a = hosts[0].duplicate();
    a.user = Some("u".to_string());
    upsert(&mut hosts, a);
    let names: Vec<&str> = hosts.iter().map(|h| h.alias.as_str()).collect();
    assert_eq!(names, vec!["a", "b", "c"]);
    assert_eq!(hosts[0].user.as_deref(), Some("u"));
}

#[test]
fn adding_a_host_twice_is_refused() {
    let mut store: Vec<(String, HostEntry)> = Vec::new();
    assert_eq!(add_host(&mut store, "web", entry("h1")), Ok(()));
    assert_eq!(add_host(&mut store, "web", entry("h2")), Err(StoreError::AlreadyExists));
    assert_eq!(add_host(&mut store, "db", entry("h3")), Ok(()));
    assert_eq!(store.len(), 2);
    assert_eq!(store[0].0, "web");
    assert_eq!(store[0].1.hostname, "h1");
    assert_eq!(store[1].0, "db");
}

#[test]
fn removing_an_unknown_host_is_refused() {
    let mut store: Vec<(String, HostEntry)> = Vec::new();
    assert_eq!(remove_host(&mut store, "web"), Err(StoreError::NotFound));
    add_host(&mut store, "web", entry("h1")).unwrap();
    add_host(&mut store, "db", entry("h2")).unwrap();
    add_host(&mut store, "api", entry("h3")).unwrap();
    assert_eq!(remove_host(&mut store, "db"), Ok(()));
    let names: Vec<&str> = store.iter().map(|e| e.0.as_str()).collect();
    assert_eq!(names, vec!["web", "api"]);
    assert_eq!(remove_host(&mut store, "db"), Err(StoreError::NotFound));
}

#[test]
fn tunnels_are_kept_by_name() {
    let mut store: Vec<(String, TunnelEntry)> = Vec::new();
    let e1 = TunnelEntry { host: "db1".to_string(), ssh_flags: strs(&["-L", "1:a:1"]) };
    let e2 = TunnelEntry { host: "db2".to_string(), ssh_flags: Vec::new() };
    let e3 = TunnelEntry { host: "db3".to_string(), ssh_flags: Vec::new() };
    add_tunnel(&mut store, "db", e1);
    add_tunnel(&mut store, "web", e2);
    add_tunnel(&mut store, "db", e3);
    let names: Vec<&str> = store.iter().map(|e| e.0.as_str()).collect();
    assert_eq!(names, vec!["web", "db"]);
    assert_eq!(store[1].1.host, "db3");
    assert_eq!(remove_tunnel(&mut store, "nope"), Err(TunnelError::NotFound));
    assert_eq!(remove_tunnel(&mut store, "web"), Ok(()));
    assert_eq!(store.len(), 1);
}

#[test]
fn tunnel_profile_comes_from_arguments() {
    let e = tunnel_from_args(&strs(&["-L", "5432:localhost:5432", "-v", "admin@prod-db"])).unwrap();
    assert_eq!(e.host, "admin@prod-db");
    assert_eq!(e.ssh_flags, strs(&["-L", "5432:localhost:5432", "-v"]));
    assert!(matches!(tunnel_from_args(&strs(&["-L", "x"])), Err(TunnelError::NoTarget)));
    assert_eq!(
        start_args("/run/db.sock", &e),
        strs(&["-N", "-M", "-S", "/run/db.sock", "-L", "5432:localhost:5432", "-v", "admin@prod-db"])
    );
    assert_eq!(
        control_args("/run/db.sock", "stop", "admin@prod-db"),
        strs(&["-S", "/run/db.sock", "-O", "stop", "admin@prod-db"])
    );
    assert_eq!(socket_file_name("db"), "db.sock");
}

#[test]
fn record_and_retrieve() {
    let records = vec![
        ("prod-web".to_string(), "2026-02-27T10:30:00Z".to_string()),
        ("staging".to_string(), "2026-02-27T10:30:01Z".to_string()),
    ];
    let rows = last_connected_hosts(&records);
    assert_eq!(rows.len(), 2);
}

#[test]
fn history_keeps_the_latest_time_of_each_host() {
    let records = vec![
        ("a".to_string(), "2026-01-01T00:00:00Z".to_string()),
        ("b".to_string(), "2026-03-01T00:00:00Z".to_string()),
        ("a".to_string(), "2026-04-01T00:00:00Z".to_string()),
        ("c".to_string(), "2026-03-01T00:00:00Z".to_string()),
        ("a".to_string(), "2026-02-01T00:00:00Z".to_string()),
    ];
    let rows = last_connected_hosts(&records);
    let got: Vec<(&str, &str)> =
        rows.iter().map(|r| (r.alias.as_str(), r.last_connected.as_str())).collect();
    assert_eq!(
        got,
        vec![
            ("a", "2026-04-01T00:00:00Z"),
            ("b", "2026-03-01T00:00:00Z"),
            ("c", "2026-03-01T00:00:00Z"),
        ]
    );
    assert!(last_connected_hosts(&[]).is_empty());
}

#[test]
fn target_is_split_into_user_and_host() {
    assert_eq!(split_target("u@h"), (Some("u".to_string()), "h".to_string()));
    assert_eq!(split_target("h"), (None, "h".to_string()));
    assert_eq!(split_target("@h"), (Some("".to_string()), "h".to_string()));
    assert_eq!(split_target("u@h@x"), (Some("u".to_string()), "h@x".to_string()));
    let e = entry_from_target("deploy@10.0.1.50", Some(22), Some("/k".to_string()), strs(&["prod"]));
    assert_eq!(e.hostname, "10.0.1.50");
    assert_eq!(e.user.as_deref(), Some("deploy"));
    assert_eq!(e.port, Some(22));
    assert_eq!(e.identity_file.as_deref(), Some("/k"));
    assert_eq!(e.tags, strs(&["prod"]));
}

#[test]
fn config_hosts_are_not_the_stores() {
    let hosts = list_all_hosts(&strs(&["conf"]), &[("kept".to_string(), entry("h"))]);
    assert!(is_config_managed(&hosts, "conf"));
    assert!(!is_config_managed(&hosts, "kept"));
    assert!(!is_config_managed(&hosts, "other"));
    assert_eq!(find_alias(&hosts, "kept"), Some(1));
    assert_eq!(find_alias(&hosts, "nope"), None);
}

#[test]
fn listing_shows_the_store_first() {
    let hosts = list_all_hosts(
        &strs(&["a", "m", "z"]),
        &[("y".to_string(), entry("h")), ("b".to_string(), entry("h"))],
    );
    let listed = sort_for_listing(hosts);
    let names: Vec<&str> = listed.iter().map(|h| h.alias.as_str()).collect();
    assert_eq!(names, vec!["b", "y", "a", "m", "z"]);
}

#[test]
fn unknown_targets_are_offered_for_saving() {
    let mut e = entry("10.0.0.1");
    e.user = Some("root".to_string());
    let hosts = list_all_hosts(&strs(&["conf"]), &[("web".to_string(), e)]);
    assert_eq!(save_offer(&strs(&["root@10.0.0.1"]), &hosts), SaveOffer::Nothing);
    assert_eq!(save_offer(&strs(&["root@web"]), &hosts), SaveOffer::Nothing);
    assert_eq!(save_offer(&strs(&["admin@10.0.0.1"]), &hosts), SaveOffer::NewUser);
    assert_eq!(save_offer(&strs(&["admin@conf"]), &hosts), SaveOffer::NewUser);
    assert_eq!(save_offer(&strs(&["-p", "22", "admin@new.example"]), &hosts), SaveOffer::NewHost);
    assert_eq!(save_offer(&strs(&["new.example"]), &hosts), SaveOffer::Nothing);
    assert_eq!(save_offer(&strs(&["-v"]), &hosts), SaveOffer::Nothing);
}

#[test]
fn the_answer_names_the_host() {
    assert_eq!(alias_from_reply(SaveOffer::NewHost, "\n", "h.example"), Some("h.example".to_string()));
    assert_eq!(alias_from_reply(SaveOffer::NewHost, " web \n", "h"), Some("web".to_string()));
    assert_eq!(alias_from_reply(SaveOffer::NewHost, "N\n", "h"), None);
    assert_eq!(alias_from_reply(SaveOffer::NewHost, "no", "h"), None);
    assert_eq!(alias_from_reply(SaveOffer::NewUser, "\n", "h"), None);
    assert_eq!(alias_from_reply(SaveOffer::NewUser, "n\n", "h"), Some("n".to_string()));
    assert_eq!(alias_from_reply(SaveOffer::Nothing, "web", "h"), None);
}

#[test]
fn tags_are_read_off_a_line() {
    assert_eq!(parse_tags("prod, web ,,db\n"), strs(&["prod", "web", "db"]));
    assert!(parse_tags("").is_empty());
    assert!(parse_tags(" , ,\n").is_empty());
    let e = entry_to_save(&strs(&["-p", "2222", "-i", "/k", "u@h"]), "u", "h", strs(&["t"]));
    assert_eq!(e.hostname, "h");
    assert_eq!(e.user.as_deref(), Some("u"));
    assert_eq!(e.port, Some(2222));
    assert_eq!(e.identity_file.as_deref(), Some("/k"));
    assert_eq!(e.tags, strs(&["t"]));
}
