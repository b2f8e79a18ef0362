use oken::config_scan::{
    expand_tilde, insert_sorted, join_path, resolve_include, sorted_unique, ConfigScan,
};
use oken::ssh_config::{parse_config, split_keyword, ConfigItem};

fn aliases_in(items: &[ConfigItem]) -> Vec<String> {
    let mut out = Vec::new();
    for item in items {
        if let ConfigItem::Alias(a) = item {
            out.push(a.clone());
        }
    }
    out
}

fn patterns_in(items: &[ConfigItem]) -> Vec<String> {
    let mut out = Vec::new();
    for item in items {
        if let ConfigItem::Include(p) = item {
            out.push(p.clone());
        }
    }
    out
}

fn texts(items: &[&str]) -> Vec<String> {
    items.iter().map(|s| s.to_string()).collect()
}

#[test]
fn parse_host_lines() {
    let items = parse_config(
        "Host foo bar\n  HostName example.com\n\nHost *.wild\n  HostName w.com\n\nHost baz\n  HostName b.com\n",
    );
    let hosts = aliases_in(&items);
    assert!(hosts.contains(&"foo".to_string()));
    assert!(hosts.contains(&"bar".to_string()));
    assert!(hosts.contains(&"baz".to_string()));
    assert!(!hosts.iter().any(|h| h.contains('*')));
}

#[test]
fn include_directive() {
    let mut scan = ConfigScan::new();
    assert!(scan.enter("/home/u/.ssh/config"));
    let items = parse_config("Include /home/u/.ssh/extra\nHost main-host\n");
    assert_eq!(patterns_in(&items), texts(&["/home/u/.ssh/extra"]));
    for a in aliases_in(&items) {
        scan.add_alias(a);
    }
    assert!(scan.enter("/home/u/.ssh/extra"));
    for a in aliases_in(&parse_config("Host included-host\n  HostName i.com\n")) {
        scan.add_alias(a);
    }
    let hosts = scan.finish();
    assert!(hosts.contains(&"main-host".to_string()));
    assert!(hosts.contains(&"included-host".to_string()));
}

#[test]
fn wildcard_aliases_are_left_out() {
    let items = parse_config("Host a b\nHost *.x\nHost c");
    assert_eq!(aliases_in(&items), texts(&["a", "b", "c"]));
    assert!(patterns_in(&items).is_empty());
    let items = parse_config("Host web? db*1 plain");
    assert_eq!(aliases_in(&items), texts(&["plain"]));
}

#[test]
fn include_after_match_is_passed_over() {
    let items = parse_config("Match host x\nInclude extra\n");
    assert!(patterns_in(&items).is_empty());
    let items = parse_config("Include extra\nMatch host x\n");
    assert_eq!(patterns_in(&items), texts(&["extra"]));
    let items = parse_config("Match all\n  User u\nInclude one\nHost a\nInclude two\n");
    assert_eq!(patterns_in(&items), texts(&["two"]));
    assert_eq!(aliases_in(&items), texts(&["a"]));
}

#[test]
fn items_keep_the_order_of_the_lines() {
    let items = parse_config("Host z\nInclude conf.d/*\nHost a\n");
    assert_eq!(items.len(), 3);
    assert!(matches!(&items[0], ConfigItem::Alias(a) if a == "z"));
    assert!(matches!(&items[1], ConfigItem::Include(p) if p == "conf.d/*"));
    assert!(matches!(&items[2], ConfigItem::Alias(a) if a == "a"));
}

#[test]
fn comments_and_blank_lines_are_skipped() {
    let items = parse_config("# Host commented\n\n   \n  # Include x\n\tHost real\r\n");
    assert_eq!(aliases_in(&items), texts(&["real"]));
    assert!(parse_config("").is_empty());
    assert!(parse_config("\n\n").is_empty());
}

#[test]
fn keywords_ignore_case_and_accept_equals() {
    let items = parse_config("HOST a\nhost=b\ninclude = more\nhOsT  c   d\nHostName h\n");
    assert_eq!(aliases_in(&items), texts(&["a", "b", "c", "d"]));
    assert_eq!(patterns_in(&items), texts(&["more"]));
}

#[test]
fn keyword_and_value_are_split() {
    assert_eq!(split_keyword("Host foo"), Some(("Host".to_string(), "foo".to_string())));
    assert_eq!(split_keyword("Host=foo"), Some(("Host".to_string(), "foo".to_string())));
    assert_eq!(split_keyword("Host = foo bar"), Some(("Host".to_string(), "foo bar".to_string())));
    assert_eq!(split_keyword("Host\t  foo"), Some(("Host".to_string(), "foo".to_string())));
    assert_eq!(split_keyword("Host"), None);
    assert_eq!(split_keyword(""), None);
    assert_eq!(split_keyword("=x"), None);
    assert_eq!(split_keyword("Key ="), Some(("Key".to_string(), "=".to_string())));
    assert_eq!(
        split_keyword("ProxyCommand ssh -o A=b h"),
        Some(("ProxyCommand ssh -o A".to_string(), "b h".to_string()))
    );
}

#[test]
fn tilde_is_expanded() {
    assert_eq!(expand_tilde("~/.ssh/extra", "/home/u"), "/home/u/.ssh/extra");
    assert_eq!(expand_tilde("~", "/home/u"), "/home/u");
    assert_eq!(expand_tilde("~x/y", "/home/u"), "~x/y");
    assert_eq!(expand_tilde("conf.d/*", "/home/u"), "conf.d/*");
    assert_eq!(expand_tilde("~/", "/home/u"), "/home/u/");
    assert_eq!(expand_tilde("~/a", "/home/u/"), "/home/u/a");
    assert_eq!(expand_tilde("~//etc/x", "/home/u"), "/etc/x");
    assert_eq!(expand_tilde("", "/home/u"), "");
}

#[test]
fn paths_are_joined() {
    assert_eq!(join_path("/a", "b"), "/a/b");
    assert_eq!(join_path("/a/", "b"), "/a/b");
    assert_eq!(join_path("/a", "/b"), "/b");
    assert_eq!(join_path("", "b"), "b");
    assert_eq!(join_path("/a", ""), "/a/");
}

#[test]
fn include_patterns_are_resolved() {
    assert_eq!(resolve_include("/etc/ssh/x", "/home/u", Some("/home/u/.ssh")), "/etc/ssh/x");
    assert_eq!(resolve_include("~/x", "/home/u", Some("/etc")), "/home/u/x");
    assert_eq!(resolve_include("conf.d/*", "/home/u", Some("/home/u/.ssh")), "/home/u/.ssh/conf.d/*");
    assert_eq!(resolve_include("conf.d/*", "/home/u", None), "/home/u/conf.d/*");
}

#[test]
fn aliases_come_out_sorted_and_once() {
    let list = texts(&["b", "a", "c", "a", "B", "ab", "", "b"]);
    assert_eq!(sorted_unique(&list), texts(&["", "B", "a", "ab", "b", "c"]));
    assert!(sorted_unique(&[]).is_empty());
    let mut v = texts(&["a", "c"]);
    insert_sorted(&mut v, "b".to_string());
    insert_sorted(&mut v, "c".to_string());
    assert_eq!(v, texts(&["a", "b", "c"]));
}

#[test]
fn a_file_is_read_once() {
    let mut scan = ConfigScan::new();
    assert!(scan.enter("/a"));
    assert!(scan.enter("/b"));
    assert!(!scan.enter("/a"));
    assert!(!scan.enter("/b"));
    assert_eq!(scan.visited, texts(&["/a", "/b"]));
    assert!(scan.finish().is_empty());
}
