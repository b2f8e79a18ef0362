use oken::connect::{
    build_ssh_args, danger_matches, inject_keepalive, is_affirmative, is_oken_flag, warning_text,
};
use oken::hosts::{Host, HostSource};
use oken::ssh::{
    extract_identity_file, extract_port, extract_ssh_flags, extract_target_host,
    extract_target_host_full, resolve_arguments,
};

fn args_of(items: &[&str]) -> Vec<String> {
    items.iter().map(|s| s.to_string()).collect()
}

fn plain_host(alias: &str) -> Host {
    Host {
        alias: alias.to_string(),
        hostname: None,
        user: None,
        port: None,
        identity_file: None,
        tags: Vec::new(),
        source: HostSource::SshConfig,
    }
}

#[test]
fn target_after_flags_with_values() {
    let args = args_of(&["-p", "22", "-i", "/k", "user@host"]);
    assert_eq!(extract_target_host(&args), Some("host".to_string()));
    assert_eq!(extract_target_host_full(&args), Some("user@host".to_string()));
}

#[test]
fn no_positional_gives_none() {
    let args = args_of(&["-v", "-N"]);
    assert_eq!(extract_target_host(&args), None);
    assert_eq!(extract_target_host_full(&args), None);
}

#[test]
fn empty_arguments_give_none() {
    let args: Vec<String> = Vec::new();
    assert_eq!(extract_target_host(&args), None);
    assert_eq!(extract_port(&args), None);
    assert_eq!(extract_identity_file(&args), None);
    assert!(extract_ssh_flags(&args).is_empty());
}

#[test]
fn value_flag_at_the_end_has_no_target() {
    let args = args_of(&["-v", "-p"]);
    assert_eq!(extract_target_host(&args), None);
    assert_eq!(extract_port(&args), None);
}

#[test]
fn target_splits_on_first_at() {
    let args = args_of(&["a@b@c"]);
    assert_eq!(extract_target_host(&args), Some("b@c".to_string()));
    assert_eq!(extract_target_host_full(&args), Some("a@b@c".to_string()));
}

#[test]
fn value_of_a_flag_is_not_a_target() {
    let args = args_of(&["-L", "5432:localhost:5432", "-J", "jump", "db"]);
    assert_eq!(extract_target_host(&args), Some("db".to_string()));
}

#[test]
fn every_value_flag_consumes_the_next_token() {
    for flag in [
        "-p", "-i", "-o", "-l", "-L", "-R", "-D", "-F", "-J", "-W", "-b", "-c", "-m", "-e", "-S",
        "-E", "-B", "-w", "-O",
    ] {
        let args = args_of(&[flag, "value", "target"]);
        assert_eq!(extract_target_host(&args), Some("target".to_string()));
    }
    let args = args_of(&["-T", "value", "target"]);
    assert_eq!(extract_target_host(&args), Some("value".to_string()));
}

#[test]
fn port_is_parsed_or_absent() {
    assert_eq!(extract_port(&args_of(&["-p", "2222", "h"])), Some(2222));
    assert_eq!(extract_port(&args_of(&["-p", "+22", "h"])), Some(22));
    assert_eq!(extract_port(&args_of(&["-p", "0022", "h"])), Some(22));
    assert_eq!(extract_port(&args_of(&["-p", "65535", "h"])), Some(65535));
    assert_eq!(extract_port(&args_of(&["-p", "65536", "h"])), None);
    assert_eq!(extract_port(&args_of(&["-p", "ssh", "h"])), None);
    assert_eq!(extract_port(&args_of(&["-p", "", "h"])), None);
    assert_eq!(extract_port(&args_of(&["-p", "-1", "h"])), None);
    assert_eq!(extract_port(&args_of(&["h"])), None);
    assert_eq!(extract_port(&args_of(&["-p", "x", "-p", "22"])), None);
}

#[test]
fn identity_file_is_the_value_of_the_first_flag() {
    assert_eq!(
        extract_identity_file(&args_of(&["-i", "/k", "-i", "/other", "h"])),
        Some("/k".to_string())
    );
    assert_eq!(extract_identity_file(&args_of(&["h", "-i"])), None);
}

#[test]
fn flags_are_kept_and_positionals_dropped() {
    let args = args_of(&["-L", "1:a:2", "db", "-N", "-v", "extra", "-p"]);
    assert_eq!(extract_ssh_flags(&args), args_of(&["-L", "1:a:2", "-N", "-v", "-p"]));
}

#[test]
fn arguments_resolve_to_a_record() {
    let r = resolve_arguments(&args_of(&["-p", "22", "-i", "/k", "user@host"]));
    assert_eq!(r.target, Some("user@host".to_string()));
    assert_eq!(r.host_only, Some("host".to_string()));
    assert_eq!(r.port, Some(22));
    assert_eq!(r.identity_file, Some("/k".to_string()));
}

#[test]
fn keepalive_is_prepended_once() {
    let mut args = args_of(&["user@host"]);
    inject_keepalive(&mut args, 60);
    assert_eq!(
        args,
        args_of(&["-o", "ServerAliveInterval=60", "-o", "ServerAliveCountMax=3", "user@host"])
    );
    let once = args.clone();
    inject_keepalive(&mut args, 60);
    assert_eq!(args, once);
    inject_keepalive(&mut args, 15);
    assert_eq!(args, once);
}

#[test]
fn keepalive_of_the_user_is_kept() {
    let mut args = args_of(&["-o", "ServerAliveInterval=5", "host"]);
    let before = args.clone();
    inject_keepalive(&mut args, 60);
    assert_eq!(args, before);
    let mut args = args_of(&["-oServerAliveInterval=5", "host"]);
    let before = args.clone();
    inject_keepalive(&mut args, 60);
    assert_eq!(args, before);
}

#[test]
fn keepalive_interval_is_written_in_decimal() {
    let mut args: Vec<String> = Vec::new();
    inject_keepalive(&mut args, 0);
    assert_eq!(args[1], "ServerAliveInterval=0");
    let mut args: Vec<String> = Vec::new();
    inject_keepalive(&mut args, 4294967295);
    assert_eq!(args[1], "ServerAliveInterval=4294967295");
}

#[test]
fn arguments_for_a_stored_host() {
    let mut h = plain_host("web");
    h.hostname = Some("10.0.1.50".to_string());
    h.user = Some("deploy".to_string());
    h.port = Some(2222);
    h.identity_file = Some("~/.ssh/key".to_string());
    h.source = HostSource::HostsToml;
    assert_eq!(build_ssh_args(&h), args_of(&["deploy@10.0.1.50", "-p", "2222", "-i", "~/.ssh/key"]));
    h.user = None;
    h.port = None;
    assert_eq!(build_ssh_args(&h), args_of(&["10.0.1.50", "-i", "~/.ssh/key"]));
}

#[test]
fn arguments_for_a_config_host_are_its_alias() {
    let h = plain_host("bastion");
    assert_eq!(build_ssh_args(&h), args_of(&["bastion"]));
    let mut h = plain_host("bastion");
    h.user = Some("root".to_string());
    assert_eq!(build_ssh_args(&h), args_of(&["bastion"]));
}

#[test]
fn danger_tags_match_without_case() {
    let mut h = plain_host("db");
    h.tags = args_of(&["web", "PROD", "Production", "dev"]);
    let danger = args_of(&["prod", "production"]);
    assert_eq!(danger_matches(&h, &danger), args_of(&["PROD", "Production"]));
    assert!(danger_matches(&plain_host("x"), &danger).is_empty());
    assert_eq!(
        warning_text("db", &args_of(&["PROD", "Production"])),
        "'db' is tagged [PROD, Production]"
    );
}

#[test]
fn yes_is_recognised() {
    assert!(is_affirmative("y"));
    assert!(is_affirmative(" YES\n"));
    assert!(is_affirmative("Yes"));
    assert!(!is_affirmative(""));
    assert!(!is_affirmative("n"));
    assert!(!is_affirmative("yess"));
}

#[test]
fn own_flags_are_recognised() {
    for f in ["--help", "-h", "--version", "-V", "--tag", "--yes", "--no-reconnect"] {
        assert!(is_oken_flag(f));
    }
    assert!(!is_oken_flag("-v"));
    assert!(!is_oken_flag("--Help"));
    assert!(!is_oken_flag(""));
}
