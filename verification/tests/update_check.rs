use oken::update_check::{
    cache_entry, extract_tag_name, is_newer, is_update, parse_version, read_cached_tag,
    should_check, tag_from_member, TagError,
};

#[test]
fn detects_newer_version() {
    assert!(is_newer("0.2.0", "0.1.0"));
    assert!(is_newer("1.0.0", "0.9.9"));
    assert!(is_newer("0.1.1", "0.1.0"));
    assert!(!is_newer("0.1.0", "0.1.0"));
    assert!(!is_newer("0.0.9", "0.1.0"));
}

#[test]
fn extracts_tag_name() {
    let json = "{\"tag_name\":\"v0.2.0\",\"name\":\"oken v0.2.0\"}";
    assert_eq!(extract_tag_name(json).unwrap(), "v0.2.0");
}

#[test]
fn tag_name_must_be_there_and_be_text() {
    assert_eq!(extract_tag_name("{\"name\":\"x\"}"), Err(TagError::MissingTagName));
    assert_eq!(extract_tag_name("{\"tag_name\":7}"), Err(TagError::MissingTagName));
    assert_eq!(extract_tag_name("[1,2]"), Err(TagError::MissingTagName));
    assert_eq!(extract_tag_name("\"tag_name\""), Err(TagError::MissingTagName));
}

#[test]
fn answer_must_be_json() {
    assert_eq!(extract_tag_name("not json"), Err(TagError::InvalidJson));
    assert_eq!(extract_tag_name(""), Err(TagError::InvalidJson));
    assert_eq!(extract_tag_name("{\"tag_name\":\"v1\""), Err(TagError::InvalidJson));
}

#[test]
fn tag_follows_what_the_parser_found() {
    assert_eq!(tag_from_member(Ok(Some("v1.2.3".to_string()))), Ok("v1.2.3".to_string()));
    assert_eq!(tag_from_member(Ok(None)), Err(TagError::MissingTagName));
    let e = serde_json::from_str::<serde_json::Value>("{").unwrap_err();
    assert_eq!(tag_from_member(Err(e)), Err(TagError::InvalidJson));
}

#[test]
fn versions_are_read_in_three_numbers() {
    assert_eq!(parse_version("1.2.3"), Some((1, 2, 3)));
    assert_eq!(parse_version("1.2.3-beta.1"), Some((1, 2, 3)));
    assert_eq!(parse_version("1.2.3+build"), Some((1, 2, 3)));
    assert_eq!(parse_version("1.2.3.4"), Some((1, 2, 3)));
    assert_eq!(parse_version("01.002.3"), Some((1, 2, 3)));
    assert_eq!(parse_version("1.2"), None);
    assert_eq!(parse_version("1.2."), None);
    assert_eq!(parse_version("1.x.3"), None);
    assert_eq!(parse_version("v1.2.3"), None);
    assert_eq!(parse_version(""), None);
    assert_eq!(parse_version("4294967295.0.0"), Some((4294967295, 0, 0)));
    assert_eq!(parse_version("4294967296.0.0"), None);
}

#[test]
fn unreadable_versions_are_never_newer() {
    assert!(!is_newer("x", "0.1.0"));
    assert!(!is_newer("1.0.0", "x"));
    assert!(is_newer("0.10.0", "0.9.0"));
    assert!(is_newer("1.0.1-rc1", "1.0.0"));
    assert!(!is_newer("1.0.0-rc1", "1.0.0"));
}

#[test]
fn tags_may_carry_a_v() {
    assert!(is_update("v0.2.0", "0.1.0"));
    assert!(is_update("vv0.2.0", "0.1.0"));
    assert!(is_update("0.2.0", "0.1.0"));
    assert!(!is_update("v0.1.0", "0.1.0"));
    assert!(!is_update("v", "0.1.0"));
}

#[test]
fn cached_tag_is_the_second_word() {
    assert_eq!(read_cached_tag("1700000000\tv0.2.0"), Some("v0.2.0".to_string()));
    assert_eq!(read_cached_tag("1700000000 v0.2.0 extra\n"), Some("v0.2.0".to_string()));
    assert_eq!(read_cached_tag("1700000000"), None);
    assert_eq!(read_cached_tag(""), None);
}

#[test]
fn a_day_must_pass_between_two_looks() {
    assert!(should_check(None, 86_400));
    assert!(!should_check(None, 86_399));
    assert!(should_check(Some("1000\tv1"), 87_400));
    assert!(!should_check(Some("1000\tv1"), 87_399));
    assert!(!should_check(Some("5000\tv1"), 1000));
    assert!(should_check(Some("garbage"), 100_000));
    assert!(should_check(Some(""), 100_000));
}

#[test]
fn cache_entry_holds_time_and_tag() {
    assert_eq!(cache_entry(1700000000, "v0.2.0"), "1700000000\tv0.2.0");
    assert_eq!(read_cached_tag(&cache_entry(0, "v1")), Some("v1".to_string()));
}
