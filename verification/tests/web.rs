use rbxfs::text::{ends_with, starts_with, without_suffix};
use rbxfs::web::{read_json_text, MAX_BODY_SIZE};

#[test]
fn a_json_body_is_accepted_as_text() {
    assert_eq!(
        read_json_text(Some("application/json"), b"[[\"game\"]]"),
        Some("[[\"game\"]]".to_string())
    );
    assert_eq!(
        read_json_text(Some("application/json; charset=utf-8"), "h\u{e9}".as_bytes()),
        Some("h\u{e9}".to_string())
    );
    assert_eq!(read_json_text(Some("application/json"), b""), Some(String::new()));
}

#[test]
fn another_content_type_is_refused() {
    assert_eq!(read_json_text(None, b"{}"), None);
    assert_eq!(read_json_text(Some("text/plain"), b"{}"), None);
    assert_eq!(read_json_text(Some("application/jso"), b"{}"), None);
    assert_eq!(read_json_text(Some(" application/json"), b"{}"), None);
}

#[test]
fn a_body_that_is_not_text_is_refused() {
    assert_eq!(read_json_text(Some("application/json"), &[0x7b, 0xff, 0x7d]), None);
}

#[test]
fn a_body_over_the_limit_is_refused() {
    assert_eq!(MAX_BODY_SIZE, 26_240_000);
    let at_limit = vec![b' '; MAX_BODY_SIZE];
    assert!(read_json_text(Some("application/json"), &at_limit).is_some());
    let over = vec![b' '; MAX_BODY_SIZE + 1];
    assert_eq!(read_json_text(Some("application/json"), &over), None);
}

#[test]
fn starts_with_compares_from_the_front() {
    assert!(starts_with("application/json", ""));
    assert!(starts_with("abc", "abc"));
    assert!(starts_with("abcd", "abc"));
    assert!(!starts_with("ab", "abc"));
    assert!(!starts_with("xabc", "abc"));
}

#[test]
fn without_suffix_takes_the_ending_away() {
    assert_eq!(without_suffix("main.lua", ".lua"), "main");
    assert_eq!(without_suffix("main.lua", ".json"), "main.lua");
    assert_eq!(without_suffix(".lua", ".lua"), "");
    assert_eq!(without_suffix("lua", ".lua"), "lua");
    assert_eq!(without_suffix("h\u{e9}.lua", ".lua"), "h\u{e9}");
    assert_eq!(without_suffix("a.lua.lua", ".lua"), "a.lua");
    assert!(ends_with("a.model.json", ".model.json"));
    assert!(!ends_with("a.model.json", ".lua"));
    assert!(ends_with("x", ""));
}
