use phira_mp_plugin::error::Error;
use phira_mp_plugin::text::{
    chars_of, contains_char, decimal, find_last, join2, join3, join_strings, list_contains,
    starts_with, str_eq, string_of,
};

#[test]
fn numbers_are_written_in_decimal() {
    assert_eq!(decimal(0), "0");
    assert_eq!(decimal(7), "7");
    assert_eq!(decimal(10), "10");
    assert_eq!(decimal(1234567890), "1234567890");
    assert_eq!(decimal(u64::MAX), "18446744073709551615");
}

#[test]
fn texts_are_compared_searched_and_joined() {
    assert!(str_eq("", ""));
    assert!(str_eq("héllo", "héllo"));
    assert!(!str_eq("hello", "hellp"));
    assert!(!str_eq("hello", "hell"));
    assert!(starts_with("/tmp/file", "/tmp"));
    assert!(starts_with("/tmp", "/tmp"));
    assert!(starts_with("x", ""));
    assert!(!starts_with("/tm", "/tmp"));
    assert!(contains_char("1.0", '.'));
    assert!(!contains_char("10", '.'));
    let chars = chars_of("a.b.c");
    assert_eq!(chars, vec!['a', '.', 'b', '.', 'c']);
    assert_eq!(find_last(&chars, '.'), Some(3));
    assert_eq!(find_last(&chars, 'x'), None);
    assert_eq!(string_of(&chars, 2, 5), "b.c");
    assert_eq!(string_of(&chars, 2, 2), "");
    assert_eq!(join2("ab", "cd"), "abcd");
    assert_eq!(join3("a", "", "c"), "ac");
    let parts = vec!["x".to_string(), "".to_string(), "z".to_string()];
    assert_eq!(join_strings(&parts, ", "), "x, , z");
    assert_eq!(join_strings(&Vec::new(), ", "), "");
    assert_eq!(join_strings(&vec!["one".to_string()], ", "), "one");
    assert!(list_contains(&parts, ""));
    assert!(!list_contains(&parts, "y"));
}

#[test]
fn errors_are_described_by_kind_and_message() {
    let cases = vec![
        (Error::Io("m".to_string()), "I/O error: m"),
        (Error::InvalidManifest("m".to_string()), "Invalid plugin manifest: m"),
        (Error::Dependency("m".to_string()), "Plugin dependency error: m"),
        (Error::Config("m".to_string()), "Plugin configuration error: m"),
        (Error::Runtime("m".to_string()), "Plugin runtime error: m"),
        (Error::AlreadyLoaded("m".to_string()), "Plugin already loaded: m"),
        (Error::NotFound("m".to_string()), "Plugin not found: m"),
        (Error::UnsupportedAbiVersion("m".to_string()), "Unsupported plugin ABI version: m"),
        (Error::SecurityViolation("m".to_string()), "Security violation: m"),
        (Error::Event("m".to_string()), "Event system error: m"),
        (Error::Command("m".to_string()), "Command system error: m"),
        (Error::Api("m".to_string()), "API error: m"),
        (Error::Serialization("m".to_string()), "Serialization error: m"),
        (Error::Other("m".to_string()), "Other error: m"),
    ];
    for (error, text) in cases {
        assert_eq!(error.describe(), text);
        assert_eq!(error.message(), "m");
    }
}

#[test]
fn a_bare_message_is_an_error_of_the_kind_other() {
    match Error::from("plain".to_string()) {
        Error::Other(m) => assert_eq!(m, "plain"),
        other => panic!("unexpected error {:?}", other),
    }
}
