use statussentinel::identifier::{format_service_id, str_eq};

#[test]
fn normalize_example() {
    assert_eq!(format_service_id("My Service!").unwrap(), "my_service");
}

#[test]
fn normalize_rejects_all_stripped() {
    assert!(format_service_id("!!!").is_err());
    assert!(format_service_id("").is_err());
    assert!(format_service_id("\u{e9}\u{e8}").is_err());
}

#[test]
fn normalize_keeps_letters_digits_underscores() {
    assert_eq!(format_service_id("Hello World 123").unwrap(), "hello_world_123");
    assert_eq!(format_service_id("already_normal").unwrap(), "already_normal");
    assert_eq!(format_service_id("API-Gateway v2").unwrap(), "apigateway_v2");
}

#[test]
fn normalize_drops_non_ascii() {
    assert_eq!(format_service_id("caf\u{e9} shop").unwrap(), "caf_shop");
}

#[test]
fn normalize_lowercases_per_unicode_before_filtering() {
    // KELVIN SIGN lowercases to an ASCII 'k', which the filter keeps.
    assert_eq!(format_service_id("\u{212a}").unwrap(), "k");
    // LATIN CAPITAL I WITH DOT ABOVE lowercases to 'i' plus a combining
    // dot; the 'i' survives, the combining mark is dropped.
    assert_eq!(format_service_id("\u{130}").unwrap(), "i");
    // A capital with a non-ASCII lowercase is dropped entirely.
    assert_eq!(format_service_id("\u{c1}bc").unwrap(), "bc");
}

#[test]
fn str_eq_compares_contents() {
    assert!(str_eq("abc", "abc"));
    assert!(!str_eq("abc", "abd"));
    assert!(!str_eq("abc", "abcd"));
    assert!(str_eq("", ""));
}
