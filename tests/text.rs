use json_props::config::{Config, ConfigValidationError, EntrySeparator, ListHandling, PathStatus};
use json_props::json::{primitive_to_string, JsonValue};
use json_props::prop_key::compare_text;
use json_props::text::{index_text, is_white_space_char, normalise};
use std::cmp::Ordering;

#[test]
fn normalise_keeps_or_drops_leading_whitespace() {
    assert_eq!(normalise(String::from("  bar"), false), "\\  bar");
    assert_eq!(normalise(String::from("  bar"), true), "bar");
    assert_eq!(normalise(String::from("bar"), false), "bar");
    assert_eq!(normalise(String::from("bar"), true), "bar");
    assert_eq!(normalise(String::from(""), true), "");
    assert_eq!(normalise(String::from("   "), true), "");
    assert_eq!(normalise(String::from("\t\n x "), true), "x ");
    assert_eq!(normalise(String::from("\u{3000}x"), true), "x");
    assert_eq!(normalise(String::from("\u{3000}x"), false), "\\\u{3000}x");
}

#[test]
fn whitespace_follows_the_unicode_property() {
    for c in ['\t', '\n', '\u{b}', '\u{c}', '\r', ' ', '\u{85}', '\u{a0}', '\u{1680}', '\u{2000}', '\u{200a}', '\u{2028}', '\u{2029}', '\u{202f}', '\u{205f}', '\u{3000}'] {
        assert!(is_white_space_char(c), "{:?}", c);
    }
    for c in ['a', '\u{200b}', '\u{feff}', '\u{180e}', '_', '\u{0}'] {
        assert!(!is_white_space_char(c), "{:?}", c);
    }
    for u in 0u32..0x3100 {
        if let Some(c) = char::from_u32(u) {
            assert_eq!(is_white_space_char(c), c.is_whitespace(), "{:?}", c);
        }
    }
}

#[test]
fn index_text_is_decimal() {
    assert_eq!(index_text(0), "0");
    assert_eq!(index_text(7), "7");
    assert_eq!(index_text(10), "10");
    assert_eq!(index_text(12345), "12345");
    assert_eq!(index_text(usize::MAX), usize::MAX.to_string());
}

#[test]
fn compare_text_is_lexicographic() {
    assert_eq!(compare_text("a", "b"), Ordering::Less);
    assert_eq!(compare_text("b", "a"), Ordering::Greater);
    assert_eq!(compare_text("ab", "ab"), Ordering::Equal);
    assert_eq!(compare_text("a", "ab"), Ordering::Less);
    assert_eq!(compare_text("", ""), Ordering::Equal);
    assert_eq!(compare_text("é", "z"), Ordering::Greater);
}

#[test]
fn primitive_texts() {
    assert_eq!(primitive_to_string(&JsonValue::Null), "null");
    assert_eq!(primitive_to_string(&JsonValue::Bool(true)), "true");
    assert_eq!(primitive_to_string(&JsonValue::Bool(false)), "false");
    assert_eq!(primitive_to_string(&JsonValue::Number(String::from("1.5"))), "1.5");
    assert_eq!(primitive_to_string(&JsonValue::String(String::from(" s"))), " s");
}

#[test]
fn empty_config_defaults() {
    let c = Config::empty();
    assert_eq!(c.source(), "");
    assert!(c.dest().is_none());
    assert!(c.debug);
    assert_eq!(*c.list_handling(), ListHandling::MultiProp);
    assert_eq!(c.entry_separator(), "=");
    assert!(!c.discard_wsp());
}

#[test]
fn config_getters() {
    let c = Config::new(
        String::from("in.json"),
        Some(String::from("out.properties")),
        false,
        ListHandling::SingleProp,
        EntrySeparator::Colon,
        true,
    );
    assert_eq!(c.source(), "in.json");
    assert_eq!(c.dest(), Some("out.properties"));
    assert_eq!(*c.list_handling(), ListHandling::SingleProp);
    assert_eq!(c.entry_separator(), ":");
    assert!(c.discard_wsp());
    let space = Config::new(String::new(), None, false, ListHandling::MultiProp, EntrySeparator::Space, false);
    assert_eq!(space.entry_separator(), " ");
}

fn config(dest: Option<&str>) -> Config {
    Config::new(
        String::from("src.json"),
        dest.map(String::from),
        false,
        ListHandling::SingleProp,
        EntrySeparator::Equals,
        false,
    )
}

#[test]
fn validate_accepts_an_existing_source() {
    let c = config(Some("out")).validate(PathStatus::Exists, PathStatus::Missing).unwrap();
    assert_eq!(c.source(), "src.json");
    assert_eq!(c.dest(), Some("out"));
    assert!(config(None).validate(PathStatus::Exists, PathStatus::Inaccessible).is_ok());
    assert!(config(Some("out")).validate(PathStatus::Exists, PathStatus::Exists).is_ok());
}

#[test]
fn validate_refuses_a_missing_source() {
    let e = config(None).validate(PathStatus::Missing, PathStatus::Exists).unwrap_err();
    assert_eq!(e, ConfigValidationError::MissingFileError(String::from("src.json")));
    assert_eq!(e.message(), "File does not exist: src.json");
}

#[test]
fn validate_refuses_an_unreadable_source() {
    let e = config(Some("out")).validate(PathStatus::Inaccessible, PathStatus::Inaccessible).unwrap_err();
    assert_eq!(e, ConfigValidationError::InvalidPathError(String::from("src.json")));
    assert_eq!(e.message(), "Invalid filepath: src.json");
}

#[test]
fn validate_refuses_an_unreadable_destination() {
    let e = config(Some("out")).validate(PathStatus::Exists, PathStatus::Inaccessible).unwrap_err();
    assert_eq!(e, ConfigValidationError::InvalidPathError(String::from("out")));
}
