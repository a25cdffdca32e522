use record_identity::errors::ReconcileError;
use record_identity::identifier::{IdTraits, IdentifierValue, KeyValue};

fn ident(collection: &str, key: KeyValue) -> IdentifierValue {
    IdentifierValue::new(collection.to_string(), key).expect("constructible identifier")
}

#[test]
fn round_trip_textual_key() {
    let v = ident("users", KeyValue::Textual("alice".to_string()));
    let s = v.canonical_string();
    assert_eq!(s, "users:alice");
    let parsed = IdentifierValue::parse(&s).unwrap();
    assert!(parsed == v);
}

#[test]
fn round_trip_numeric_key() {
    let v = ident("building_tbl", KeyValue::Numeric(1234567890));
    let s = v.canonical_string();
    assert_eq!(s, "building_tbl:⟦1234567890⟧");
    let parsed = IdentifierValue::parse(&s).unwrap();
    assert!(parsed == v);
}

#[test]
fn round_trip_negative_numeric_key() {
    let v = ident("t", KeyValue::Numeric(-42));
    let s = v.canonical_string();
    assert_eq!(s, "t:⟦-42⟧");
    let parsed = IdentifierValue::parse(&s).unwrap();
    assert!(parsed == v);
}

#[test]
fn round_trip_numeric_extremes() {
    for n in [i64::MIN, i64::MAX, 0, -1, 1] {
        let v = ident("k", KeyValue::Numeric(n));
        let parsed = IdentifierValue::parse(&v.canonical_string()).unwrap();
        assert!(parsed == v);
    }
}

#[test]
fn round_trip_structured_key() {
    let v = ident("t", KeyValue::Structured("a, b".to_string()));
    let s = v.canonical_string();
    assert_eq!(s, "t:⟦a, b⟧");
    let parsed = IdentifierValue::parse(&s).unwrap();
    assert!(parsed == v);
}

#[test]
fn bracket_glyphs_surround_numeric_key() {
    let v = ident("building_tbl", KeyValue::Numeric(1234567890));
    let s = v.canonical_string();
    assert!(s.contains("⟦1234567890⟧"));
    assert!(!s.contains('<'));
    assert!(!s.contains('>'));
}

#[test]
fn raw_key_has_no_brackets() {
    let v = ident("building_tbl", KeyValue::Numeric(1234567890));
    assert_eq!(v.raw_key(), "1234567890");
    assert_eq!(v.collection(), "building_tbl");
}

#[test]
fn identity_surface_of_seeded_record() {
    let v = ident("building_tbl", KeyValue::Numeric(1234567890));
    assert_eq!(v.get_tbl(), "building_tbl");
    assert_eq!(v.get_id(), "1234567890");
    assert_eq!(v.get_tbl_id(), "building_tbl:⟦1234567890⟧");
}

#[test]
fn identity_surface_of_textual_record() {
    let v = ident("users", KeyValue::Textual("alice".to_string()));
    assert_eq!(v.get_tbl_id(), "users:alice");
    assert_eq!(v.get_id(), "alice");
    assert_eq!(v.get_tbl(), "users");
}

#[test]
fn parse_keeps_separators_inside_key() {
    let v = IdentifierValue::parse("tbl:a:b").unwrap();
    assert_eq!(v.collection(), "tbl");
    assert_eq!(v.raw_key(), "a:b");
}

#[test]
fn parse_without_separator_is_malformed() {
    let e = IdentifierValue::parse("nocolon").unwrap_err();
    assert!(matches!(e, ReconcileError::MalformedIdentifier));
}

#[test]
fn parse_classifies_non_canonical_digits_as_structured() {
    // A leading zero is not the canonical rendering of any integer.
    let v = IdentifierValue::parse("t:⟦007⟧").unwrap();
    let w = ident("t", KeyValue::Structured("007".to_string()));
    assert!(v == w);
}

#[test]
fn parse_classifies_negative_zero_as_structured() {
    let v = IdentifierValue::parse("t:⟦-0⟧").unwrap();
    let w = ident("t", KeyValue::Structured("-0".to_string()));
    assert!(v == w);
}

#[test]
fn parse_classifies_out_of_range_number_as_structured() {
    let v = IdentifierValue::parse("t:⟦9223372036854775808⟧").unwrap();
    let w = ident("t", KeyValue::Structured("9223372036854775808".to_string()));
    assert!(v == w);
}

#[test]
fn parse_of_empty_brackets_is_structured() {
    let v = IdentifierValue::parse("t:⟦⟧").unwrap();
    let w = ident("t", KeyValue::Structured(String::new()));
    assert!(v == w);
}

#[test]
fn constructor_refuses_unconstructible_values() {
    assert!(IdentifierValue::new(
        "a:b".to_string(),
        KeyValue::Textual("x".to_string())
    )
    .is_none());
    assert!(IdentifierValue::new(
        "t".to_string(),
        KeyValue::Textual("⟦x⟧".to_string())
    )
    .is_none());
    assert!(IdentifierValue::new(
        "t".to_string(),
        KeyValue::Structured("123".to_string())
    )
    .is_none());
}

#[test]
fn digit_rendering_is_decimal() {
    assert_eq!(record_identity::digits::u64_digits(0), "0");
    assert_eq!(record_identity::digits::u64_digits(90210), "90210");
    assert_eq!(record_identity::digits::i64_render(-42), "-42");
    assert_eq!(record_identity::digits::parse_numeric("1234567890"), Some(1234567890));
    assert_eq!(record_identity::digits::parse_numeric("01"), None);
    assert_eq!(record_identity::digits::parse_numeric(""), None);
    assert_eq!(
        record_identity::digits::parse_numeric("-9223372036854775808"),
        Some(i64::MIN)
    );
    assert_eq!(record_identity::digits::parse_numeric("9223372036854775808"), None);
}
