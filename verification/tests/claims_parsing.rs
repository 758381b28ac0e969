//! The flat JSON reader, the decimal scaling, and the small web-surface
//! decision helpers.

use gps_auth::claims::{is_valid_jwt_id, is_valid_latitude, is_valid_longitude};
use gps_auth::jsonflat::{num_to_u64, parse_decimal_micro, parse_flat_object, JsonNum, JsonValue};
use gps_auth::webmisc::{
    content_type_for_path, parse_severity, parse_severity_exact, parse_simple_gps_line, Severity,
};

#[test]
fn decimal_micro_scales_and_rounds_away_from_zero() {
    assert_eq!(parse_decimal_micro(b"37.7749"), Some(37_774_900));
    assert_eq!(parse_decimal_micro(b"-122.4194"), Some(-122_419_400));
    assert_eq!(parse_decimal_micro(b"0"), Some(0));
    assert_eq!(parse_decimal_micro(b"90"), Some(90_000_000));
    assert_eq!(parse_decimal_micro(b"90.0000001"), Some(90_000_001));
    assert_eq!(parse_decimal_micro(b"-90.0000001"), Some(-90_000_001));
    assert_eq!(parse_decimal_micro(b"0.1234567"), Some(123_457));
    assert_eq!(parse_decimal_micro(b"0.1234560"), Some(123_456));
}

#[test]
fn decimal_micro_refuses_what_is_not_one_plain_number() {
    assert_eq!(parse_decimal_micro(b""), None);
    assert_eq!(parse_decimal_micro(b"1e5"), None);
    assert_eq!(parse_decimal_micro(b"007"), None);
    assert_eq!(parse_decimal_micro(b"1."), None);
    assert_eq!(parse_decimal_micro(b".5"), None);
    assert_eq!(parse_decimal_micro(b"--1"), None);
    assert_eq!(parse_decimal_micro(b"1 "), None);
    assert_eq!(parse_decimal_micro(b"NaN"), None);
}

#[test]
fn huge_decimal_saturates_out_of_every_coordinate_range() {
    let v = parse_decimal_micro(b"99999999999999999999999999").unwrap();
    assert_eq!(v, i64::MAX);
    assert!(!is_valid_latitude(v));
    assert!(!is_valid_longitude(v));
    let v = parse_decimal_micro(b"-99999999999999999999999999").unwrap();
    assert_eq!(v, -i64::MAX);
    assert!(!is_valid_latitude(v));
}

#[test]
fn whole_second_values_parse_exactly() {
    let n = JsonNum { neg: false, int_digits: b"18446744073709551615".to_vec(), frac_digits: vec![] };
    assert_eq!(num_to_u64(&n), Some(u64::MAX));
    let n = JsonNum { neg: false, int_digits: b"18446744073709551616".to_vec(), frac_digits: vec![] };
    assert_eq!(num_to_u64(&n), None);
    let n = JsonNum { neg: true, int_digits: b"5".to_vec(), frac_digits: vec![] };
    assert_eq!(num_to_u64(&n), None);
    let n = JsonNum { neg: false, int_digits: b"5".to_vec(), frac_digits: b"0".to_vec() };
    assert_eq!(num_to_u64(&n), None);
}

#[test]
fn flat_object_reader_accepts_the_profile_header() {
    let ms = parse_flat_object(br#"{"alg":"HS256","typ":"JWT"}"#).unwrap();
    assert_eq!(ms.len(), 2);
    assert_eq!(ms[0].0, b"alg".to_vec());
    match &ms[0].1 {
        JsonValue::Str(s) => assert_eq!(s, &b"HS256".to_vec()),
        _ => panic!("alg should be a string"),
    }
}

#[test]
fn flat_object_reader_handles_whitespace_and_empty_objects() {
    assert!(parse_flat_object(b" { } ").unwrap().is_empty());
    let ms = parse_flat_object(b" {\t\"a\" : 1 ,\n\"b\" : \"x\" } ").unwrap();
    assert_eq!(ms.len(), 2);
}

#[test]
fn flat_object_reader_fails_closed() {
    assert!(parse_flat_object(b"").is_none());
    assert!(parse_flat_object(b"null").is_none());
    assert!(parse_flat_object(b"[1,2]").is_none());
    assert!(parse_flat_object(br#"{"a":{"b":1}}"#).is_none());
    assert!(parse_flat_object(br#"{"a":true}"#).is_none());
    assert!(parse_flat_object(br#"{"a":"b\n"}"#).is_none());
    assert!(parse_flat_object(br#"{"a":1,}"#).is_none());
    assert!(parse_flat_object(br#"{"a":1} extra"#).is_none());
    assert!(parse_flat_object(br#"{"a" 1}"#).is_none());
}

#[test]
fn jwt_id_shape_rules() {
    assert!(is_valid_jwt_id(b"abc123"));
    assert!(is_valid_jwt_id(b"A-b_9"));
    assert!(!is_valid_jwt_id(b""));
    assert!(!is_valid_jwt_id(b"ab c"));
    assert!(!is_valid_jwt_id(b"ab!"));
    assert!(is_valid_jwt_id(&vec![b'a'; 128]));
    assert!(!is_valid_jwt_id(&vec![b'a'; 129]));
    assert!(!is_valid_jwt_id("jti\u{e9}".as_bytes()));
}

#[test]
fn coordinate_range_rules() {
    assert!(is_valid_latitude(90_000_000));
    assert!(is_valid_latitude(-90_000_000));
    assert!(!is_valid_latitude(90_000_001));
    assert!(is_valid_longitude(180_000_000));
    assert!(!is_valid_longitude(-180_000_001));
}

#[test]
fn content_types_follow_the_extension() {
    assert_eq!(content_type_for_path(b"index.html"), b"text/html".to_vec());
    assert_eq!(content_type_for_path(b"a/b/style.css"), b"text/css".to_vec());
    assert_eq!(content_type_for_path(b"app.js"), b"application/javascript".to_vec());
    assert_eq!(content_type_for_path(b"p.png"), b"image/png".to_vec());
    assert_eq!(content_type_for_path(b"p.jpg"), b"image/jpeg".to_vec());
    assert_eq!(content_type_for_path(b"p.jpeg"), b"image/jpeg".to_vec());
    assert_eq!(content_type_for_path(b"p.gif"), b"image/gif".to_vec());
    assert_eq!(content_type_for_path(b"p.svg"), b"image/svg+xml".to_vec());
    assert_eq!(content_type_for_path(b"d.json"), b"application/json".to_vec());
    assert_eq!(content_type_for_path(b"archive.tar.gz"), b"application/octet-stream".to_vec());
    assert_eq!(content_type_for_path(b"noext"), b"application/octet-stream".to_vec());
}

#[test]
fn severities_parse_case_insensitively_and_fail_closed() {
    assert_eq!(parse_severity(b"high"), Some(Severity::High));
    assert_eq!(parse_severity(b"HIGH"), Some(Severity::High));
    assert_eq!(parse_severity(b"Medium"), Some(Severity::Medium));
    assert_eq!(parse_severity(b"low"), Some(Severity::Low));
    assert_eq!(parse_severity(b"critical"), None);
    assert_eq!(parse_severity_exact(b"High"), Some(Severity::High));
    assert_eq!(parse_severity_exact(b"high"), None);
    assert_eq!(parse_severity_exact(b"Low"), Some(Severity::Low));
}

#[test]
fn simple_gps_lines_read_back() {
    assert_eq!(
        parse_simple_gps_line(b"1700000000,37.7749,-122.4194"),
        Some((37_774_900, -122_419_400))
    );
    assert_eq!(
        parse_simple_gps_line(b"1700000000, 37.7749 , -122.4194 ,extra"),
        Some((37_774_900, -122_419_400))
    );
    assert_eq!(parse_simple_gps_line(b"1700000000,37.7749"), None);
    assert_eq!(parse_simple_gps_line(b"{\"latitude\":1.0}"), None);
    assert_eq!(parse_simple_gps_line(b""), None);
}
