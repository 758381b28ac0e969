//! End-to-end validation of tokens built with the real HMAC
//! implementation, through the whole pipeline.

use gps_auth::base64url::base64url_encode;
use gps_auth::errors::ErrorKind;
use gps_auth::replay::ReplayGuard;
use gps_auth::response::success_security;
use gps_auth::token::{
    status_class, strip_bearer, validate_coordinate, validate_token, CoordinateError,
};
use gps_auth::errors::StatusClass;
use hmac::{Hmac, KeyInit, Mac};
use sha2::Sha256;

const NOW: u64 = 1_700_000_000;
const LIFESPAN: u64 = 30;

fn sign(secret: &[u8], msg: &[u8]) -> Vec<u8> {
    let mut mac = <Hmac<Sha256> as KeyInit>::new_from_slice(secret).unwrap();
    mac.update(msg);
    mac.finalize().into_bytes().as_slice().to_vec()
}

fn make_token_with_header(secret: &[u8], header_json: &[u8], payload_json: &[u8]) -> Vec<u8> {
    let h = base64url_encode(header_json);
    let p = base64url_encode(payload_json);
    let mut msg = h.clone();
    msg.push(b'.');
    msg.extend_from_slice(&p);
    let sig = sign(secret, &msg);
    let s = base64url_encode(&sig);
    let mut token = msg;
    token.push(b'.');
    token.extend_from_slice(&s);
    token
}

fn make_token(secret: &[u8], payload_json: &str) -> Vec<u8> {
    make_token_with_header(secret, br#"{"alg":"HS256","typ":"JWT"}"#, payload_json.as_bytes())
}

fn payload(lat: &str, lon: &str, exp: u64, iat: u64, jti: &str) -> String {
    format!(
        r#"{{"lat":{},"lon":{},"exp":{},"iat":{},"jti":"{}"}}"#,
        lat, lon, exp, iat, jti
    )
}

#[test]
fn valid_token_accepted_with_echoed_coordinates() {
    let secret = b"test-secret-key";
    let body = payload("37.7749", "-122.4194", NOW + 10, NOW - 5, "abc123");
    let token = make_token(secret, &body);
    let mut guard = ReplayGuard::new();
    let claims = validate_token(&token, secret, NOW, LIFESPAN, &mut guard).unwrap();
    assert_eq!(claims.lat_micro, 37_774_900);
    assert_eq!(claims.lon_micro, -122_419_400);
    assert_eq!(claims.exp, NOW + 10);
    assert_eq!(claims.iat, NOW - 5);
    assert_eq!(claims.jti, b"abc123".to_vec());
    assert_eq!(claims.accuracy_micro, None);
    let coord = validate_coordinate(&claims).unwrap();
    assert_eq!(coord.latitude_micro(), 37_774_900);
    assert_eq!(coord.longitude_micro(), -122_419_400);
    assert_eq!(coord.timestamp(), NOW - 5);
    let sec = success_security(LIFESPAN);
    assert!(sec.replay_protection_active);
    assert!(sec.token_validated);
    assert_eq!(sec.token_lifetime_seconds, LIFESPAN);
}

#[test]
fn resubmitted_token_is_replay_detected() {
    let secret = b"test-secret-key";
    let body = payload("37.7749", "-122.4194", NOW + 10, NOW - 5, "abc123");
    let token = make_token(secret, &body);
    let mut guard = ReplayGuard::new();
    assert!(validate_token(&token, secret, NOW, LIFESPAN, &mut guard).is_ok());
    let second = validate_token(&token, secret, NOW, LIFESPAN, &mut guard);
    assert_eq!(second.unwrap_err(), ErrorKind::ReplayDetected);
}

#[test]
fn old_token_rejected_for_lifespan_despite_future_expiry() {
    let secret = b"test-secret-key";
    let body = payload("1.0", "2.0", NOW + 1000, NOW - 40, "tok1");
    let token = make_token(secret, &body);
    let mut guard = ReplayGuard::new();
    let r = validate_token(&token, secret, NOW, LIFESPAN, &mut guard);
    assert_eq!(r.unwrap_err(), ErrorKind::LifespanExceeded);
}

#[test]
fn two_segment_token_is_structure_error() {
    let secret = b"test-secret-key";
    let mut guard = ReplayGuard::new();
    let r = validate_token(b"aaaa.bbbb", secret, NOW, LIFESPAN, &mut guard);
    assert_eq!(r.unwrap_err(), ErrorKind::StructureError);
    let r = validate_token(b"aaaa.bbbb.cccc.dddd", secret, NOW, LIFESPAN, &mut guard);
    assert_eq!(r.unwrap_err(), ErrorKind::StructureError);
    let r = validate_token(b"..", secret, NOW, LIFESPAN, &mut guard);
    assert_eq!(r.unwrap_err(), ErrorKind::StructureError);
}

#[test]
fn wrong_secret_is_signature_mismatch() {
    let body = payload("37.7749", "-122.4194", NOW + 10, NOW - 5, "abc123");
    let token = make_token(b"other-secret", &body);
    let mut guard = ReplayGuard::new();
    let r = validate_token(&token, b"test-secret-key", NOW, LIFESPAN, &mut guard);
    assert_eq!(r.unwrap_err(), ErrorKind::SignatureMismatch);
}

#[test]
fn tampered_payload_is_signature_mismatch() {
    let secret = b"test-secret-key";
    let body = payload("37.7749", "-122.4194", NOW + 10, NOW - 5, "abc123");
    let token = make_token(secret, &body);
    let tampered_body = payload("0.0", "0.0", NOW + 10, NOW - 5, "abc123");
    let mut tampered = base64url_encode(br#"{"alg":"HS256","typ":"JWT"}"#);
    tampered.push(b'.');
    tampered.extend_from_slice(&base64url_encode(tampered_body.as_bytes()));
    tampered.push(b'.');
    let sig_part = token.rsplit(|&c| c == b'.').next().unwrap();
    tampered.extend_from_slice(sig_part);
    let mut guard = ReplayGuard::new();
    let r = validate_token(&tampered, secret, NOW, LIFESPAN, &mut guard);
    assert_eq!(r.unwrap_err(), ErrorKind::SignatureMismatch);
}

#[test]
fn expired_token_rejected() {
    let secret = b"test-secret-key";
    let body = payload("1.0", "2.0", NOW - 1, NOW - 5, "tok2");
    let token = make_token(secret, &body);
    let mut guard = ReplayGuard::new();
    let r = validate_token(&token, secret, NOW, LIFESPAN, &mut guard);
    assert_eq!(r.unwrap_err(), ErrorKind::Expired);
}

#[test]
fn future_issued_token_rejected() {
    let secret = b"test-secret-key";
    let body = payload("1.0", "2.0", NOW + 100, NOW + 10, "tok3");
    let token = make_token(secret, &body);
    let mut guard = ReplayGuard::new();
    let r = validate_token(&token, secret, NOW, LIFESPAN, &mut guard);
    assert_eq!(r.unwrap_err(), ErrorKind::IssuedInFuture);
}

#[test]
fn jti_with_space_rejected_despite_valid_signature() {
    let secret = b"test-secret-key";
    let body = payload("1.0", "2.0", NOW + 10, NOW - 5, "ab c");
    let token = make_token(secret, &body);
    let mut guard = ReplayGuard::new();
    let r = validate_token(&token, secret, NOW, LIFESPAN, &mut guard);
    assert_eq!(r.unwrap_err(), ErrorKind::InvalidJti);
}

#[test]
fn empty_and_overlong_jti_rejected() {
    let secret = b"test-secret-key";
    let body = payload("1.0", "2.0", NOW + 10, NOW - 5, "");
    let token = make_token(secret, &body);
    let mut guard = ReplayGuard::new();
    let r = validate_token(&token, secret, NOW, LIFESPAN, &mut guard);
    assert_eq!(r.unwrap_err(), ErrorKind::InvalidJti);
    let long = "a".repeat(129);
    let body = payload("1.0", "2.0", NOW + 10, NOW - 5, &long);
    let token = make_token(secret, &body);
    let r = validate_token(&token, secret, NOW, LIFESPAN, &mut guard);
    assert_eq!(r.unwrap_err(), ErrorKind::InvalidJti);
}

#[test]
fn out_of_range_latitude_rejected_as_bad_claim() {
    let secret = b"test-secret-key";
    let body = payload("95.0", "2.0", NOW + 10, NOW - 5, "tok4");
    let token = make_token(secret, &body);
    let mut guard = ReplayGuard::new();
    let claims = validate_token(&token, secret, NOW, LIFESPAN, &mut guard).unwrap();
    let r = validate_coordinate(&claims);
    assert_eq!(r.unwrap_err(), CoordinateError::InvalidLatitude);
}

#[test]
fn out_of_range_longitude_rejected_as_bad_claim() {
    let secret = b"test-secret-key";
    let body = payload("45.0", "200.0", NOW + 10, NOW - 5, "tok5");
    let token = make_token(secret, &body);
    let mut guard = ReplayGuard::new();
    let claims = validate_token(&token, secret, NOW, LIFESPAN, &mut guard).unwrap();
    let r = validate_coordinate(&claims);
    assert_eq!(r.unwrap_err(), CoordinateError::InvalidLongitude);
}

#[test]
fn boundary_coordinates_accepted() {
    let secret = b"test-secret-key";
    let body = payload("90.0", "-180.0", NOW + 10, NOW - 5, "tok6");
    let token = make_token(secret, &body);
    let mut guard = ReplayGuard::new();
    let claims = validate_token(&token, secret, NOW, LIFESPAN, &mut guard).unwrap();
    assert!(validate_coordinate(&claims).is_ok());
}

#[test]
fn just_past_boundary_latitude_rejected() {
    let secret = b"test-secret-key";
    let body = payload("90.0000001", "0.0", NOW + 10, NOW - 5, "tok7");
    let token = make_token(secret, &body);
    let mut guard = ReplayGuard::new();
    let claims = validate_token(&token, secret, NOW, LIFESPAN, &mut guard).unwrap();
    assert_eq!(claims.lat_micro, 90_000_001);
    assert_eq!(
        validate_coordinate(&claims).unwrap_err(),
        CoordinateError::InvalidLatitude
    );
}

#[test]
fn unsupported_algorithm_rejected() {
    let secret = b"test-secret-key";
    let body = payload("1.0", "2.0", NOW + 10, NOW - 5, "tok8");
    let token = make_token_with_header(secret, br#"{"alg":"none","typ":"JWT"}"#, body.as_bytes());
    let mut guard = ReplayGuard::new();
    let r = validate_token(&token, secret, NOW, LIFESPAN, &mut guard);
    assert_eq!(r.unwrap_err(), ErrorKind::UnsupportedAlgorithm);
    let token = make_token_with_header(secret, br#"{"alg":"HS256","typ":"JWS"}"#, body.as_bytes());
    let r = validate_token(&token, secret, NOW, LIFESPAN, &mut guard);
    assert_eq!(r.unwrap_err(), ErrorKind::UnsupportedAlgorithm);
}

#[test]
fn undecodable_segment_is_decode_error() {
    let secret = b"test-secret-key";
    let mut guard = ReplayGuard::new();
    let r = validate_token(b"a!aa.bbbb.cccc", secret, NOW, LIFESPAN, &mut guard);
    assert_eq!(r.unwrap_err(), ErrorKind::DecodeError);
}

#[test]
fn missing_required_claim_reported() {
    let secret = b"test-secret-key";
    let body = format!(
        r#"{{"lat":1.0,"lon":2.0,"iat":{},"jti":"tok9"}}"#,
        NOW - 5
    );
    let token = make_token(secret, &body);
    let mut guard = ReplayGuard::new();
    let r = validate_token(&token, secret, NOW, LIFESPAN, &mut guard);
    assert_eq!(r.unwrap_err(), ErrorKind::MissingClaim);
}

#[test]
fn wrongly_typed_claim_is_schema_error() {
    let secret = b"test-secret-key";
    let body = format!(
        r#"{{"lat":"north","lon":2.0,"exp":{},"iat":{},"jti":"tok10"}}"#,
        NOW + 10,
        NOW - 5
    );
    let token = make_token(secret, &body);
    let mut guard = ReplayGuard::new();
    let r = validate_token(&token, secret, NOW, LIFESPAN, &mut guard);
    assert_eq!(r.unwrap_err(), ErrorKind::SchemaError);
}

#[test]
fn optional_metadata_is_carried_through() {
    let secret = b"test-secret-key";
    let body = format!(
        r#"{{"lat":1.5,"lon":2.5,"exp":{},"iat":{},"jti":"tok11","accuracy":5.0,"altitude":100.25,"speed":25.0,"heading":180.0}}"#,
        NOW + 10,
        NOW - 5
    );
    let token = make_token(secret, &body);
    let mut guard = ReplayGuard::new();
    let claims = validate_token(&token, secret, NOW, LIFESPAN, &mut guard).unwrap();
    assert_eq!(claims.accuracy_micro, Some(5_000_000));
    assert_eq!(claims.altitude_micro, Some(100_250_000));
    assert_eq!(claims.speed_micro, Some(25_000_000));
    assert_eq!(claims.heading_micro, Some(180_000_000));
}

#[test]
fn distinct_identifiers_are_each_accepted_once() {
    let secret = b"test-secret-key";
    let mut guard = ReplayGuard::new();
    let body_a = payload("1.0", "2.0", NOW + 10, NOW - 5, "first-id");
    let body_b = payload("1.0", "2.0", NOW + 10, NOW - 5, "second-id");
    let token_a = make_token(secret, &body_a);
    let token_b = make_token(secret, &body_b);
    assert!(validate_token(&token_a, secret, NOW, LIFESPAN, &mut guard).is_ok());
    assert!(validate_token(&token_b, secret, NOW, LIFESPAN, &mut guard).is_ok());
    assert_eq!(
        validate_token(&token_a, secret, NOW, LIFESPAN, &mut guard).unwrap_err(),
        ErrorKind::ReplayDetected
    );
}

#[test]
fn rejected_token_leaves_guard_unchanged() {
    let secret = b"test-secret-key";
    let mut guard = ReplayGuard::new();
    let body = payload("1.0", "2.0", NOW - 1, NOW - 5, "reusable");
    let expired = make_token(secret, &body);
    assert!(validate_token(&expired, secret, NOW, LIFESPAN, &mut guard).is_err());
    let body = payload("1.0", "2.0", NOW + 10, NOW - 5, "reusable");
    let fresh = make_token(secret, &body);
    assert!(validate_token(&fresh, secret, NOW, LIFESPAN, &mut guard).is_ok());
}

#[test]
fn bearer_prefix_stripped() {
    assert_eq!(strip_bearer(b"Bearer abc.def.ghi").unwrap(), b"abc.def.ghi".to_vec());
    assert!(strip_bearer(b"Basic abc").is_none());
    assert!(strip_bearer(b"Bear").is_none());
    assert_eq!(strip_bearer(b"Bearer ").unwrap(), b"".to_vec());
}

#[test]
fn status_classes_follow_the_taxonomy() {
    assert_eq!(status_class(ErrorKind::SignatureMismatch), StatusClass::Unauthorized);
    assert_eq!(status_class(ErrorKind::Expired), StatusClass::Unauthorized);
    assert_eq!(status_class(ErrorKind::ReplayDetected), StatusClass::Unauthorized);
    assert_eq!(status_class(ErrorKind::KeyFileError), StatusClass::ServerError);
    assert_eq!(status_class(ErrorKind::KeyFormatError), StatusClass::ServerError);
    assert_eq!(ErrorKind::ReplayDetected.code(), "ReplayDetected");
    assert_eq!(ErrorKind::StructureError.code(), "StructureError");
}
