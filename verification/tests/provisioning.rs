//! The provisioning workflow: PIN rules, key derivation against the
//! reference implementation, salt rotation, the stored key's shape, and
//! the daemon-configuration cross-check.

use gps_auth::errors::GpsJwtPinError;
use gps_auth::errors::ErrorKind;
use gps_auth::provision::{
    check_daemon_config, derive_key_from_pin, generate_salt_bytes, pin_from_command_line,
    validate_pin, Args, Config, InputMethod,
};
use gps_auth::secret::{parse_secret_key, validate_key_length};
use gps_auth::sigverify::constant_time_eq;
use pbkdf2::pbkdf2_hmac;
use sha2::Sha256;

#[test]
fn weak_and_malformed_pins_rejected_good_pin_accepted() {
    assert!(validate_pin(b"04829371").is_ok());
    assert!(validate_pin(b"11111111").is_err());
    assert!(validate_pin(b"12345678").is_err());
    assert!(validate_pin(b"00000000").is_err());
    assert!(validate_pin(b"1234567").is_err());
    assert!(validate_pin(b"123456789").is_err());
    assert!(validate_pin(b"1234567a").is_err());
    assert!(validate_pin(b"").is_err());
}

#[test]
fn every_all_same_digit_pin_rejected() {
    for d in b'0'..=b'9' {
        let pin = vec![d; 8];
        assert!(validate_pin(&pin).is_err(), "{:?} should be rejected", pin);
    }
}

#[test]
fn every_sequential_pattern_rejected() {
    assert!(validate_pin(b"12345678").is_err());
    assert!(validate_pin(b"87654321").is_err());
    assert!(validate_pin(b"01234567").is_err());
    assert!(validate_pin(b"76543210").is_err());
}

#[test]
fn pin_rejection_messages_name_the_rule() {
    match validate_pin(b"123") {
        Err(GpsJwtPinError::PinValidation(m)) => assert_eq!(m, "PIN must be exactly 8 digits"),
        _ => panic!("expected a PIN validation error"),
    }
    match validate_pin(b"1234567a") {
        Err(GpsJwtPinError::PinValidation(m)) => {
            assert_eq!(m, "PIN must contain only digits (0-9)")
        },
        _ => panic!("expected a PIN validation error"),
    }
    match validate_pin(b"55555555") {
        Err(GpsJwtPinError::PinValidation(m)) => {
            assert_eq!(m, "PIN is too weak - all digits are the same")
        },
        _ => panic!("expected a PIN validation error"),
    }
    match validate_pin(b"87654321") {
        Err(GpsJwtPinError::PinValidation(m)) => {
            assert_eq!(m, "PIN is too weak - avoid simple sequential patterns")
        },
        _ => panic!("expected a PIN validation error"),
    }
}

#[test]
fn provisioning_pin_gate_fires_before_any_derivation() {
    // The offline flow validates the PIN first; a weak PIN never reaches
    // the derivation step, so no key material is produced for it.
    assert!(validate_pin(b"55555555").is_err());
}

#[test]
fn derived_key_matches_the_reference_derivation() {
    let config = Config { iterations: 1000, ..Config::default() };
    let key_hex = derive_key_from_pin(b"04829371", &config).unwrap();
    let salt = hex::decode(String::from_utf8(config.salt.clone()).unwrap()).unwrap();
    let mut expected = vec![0u8; config.key_length];
    pbkdf2_hmac::<Sha256>(b"04829371", &salt, config.iterations, &mut expected);
    assert_eq!(key_hex, hex::encode(expected).into_bytes());
}

#[test]
fn derivation_is_deterministic_and_sensitive_to_every_parameter() {
    let base = Config { iterations: 1000, ..Config::default() };
    let k1 = derive_key_from_pin(b"04829371", &base).unwrap();
    let k2 = derive_key_from_pin(b"04829371", &base).unwrap();
    assert_eq!(k1, k2);
    let other_pin = derive_key_from_pin(b"04829372", &base).unwrap();
    assert_ne!(k1, other_pin);
    let other_salt = Config { salt: b"00ff00ff".to_vec(), ..Config::default() };
    assert_ne!(k1, derive_key_from_pin(b"04829371", &other_salt).unwrap());
    let other_iterations = Config { iterations: 1001, ..Config::default() };
    assert_ne!(k1, derive_key_from_pin(b"04829371", &other_iterations).unwrap());
    let other_length = Config { iterations: 1000, key_length: 32, ..Config::default() };
    let short = derive_key_from_pin(b"04829371", &other_length).unwrap();
    assert_eq!(short.len(), 64);
    assert_ne!(k1, short);
}

#[test]
fn bad_salt_hex_refuses_derivation() {
    let config = Config { salt: b"zz".to_vec(), ..Config::default() };
    match derive_key_from_pin(b"04829371", &config) {
        Err(GpsJwtPinError::KeyDerivation(m)) => assert_eq!(m, "Invalid salt format"),
        _ => panic!("expected a key derivation error"),
    }
}

#[test]
fn default_config_matches_the_documented_defaults() {
    let config = Config::default();
    assert_eq!(
        config.salt,
        hex::encode(b"rayhunter_enhanced_default_salt_2024").into_bytes()
    );
    assert_eq!(config.iterations, 100_000);
    assert_eq!(config.key_length, 64);
    assert_eq!(config.key_file_path, b"/etc/keys/jwt-key.txt".to_vec());
    assert_eq!(config.daemon_config_path, b"/etc/rayhunter/daemon.toml".to_vec());
}

#[test]
fn rotated_salt_is_fresh_and_leaves_the_rest_alone() {
    let mut config = Config::default();
    let before = config.salt.clone();
    config.generate_new_salt();
    assert_eq!(config.salt.len(), 64);
    assert_ne!(config.salt, before);
    assert_eq!(config.iterations, 100_000);
    assert_eq!(config.key_length, 64);
    assert_eq!(config.key_file_path, b"/etc/keys/jwt-key.txt".to_vec());
    let first = config.salt.clone();
    config.generate_new_salt();
    assert_ne!(config.salt, first);
}

#[test]
fn salt_bytes_are_thirty_two_and_distinct_across_draws() {
    let a = generate_salt_bytes();
    let b = generate_salt_bytes();
    assert_eq!(a.len(), 32);
    assert_eq!(b.len(), 32);
    assert_ne!(a, b);
}

#[test]
fn stored_key_text_is_read_back_by_shape() {
    let key = "ab".repeat(32);
    let parsed = parse_secret_key(key.as_bytes(), 32).unwrap();
    assert_eq!(parsed, vec![0xab; 32]);
    let padded = format!("  {}\n", key);
    assert_eq!(parse_secret_key(padded.as_bytes(), 32).unwrap(), vec![0xab; 32]);
    assert_eq!(
        parse_secret_key(b"abcd", 32).unwrap_err(),
        ErrorKind::KeyFormatError
    );
    let bad = "zz".repeat(32);
    assert_eq!(
        parse_secret_key(bad.as_bytes(), 32).unwrap_err(),
        ErrorKind::KeyFormatError
    );
    assert!(validate_key_length(key.as_bytes(), 32));
    assert!(validate_key_length(padded.as_bytes(), 32));
    assert!(!validate_key_length(key.as_bytes(), 64));
}

#[test]
fn daemon_check_reports_missing_key_file() {
    let config = Config::default();
    let status = check_daemon_config(&config, false, 0, None, None);
    assert!(!status.success);
    assert_eq!(
        status.error.unwrap(),
        b"JWT key file not found: /etc/keys/jwt-key.txt".to_vec()
    );
    assert!(status.details.is_none());
}

#[test]
fn daemon_check_reports_insecure_permissions() {
    let config = Config::default();
    let status = check_daemon_config(&config, true, 0o644, None, None);
    assert!(!status.success);
    assert_eq!(
        status.error.unwrap(),
        b"Key file has insecure permissions: 644".to_vec()
    );
}

#[test]
fn daemon_check_reports_reference_and_env_cross_check() {
    let config = Config::default();
    let content = b"key_file = \"RAYHUNTER_JWT_KEY_FILE\"".to_vec();
    let env = b"/etc/keys/jwt-key.txt".to_vec();
    let status = check_daemon_config(&config, true, 0o600, Some(&content), Some(&env));
    assert!(status.success);
    let details = String::from_utf8(status.details.unwrap()).unwrap();
    assert_eq!(
        details,
        "Daemon configuration includes JWT key file path; \
         Environment variable RAYHUNTER_JWT_KEY_FILE is set to: /etc/keys/jwt-key.txt"
    );

    let other_env = b"/tmp/other".to_vec();
    let status = check_daemon_config(&config, true, 0o600, None, Some(&other_env));
    let details = String::from_utf8(status.details.unwrap()).unwrap();
    assert_eq!(
        details,
        "Daemon configuration file not found; \
         Environment variable RAYHUNTER_JWT_KEY_FILE is set to: /tmp/other \
         (expected: /etc/keys/jwt-key.txt)"
    );

    let plain = b"port = 8080".to_vec();
    let status = check_daemon_config(&config, true, 0o600, Some(&plain), None);
    let details = String::from_utf8(status.details.unwrap()).unwrap();
    assert_eq!(
        details,
        "Daemon configuration does not specify JWT key file path; \
         Environment variable RAYHUNTER_JWT_KEY_FILE is not set"
    );
}

#[test]
fn command_line_pin_comes_from_the_option() {
    let args = Args {
        pin: Some(b"04829371".to_vec()),
        input_method: InputMethod::CommandLine,
        config: b"/etc/gps_jwt_pin/config.toml".to_vec(),
        generate_salt: false,
        check_daemon: false,
        validate_key: false,
        verbose: false,
    };
    assert_eq!(pin_from_command_line(&args).unwrap(), b"04829371".to_vec());
    let args = Args { pin: None, ..args };
    match pin_from_command_line(&args) {
        Err(GpsJwtPinError::PinValidation(m)) => {
            assert_eq!(m, "PIN required when using command line input method")
        },
        _ => panic!("expected a PIN validation error"),
    }
}

#[test]
fn constant_time_comparison_is_exact_equality() {
    assert!(constant_time_eq(b"", b""));
    assert!(constant_time_eq(b"abc", b"abc"));
    assert!(!constant_time_eq(b"abc", b"abd"));
    assert!(!constant_time_eq(b"abc", b"ab"));
    assert!(!constant_time_eq(b"abc", b"abcd"));
    assert!(!constant_time_eq(b"xbc", b"abc"));
}
