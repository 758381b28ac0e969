//! The segment and hex codecs, held against the reference
//! implementations and their own round-trip law.

use base64::engine::general_purpose::{STANDARD, URL_SAFE_NO_PAD};
use base64::Engine;
use gps_auth::base64url::{base64url_decode, base64url_encode};
use gps_auth::hexcodec::{hex_decode, hex_encode};

/// The wire behaviour the segment decoder mirrors: pad to a multiple of
/// four, translate the URL-safe alphabet, decode under canonical rules.
fn reference_decode(input: &[u8]) -> Option<Vec<u8>> {
    let mut padded = String::from_utf8(input.to_vec()).ok()?;
    while padded.len() % 4 != 0 {
        padded.push('=');
    }
    let standard = padded.replace('-', "+").replace('_', "/");
    STANDARD.decode(standard).ok()
}

#[test]
fn decode_round_trips_encode() {
    let samples: Vec<Vec<u8>> = vec![
        vec![],
        vec![0],
        vec![255],
        vec![1, 2],
        vec![1, 2, 3],
        vec![1, 2, 3, 4],
        vec![251, 239, 190, 63, 63],
        (0..=255u8).collect(),
        b"{\"alg\":\"HS256\",\"typ\":\"JWT\"}".to_vec(),
    ];
    for b in samples {
        let e = base64url_encode(&b);
        assert_eq!(base64url_decode(&e).unwrap(), b);
    }
}

#[test]
fn encode_matches_reference_urlsafe_encoding() {
    let samples: Vec<Vec<u8>> = vec![
        vec![],
        vec![0],
        vec![251, 255],
        vec![1, 2, 3],
        (0..=255u8).collect(),
    ];
    for b in samples {
        let ours = base64url_encode(&b);
        let theirs = URL_SAFE_NO_PAD.encode(&b);
        assert_eq!(ours, theirs.as_bytes().to_vec());
    }
}

#[test]
fn decode_agrees_with_reference_on_valid_and_invalid_inputs() {
    let inputs: Vec<&[u8]> = vec![
        b"",
        b"QQ",
        b"QQ==",
        b"QUI",
        b"QUI=",
        b"QUJD",
        b"QUJD==",
        b"ab",
        b"a",
        b"ab=",
        b"====",
        b"==",
        b"a=bc",
        b"-_-_",
        b"+/+/",
        b"QQ=",
        b"!!!!",
        b"SGVsbG8td29ybGRf",
    ];
    for input in inputs {
        let ours = base64url_decode(input);
        let theirs = reference_decode(input);
        assert_eq!(ours, theirs, "disagreement on {:?}", input);
    }
}

#[test]
fn both_alphabets_are_read() {
    assert_eq!(base64url_decode(b"-_-_").unwrap(), base64url_decode(b"+/+/").unwrap());
}

#[test]
fn nonzero_trailing_bits_rejected() {
    // 'b' carries low bits that canonical decoding refuses.
    assert!(base64url_decode(b"ab").is_none());
    assert!(STANDARD.decode("ab==").is_err());
}

#[test]
fn hex_encode_matches_reference() {
    let samples: Vec<Vec<u8>> = vec![vec![], vec![0], vec![255], vec![1, 171, 205], (0..=255u8).collect()];
    for b in samples {
        let ours = hex_encode(&b);
        let theirs = hex::encode(&b);
        assert_eq!(ours, theirs.as_bytes().to_vec());
    }
}

#[test]
fn hex_decode_matches_reference() {
    let inputs: Vec<&[u8]> = vec![b"", b"00", b"ff", b"FF", b"01abCD", b"0", b"0g", b"zz"];
    for input in inputs {
        let ours = hex_decode(input);
        let theirs = hex::decode(input).ok();
        assert_eq!(ours, theirs, "disagreement on {:?}", input);
    }
}

#[test]
fn hex_round_trips() {
    let b: Vec<u8> = (0..=255u8).collect();
    assert_eq!(hex_decode(&hex_encode(&b)).unwrap(), b);
}
