use altcha::helpers::{
    buffer_starts_with, build_password, bytes_to_hex, constant_time_equal,
    constant_time_equal_hex, hex_to_bytes, hmac_sign, sha_hash,
};
use altcha::json::{canonical_json, json_to_string, sort_json_keys, JsonValue};
use altcha::{ChallengeParameters, Error, HmacAlgorithm};
use hmac::{Hmac, Mac};
use sha2::{Digest, Sha256, Sha384, Sha512};

fn num(t: &str) -> JsonValue {
    JsonValue::Number(t.to_string())
}

#[test]
fn test_canonical_json_sorts_keys() {
    let v = JsonValue::Object(vec![
        ("z".to_string(), num("1")),
        ("a".to_string(), num("2")),
        ("m".to_string(), num("3")),
    ]);
    let s = json_to_string(&sort_json_keys(v));
    assert_eq!(s, r#"{"a":2,"m":3,"z":1}"#);
}

#[test]
fn test_build_password() {
    let nonce = [0u8; 4];
    let pwd = build_password(&nonce, 1);
    assert_eq!(pwd, vec![0, 0, 0, 0, 0, 0, 0, 1]);
}

#[test]
fn test_constant_time_equal() {
    assert!(constant_time_equal(b"hello", b"hello"));
    assert!(!constant_time_equal(b"hello", b"world"));
    assert!(!constant_time_equal(b"hello", b"hell"));
}

#[test]
fn test_buffer_starts_with() {
    assert!(buffer_starts_with(&[0x00, 0x01, 0x02], &[0x00, 0x01]));
    assert!(!buffer_starts_with(&[0x01, 0x01], &[0x00]));
}

#[test]
fn build_password_appends_big_endian_counter() {
    let pwd = build_password(&[0xab, 0xcd], 0x0102_0304);
    assert_eq!(pwd, vec![0xab, 0xcd, 0x01, 0x02, 0x03, 0x04]);
    assert_eq!(build_password(&[], u32::MAX), vec![0xff, 0xff, 0xff, 0xff]);
}

#[test]
fn buffer_starts_with_edges() {
    assert!(buffer_starts_with(&[1, 2], &[]));
    assert!(buffer_starts_with(&[], &[]));
    assert!(!buffer_starts_with(&[1], &[1, 2]));
    assert!(buffer_starts_with(&[1, 2], &[1, 2]));
}

#[test]
fn constant_time_equal_hex_compares_text() {
    assert!(constant_time_equal_hex("abc123", "abc123"));
    assert!(!constant_time_equal_hex("abc123", "abc124"));
    assert!(!constant_time_equal_hex("abc", "abcd"));
    assert!(constant_time_equal_hex("", ""));
}

#[test]
fn hex_round_trip_and_errors() {
    assert_eq!(bytes_to_hex(&[0x00, 0xff, 0x1a]), "00ff1a");
    assert_eq!(hex_to_bytes("00ff1A").unwrap(), vec![0x00, 0xff, 0x1a]);
    assert_eq!(hex_to_bytes("").unwrap(), Vec::<u8>::new());
    assert!(matches!(hex_to_bytes("abc"), Err(Error::Hex(_))));
    assert!(matches!(hex_to_bytes("zz"), Err(Error::Hex(_))));
    let bytes: Vec<u8> = (0u8..=255).collect();
    assert_eq!(hex_to_bytes(&bytes_to_hex(&bytes)).unwrap(), bytes);
}

#[test]
fn sha_hash_matches_sha2() {
    let data = b"altcha";
    assert_eq!(sha_hash(&HmacAlgorithm::Sha256, data), Sha256::digest(data).to_vec());
    assert_eq!(sha_hash(&HmacAlgorithm::Sha384, data), Sha384::digest(data).to_vec());
    assert_eq!(sha_hash(&HmacAlgorithm::Sha512, data), Sha512::digest(data).to_vec());
    assert_eq!(sha_hash(&HmacAlgorithm::Sha256, data).len(), 32);
    assert_eq!(sha_hash(&HmacAlgorithm::Sha384, data).len(), 48);
    assert_eq!(sha_hash(&HmacAlgorithm::Sha512, data).len(), 64);
}

#[test]
fn hmac_sign_matches_hmac_crate() {
    let mut mac = Hmac::<Sha256>::new_from_slice(b"key").unwrap();
    mac.update(b"message");
    let expected = mac.finalize().into_bytes().to_vec();
    assert_eq!(hmac_sign(&HmacAlgorithm::Sha256, b"message", "key").unwrap(), expected);
    assert_eq!(
        bytes_to_hex(&hmac_sign(&HmacAlgorithm::Sha256, b"The quick brown fox jumps over the lazy dog", "key").unwrap()),
        "f7bc83f430538424b13298e6aa6fb143ef4d59a14946175997479dbc2d1a3cd8"
    );
    assert_eq!(hmac_sign(&HmacAlgorithm::Sha384, b"m", "k").unwrap().len(), 48);
    assert_eq!(hmac_sign(&HmacAlgorithm::Sha512, b"m", "k").unwrap().len(), 64);
}

#[test]
fn sort_json_keys_recurses_and_keeps_last_duplicate() {
    let inner = JsonValue::Object(vec![
        ("y".to_string(), JsonValue::Bool(true)),
        ("b".to_string(), JsonValue::Null),
    ]);
    let v = JsonValue::Array(vec![
        inner,
        JsonValue::Object(vec![
            ("k".to_string(), num("1")),
            ("k".to_string(), num("2")),
        ]),
        JsonValue::String("x\"y\n".to_string()),
    ]);
    let s = json_to_string(&sort_json_keys(v));
    assert_eq!(s, r#"[{"b":null,"y":true},{"k":2},"x\"y\n"]"#);
}

#[test]
fn json_escapes_control_characters() {
    let v = JsonValue::String("a\u{1}\t\\é".to_string());
    assert_eq!(json_to_string(&v), "\"a\\u0001\\t\\\\é\"");
}

#[test]
fn canonical_json_sorted_keys_and_skips_none() {
    let params = ChallengeParameters {
        algorithm: "PBKDF2/SHA-256".to_string(),
        cost: 1000,
        data: None,
        expires_at: None,
        key_length: 32,
        key_prefix: "00".to_string(),
        key_signature: None,
        memory_cost: None,
        nonce: "aabbccdd".to_string(),
        parallelism: None,
        salt: "eeff0011".to_string(),
    };
    assert_eq!(
        canonical_json(&params),
        r#"{"algorithm":"PBKDF2/SHA-256","cost":1000,"keyLength":32,"keyPrefix":"00","nonce":"aabbccdd","salt":"eeff0011"}"#
    );
}

#[test]
fn canonical_json_includes_optional_fields_in_order() {
    let params = ChallengeParameters {
        algorithm: "ARGON2ID".to_string(),
        cost: 2,
        data: Some(vec![
            ("z".to_string(), num("1")),
            ("a".to_string(), JsonValue::String("v".to_string())),
        ]),
        expires_at: Some(1700000000),
        key_length: 16,
        key_prefix: "0".to_string(),
        key_signature: Some("ab".to_string()),
        memory_cost: Some(64),
        nonce: "01".to_string(),
        parallelism: Some(1),
        salt: "02".to_string(),
    };
    assert_eq!(
        canonical_json(&params),
        r#"{"algorithm":"ARGON2ID","cost":2,"data":{"a":"v","z":1},"expiresAt":1700000000,"keyLength":16,"keyPrefix":"0","keySignature":"ab","memoryCost":64,"nonce":"01","parallelism":1,"salt":"02"}"#
    );
}
