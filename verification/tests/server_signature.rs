use altcha::server_signature::{
    parse_hmac_algorithm, parse_urlencoded, percent_decode, verify_server_signature_at,
};
use altcha::{
    parse_verification_data, verify_fields_hash, verify_server_signature, Error, HmacAlgorithm,
    ServerSignaturePayload,
};
use hmac::{Hmac, Mac};
use sha2::{Digest, Sha256, Sha384};

fn pair(k: &str, v: &str) -> (String, String) {
    (k.to_string(), v.to_string())
}

#[test]
fn test_parse_urlencoded_basic() {
    let pairs = parse_urlencoded("foo=bar&baz=qux");
    assert_eq!(pairs, vec![pair("foo", "bar"), pair("baz", "qux")]);
}

#[test]
fn test_percent_decode() {
    assert_eq!(percent_decode("hello%20world"), "hello world");
    assert_eq!(percent_decode("foo+bar"), "foo bar");
    assert_eq!(percent_decode("a%3Db"), "a=b");
}

#[test]
fn test_parse_verification_data() {
    let data = "verified=true&expire=9999999999&score=0.9&classification=GOOD&reasons=vp%2Cvd";
    let vd = parse_verification_data(data).unwrap();
    assert_eq!(vd.verified, Some(true));
    assert_eq!(vd.expire, Some(9999999999));
    assert_eq!(vd.score.as_deref().and_then(|s| s.parse::<f64>().ok()), Some(0.9));
    assert_eq!(vd.classification.as_deref(), Some("GOOD"));
    assert_eq!(vd.reasons, Some(vec!["vp".to_string(), "vd".to_string()]));
}

#[test]
fn test_verify_fields_hash() {
    let form = vec![pair("name", "Ada"), pair("email", "ada@example.com")];
    let fields = vec!["name".to_string(), "email".to_string()];
    let joined = "Ada\nada@example.com";
    let expected_hash = hex::encode(Sha256::digest(joined.as_bytes()));

    assert!(verify_fields_hash(&form, &fields, &expected_hash, None));
    assert!(!verify_fields_hash(&form, &fields, "deadbeef", None));
}

#[test]
fn verify_fields_hash_missing_field_is_empty_and_last_value_wins() {
    let form = vec![pair("a", "1"), pair("a", "2")];
    let fields = vec!["a".to_string(), "missing".to_string()];
    let expected = hex::encode(Sha384::digest("2\n".as_bytes()));
    assert!(verify_fields_hash(&form, &fields, &expected, Some(&HmacAlgorithm::Sha384)));
    let empty = hex::encode(Sha256::digest(b""));
    assert!(verify_fields_hash(&form, &[], &empty, None));
}

#[test]
fn parse_urlencoded_edge_cases() {
    assert_eq!(parse_urlencoded(""), Vec::<(String, String)>::new());
    assert_eq!(
        parse_urlencoded("a&b=&=c&&d=e=f"),
        vec![pair("a", ""), pair("b", ""), pair("d", "e=f")]
    );
    assert_eq!(parse_urlencoded("k%20x=+v+w+"), vec![pair("k x", "v w")]);
}

#[test]
fn percent_decode_keeps_malformed_escapes() {
    assert_eq!(percent_decode("100%"), "100%");
    assert_eq!(percent_decode("%zz%4"), "%zz%4");
    assert_eq!(percent_decode("%C3%A9"), "é");
    assert_eq!(percent_decode("%ff"), "\u{fffd}");
    assert_eq!(percent_decode("a%20"), "a ");
    assert_eq!(percent_decode("a%2"), "a%2");
    assert_eq!(percent_decode("a%20b"), "a b");
}

#[test]
fn parse_verification_data_fields_and_extra() {
    let vd = parse_verification_data(
        "fields=name,%20email,,&fieldsHash=ab&id=x&ipAddress=1.2.3.4&time=12.5&verified=no&zeta=1&alpha=2&expire=oops&email=e%40x",
    )
    .unwrap();
    assert_eq!(vd.fields, Some(vec!["name".to_string(), "email".to_string()]));
    assert_eq!(vd.fields_hash.as_deref(), Some("ab"));
    assert_eq!(vd.id.as_deref(), Some("x"));
    assert_eq!(vd.ip_address.as_deref(), Some("1.2.3.4"));
    assert_eq!(vd.time.as_deref(), Some("12.5"));
    assert_eq!(vd.verified, Some(false));
    assert_eq!(vd.expire, None);
    assert_eq!(vd.email.as_deref(), Some("e@x"));
    assert_eq!(vd.extra, vec![pair("alpha", "2"), pair("zeta", "1")]);
}

#[test]
fn parse_hmac_algorithm_names() {
    assert_eq!(parse_hmac_algorithm("sha-256").unwrap(), HmacAlgorithm::Sha256);
    assert_eq!(parse_hmac_algorithm("SHA-384").unwrap(), HmacAlgorithm::Sha384);
    assert_eq!(parse_hmac_algorithm("Sha-512").unwrap(), HmacAlgorithm::Sha512);
    match parse_hmac_algorithm("md5") {
        Err(Error::UnsupportedAlgorithm(name)) => assert_eq!(name, "MD5"),
        other => panic!("unexpected: {:?}", other),
    }
}

fn signed_payload(data: &str, secret: &str, verified: bool) -> ServerSignaturePayload {
    let hash = Sha256::digest(data.as_bytes());
    let mut mac = Hmac::<Sha256>::new_from_slice(secret.as_bytes()).unwrap();
    mac.update(&hash);
    ServerSignaturePayload {
        algorithm: "SHA-256".to_string(),
        api_key: None,
        id: None,
        signature: hex::encode(mac.finalize().into_bytes()),
        verification_data: data.to_string(),
        verified,
    }
}

#[test]
fn server_signature_verifies() {
    let payload = signed_payload("verified=true&expire=9999999999", "s3cret", true);
    let r = verify_server_signature(&payload, "s3cret").unwrap();
    assert!(r.verified);
    assert!(!r.expired);
    assert!(!r.invalid_signature);
    assert!(!r.invalid_solution);
    assert_eq!(r.verification_data.unwrap().expire, Some(9999999999));
}

#[test]
fn server_signature_rejections() {
    let payload = signed_payload("verified=true&expire=100", "s3cret", true);
    let r = verify_server_signature_at(&payload, "s3cret", 101).unwrap();
    assert!(r.expired && !r.verified && !r.invalid_signature);
    let r = verify_server_signature_at(&payload, "s3cret", 100).unwrap();
    assert!(!r.expired && r.verified);
    let r = verify_server_signature_at(&payload, "other", 0).unwrap();
    assert!(r.invalid_signature && !r.verified);
    let unverified = signed_payload("verified=true", "s3cret", false);
    let r = verify_server_signature_at(&unverified, "s3cret", 0).unwrap();
    assert!(r.invalid_solution && !r.verified);
    let mut bad_alg = signed_payload("verified=true", "s3cret", true);
    bad_alg.algorithm = "SHA-1".to_string();
    assert!(matches!(
        verify_server_signature_at(&bad_alg, "s3cret", 0),
        Err(Error::UnsupportedAlgorithm(_))
    ));
}

#[test]
fn server_signature_algorithm_case_is_ignored() {
    let payload = signed_payload("verified=true&expire=100", "s3cret", true);
    let mut lower = signed_payload("verified=true&expire=100", "s3cret", true);
    lower.algorithm = "sha-256".to_string();
    let a = verify_server_signature_at(&payload, "s3cret", 50).unwrap();
    let b = verify_server_signature_at(&lower, "s3cret", 50).unwrap();
    assert_eq!(
        (a.verified, a.expired, a.invalid_signature, a.invalid_solution),
        (b.verified, b.expired, b.invalid_signature, b.invalid_solution)
    );
    assert!(b.verified);
}
