use altcha::algorithms::{derive_key, within_kdf_limits};
use altcha::helpers::bytes_to_hex;
use altcha::ChallengeParameters;
use sha2::{Digest, Sha384};

fn params(algorithm: &str, cost: u32, key_length: usize) -> ChallengeParameters {
    ChallengeParameters {
        algorithm: algorithm.to_string(),
        cost,
        data: None,
        expires_at: None,
        key_length,
        key_prefix: String::new(),
        key_signature: None,
        memory_cost: None,
        nonce: String::new(),
        parallelism: None,
        salt: String::new(),
    }
}

#[test]
fn pbkdf2_sha256_known_vector() {
    let key = derive_key(&params("pbkdf2/sha-256", 1, 32), b"salt", b"password").unwrap();
    assert_eq!(
        bytes_to_hex(&key),
        "120fb6cffcf8b32c43e7225256c4f837a86548c92ccc35480805987cb70be17b"
    );
}

#[test]
fn pbkdf2_digests_follow_the_name() {
    let a = derive_key(&params("PBKDF2/SHA-384", 2, 40), b"s", b"p").unwrap();
    let b = derive_key(&params("PBKDF2/SHA-512", 2, 40), b"s", b"p").unwrap();
    let mut expected = [0u8; 40];
    pbkdf2::pbkdf2_hmac::<Sha384>(b"p", b"s", 2, &mut expected);
    assert_eq!(a, expected.to_vec());
    assert_ne!(a, b);
    assert_eq!(b.len(), 40);
}

#[test]
fn iterated_sha_hashes_salt_then_password() {
    let none = derive_key(&params("SHA-384", 0, 100), b"ab", b"cd").unwrap();
    assert_eq!(none, b"abcd".to_vec());
    let none = derive_key(&params("SHA-256", 0, 3), b"ab", b"cd").unwrap();
    assert_eq!(none, b"abc".to_vec());
    let once = derive_key(&params("SHA-384", 1, 100), b"ab", b"cd").unwrap();
    assert_eq!(once, Sha384::digest(b"abcd").to_vec());
    let twice = derive_key(&params("SHA-384", 2, 10), b"ab", b"cd").unwrap();
    assert_eq!(twice, Sha384::digest(Sha384::digest(b"abcd")).to_vec()[..10].to_vec());
}

#[test]
fn scrypt_known_vector() {
    let mut p = params("scrypt", 16, 64);
    p.memory_cost = Some(1);
    p.parallelism = Some(1);
    let key = derive_key(&p, b"", b"").unwrap();
    assert_eq!(
        bytes_to_hex(&key),
        "77d6576238657b203b19ca42c18a0497f16b4844e3074ae8dfdffa3fede21442fcd0069ded0948f8326a753a0fc81f17e8d3e0fb2e0d3628cf35e20c38d18906"
    );
}

#[test]
fn argon2id_matches_argon2_crate() {
    let mut p = params("Argon2id", 1, 24);
    p.memory_cost = Some(16);
    p.parallelism = Some(2);
    let key = derive_key(&p, b"somesalt", b"password").unwrap();
    let params = argon2::Params::new(16, 1, 2, Some(24)).unwrap();
    let hasher = argon2::Argon2::new(argon2::Algorithm::Argon2id, argon2::Version::V0x13, params);
    let mut expected = [0u8; 24];
    hasher.hash_password_into(b"password", b"somesalt", &mut expected).unwrap();
    assert_eq!(key, expected.to_vec());
    match derive_key(&p, b"short", b"password") {
        Err(altcha::Error::Argon2(m)) => assert_eq!(m, "salt is too short"),
        _ => panic!("expected a short-salt error"),
    }
}

#[test]
fn kdf_limits_by_algorithm() {
    assert!(within_kdf_limits("PBKDF2/SHA-256", 32 * 0xffff_ffff, None));
    assert!(!within_kdf_limits("PBKDF2/SHA-256", 32 * 0xffff_ffff + 1, None));
    assert!(within_kdf_limits("pbkdf2/sha-512", 64 * 0xffff_ffff, None));
    assert!(within_kdf_limits("SHA-256", usize::MAX, None));
    assert!(!within_kdf_limits("ARGON2ID", 32, Some(0x2000_0000)));
    assert!(within_kdf_limits("ARGON2ID", 32, Some(0x1fff_ffff)));
    assert!(within_kdf_limits("SCRYPT", 32, Some(u32::MAX)));
}
