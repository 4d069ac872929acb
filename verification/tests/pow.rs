use altcha::algorithms::derive_key;
use altcha::helpers::{build_password, bytes_to_hex, hex_to_bytes};
use altcha::json::{canonical_json, JsonValue};
use altcha::pow::{
    solve_challenge_checked, verify_solution_at, verify_solution_checked, SolveStep, Solver,
};
use altcha::{
    create_challenge, sign_challenge, solve_challenge, verify_solution, Challenge,
    ChallengeParameters, CreateChallengeOptions, Error, HmacAlgorithm, Solution,
    SolveChallengeOptions, VerifySolutionOptions,
};
use hmac::{Hmac, Mac};
use sha2::{Digest, Sha256};

fn params(algorithm: &str, cost: u32, key_prefix: &str) -> ChallengeParameters {
    ChallengeParameters {
        algorithm: algorithm.to_string(),
        cost,
        data: None,
        expires_at: None,
        key_length: 32,
        key_prefix: key_prefix.to_string(),
        key_signature: None,
        memory_cost: None,
        nonce: "000102030405060708090a0b0c0d0e0f".to_string(),
        parallelism: None,
        salt: "101112131415161718191a1b1c1d1e1f".to_string(),
    }
}

fn unsigned(p: ChallengeParameters) -> Challenge {
    Challenge { parameters: p, signature: None }
}

#[test]
fn create_challenge_fills_parameters() {
    let c = create_challenge(CreateChallengeOptions {
        algorithm: "SHA-256".to_string(),
        cost: 7,
        expires_at: Some(42),
        data: Some(vec![("k".to_string(), JsonValue::Bool(true))]),
        ..Default::default()
    })
    .unwrap();
    assert!(c.signature.is_none());
    assert_eq!(c.parameters.algorithm, "SHA-256");
    assert_eq!(c.parameters.cost, 7);
    assert_eq!(c.parameters.expires_at, Some(42));
    assert_eq!(c.parameters.key_length, 32);
    assert_eq!(c.parameters.key_prefix, "00");
    assert!(c.parameters.key_signature.is_none());
    assert_eq!(c.parameters.nonce.len(), 32);
    assert_eq!(c.parameters.salt.len(), 32);
    assert_eq!(hex_to_bytes(&c.parameters.nonce).unwrap().len(), 16);
    assert!(c.parameters.data.is_some());
}

#[test]
fn create_challenge_signature_is_hmac_of_canonical_json() {
    let c = create_challenge(CreateChallengeOptions {
        algorithm: "SHA-256".to_string(),
        cost: 1,
        hmac_signature_secret: Some("k".to_string()),
        ..Default::default()
    })
    .unwrap();
    let mut mac = Hmac::<Sha256>::new_from_slice(b"k").unwrap();
    mac.update(canonical_json(&c.parameters).as_bytes());
    assert_eq!(c.signature.unwrap(), hex::encode(mac.finalize().into_bytes()));
}

#[test]
fn deterministic_prefix_comes_from_counter_key() {
    let c = create_challenge(CreateChallengeOptions {
        algorithm: "SHA-256".to_string(),
        cost: 3,
        counter: Some(5),
        key_prefix_length: Some(4),
        ..Default::default()
    })
    .unwrap();
    let nonce = hex_to_bytes(&c.parameters.nonce).unwrap();
    let salt = hex_to_bytes(&c.parameters.salt).unwrap();
    let key = derive_key(&c.parameters, &salt, &build_password(&nonce, 5)).unwrap();
    assert_eq!(c.parameters.key_prefix, bytes_to_hex(&key[..4]));
    assert!(c.parameters.key_signature.is_none());
    let sol = solve_challenge(SolveChallengeOptions { counter_start: 5, ..SolveChallengeOptions::new(&c) })
        .unwrap()
        .unwrap();
    assert_eq!(sol.counter, 5);
    assert_eq!(sol.derived_key, bytes_to_hex(&key));
}

#[test]
fn deterministic_prefix_length_beyond_key_is_refused() {
    let r = create_challenge(CreateChallengeOptions {
        algorithm: "SHA-256".to_string(),
        cost: 1,
        counter: Some(0),
        key_prefix_length: Some(33),
        ..Default::default()
    });
    match r {
        Err(Error::InvalidParameters(m)) => {
            assert_eq!(m, "key_prefix_length exceeds the derived key length")
        }
        other => panic!("unexpected: {:?}", other.map(|c| c.parameters.key_prefix)),
    }
}

#[test]
fn deterministic_mode_reports_derivation_errors() {
    let r = create_challenge(CreateChallengeOptions {
        algorithm: "MD5".to_string(),
        counter: Some(0),
        ..Default::default()
    });
    assert!(matches!(r, Err(Error::UnsupportedAlgorithm(ref a)) if a == "MD5"));
}

#[test]
fn solve_reports_bad_hex_and_unknown_algorithm() {
    let mut p = params("SHA-256", 1, "00");
    p.nonce = "xyz".to_string();
    let c = unsigned(p);
    assert!(matches!(solve_challenge(SolveChallengeOptions::new(&c)), Err(Error::Hex(_))));

    let c = unsigned(params("SHA-256", 1, "0g"));
    assert!(matches!(solve_challenge(SolveChallengeOptions::new(&c)), Err(Error::Hex(_))));

    let c = unsigned(params("whirlpool", 1, "00"));
    match solve_challenge(SolveChallengeOptions::new(&c)) {
        Err(Error::UnsupportedAlgorithm(a)) => assert_eq!(a, "WHIRLPOOL"),
        _ => panic!("expected an unsupported algorithm"),
    }
}

#[test]
fn solve_reports_kdf_parameter_errors() {
    let c = unsigned(params("ARGON2ID", 1, "00"));
    match solve_challenge(SolveChallengeOptions::new(&c)) {
        Err(Error::InvalidParameters(m)) => assert_eq!(m, "Argon2id requires memory_cost"),
        _ => panic!("expected missing memory cost"),
    }
    let mut p = params("ARGON2ID", 1, "00");
    p.memory_cost = Some(4);
    match solve_challenge(SolveChallengeOptions::new(&unsigned(p))) {
        Err(Error::Argon2(m)) => assert_eq!(m, "memory cost is too small"),
        _ => panic!("expected an argon2 error"),
    }
    let c = unsigned(params("SCRYPT", 1000, "00"));
    match solve_challenge(SolveChallengeOptions::new(&c)) {
        Err(Error::InvalidParameters(m)) => {
            assert_eq!(m, "scrypt cost (N) must be a power of 2, got 1000")
        }
        _ => panic!("expected a cost error"),
    }
    let mut p = params("SCRYPT", 16, "00");
    p.key_length = 5;
    match solve_challenge(SolveChallengeOptions::new(&unsigned(p))) {
        Err(Error::Scrypt(m)) => assert_eq!(m, "invalid scrypt parameters"),
        _ => panic!("expected a scrypt error"),
    }
}

#[test]
fn solve_with_odd_prefix_matches_hex_text() {
    let c = unsigned(params("SHA-256", 2, "a"));
    let sol = solve_challenge(SolveChallengeOptions::new(&c)).unwrap().unwrap();
    assert!(sol.derived_key.starts_with('a'));
    assert!(sol.time.is_some());
    let nonce = hex_to_bytes(&c.parameters.nonce).unwrap();
    let salt = hex_to_bytes(&c.parameters.salt).unwrap();
    for counter in 0..sol.counter {
        let key = derive_key(&c.parameters, &salt, &build_password(&nonce, counter)).unwrap();
        assert!(!bytes_to_hex(&key).starts_with('a'));
    }
}

#[test]
fn solve_times_out() {
    let c = unsigned(params("SHA-256", 1, "ffffffffffffffff"));
    let r = solve_challenge(SolveChallengeOptions { timeout_ms: 0, ..SolveChallengeOptions::new(&c) });
    assert!(matches!(r, Ok(None)));
}

#[test]
fn solver_steps_by_counter_step() {
    let c = unsigned(params("SHA-256", 1, "ffffffffffffffff"));
    let options = SolveChallengeOptions { counter_start: 7, counter_step: 3, ..SolveChallengeOptions::new(&c) };
    let mut solver = Solver::new(&options).unwrap();
    assert_eq!(solver.counter, 7);
    assert!(matches!(solver.step(None, 0), Ok(SolveStep::Continue)));
    assert_eq!(solver.counter, 10);
    assert!(matches!(solver.step(Some(1_000_000), 1), Ok(SolveStep::Continue)));
    assert_eq!(solver.counter, 13);
    assert!(matches!(solver.step(Some(1_000_001), 1), Ok(SolveStep::TimedOut)));
    assert_eq!(solver.counter, 13);
    solver.counter = u32::MAX;
    assert!(matches!(solver.step(None, 0), Ok(SolveStep::Continue)));
    assert_eq!(solver.counter, 2);
}

#[test]
fn solve_times_out_on_odd_counters() {
    let c = unsigned(params("SHA-256", 1, "z"));
    let r = solve_challenge(SolveChallengeOptions {
        counter_start: 1,
        counter_step: 2,
        timeout_ms: 0,
        ..SolveChallengeOptions::new(&c)
    });
    assert!(matches!(r, Ok(None)));
}

#[test]
fn checked_entry_points_refuse_out_of_range_parameters() {
    let mut p = params("ARGON2ID", 1, "00");
    p.memory_cost = Some(8);
    p.parallelism = Some(0x2000_0000);
    let c = unsigned(p);
    assert!(solve_challenge_checked(SolveChallengeOptions::new(&c)).is_none());
    let sol = Solution { counter: 0, derived_key: "00".to_string(), time: None };
    assert!(verify_solution_checked(VerifySolutionOptions::new(&c, &sol, "s".to_string())).is_none());
    let ok = unsigned(params("SHA-256", 1, ""));
    assert!(matches!(solve_challenge_checked(SolveChallengeOptions::new(&ok)), Some(Ok(Some(_)))));
    let mut big = params("PBKDF2/SHA-256", 1, "");
    big.key_length = 32 * 0xffff_ffff + 1;
    assert!(altcha::algorithms::pbkdf2::derive_key_checked(&big, b"s", b"p").is_none());
    let small = params("PBKDF2/SHA-512", 1, "");
    assert_eq!(
        altcha::algorithms::pbkdf2::derive_key_checked(&small, b"s", b"p").unwrap().unwrap().len(),
        32
    );
}

#[test]
fn solver_finds_with_empty_prefix() {
    let c = unsigned(params("SHA-512", 1, ""));
    let mut solver = Solver::new(&SolveChallengeOptions::new(&c)).unwrap();
    match solver.step(None, 0) {
        Ok(SolveStep::Found(sol)) => {
            assert_eq!(sol.counter, 0);
            assert_eq!(sol.derived_key.len(), 64);
            assert!(sol.time.is_none());
        }
        _ => panic!("expected a solution"),
    }
}

fn signed(p: ChallengeParameters, key: Option<&[u8]>, key_secret: Option<&str>) -> Challenge {
    let mut p = p;
    sign_challenge(&HmacAlgorithm::Sha256, &mut p, key, "s", key_secret).unwrap()
}

#[test]
fn verify_solution_expiry_is_strict() {
    let mut p = params("SHA-256", 1, "");
    p.expires_at = Some(100);
    let c = signed(p, None, None);
    let sol = solve_challenge(SolveChallengeOptions::new(&c)).unwrap().unwrap();
    let o = VerifySolutionOptions::new(&c, &sol, "s".to_string());
    let r = verify_solution_at(&o, 100).unwrap();
    assert!(r.verified && !r.expired);
    let r = verify_solution_at(&o, 101).unwrap();
    assert!(r.expired && !r.verified);
    assert_eq!(r.invalid_signature, None);
    assert_eq!(r.invalid_solution, None);
}

#[test]
fn verify_solution_key_signature_fast_path() {
    let p = params("SHA-256", 1, "");
    let nonce = hex_to_bytes(&p.nonce).unwrap();
    let salt = hex_to_bytes(&p.salt).unwrap();
    let key = derive_key(&p, &salt, &build_password(&nonce, 9)).unwrap();
    let c = signed(p, Some(&key), Some("ks"));
    assert!(c.parameters.key_signature.is_some());
    // Any counter passes on the fast path: only the key's signature is checked.
    let sol = Solution { counter: 1234, derived_key: bytes_to_hex(&key), time: None };
    let good = verify_solution(VerifySolutionOptions {
        hmac_key_signature_secret: Some("ks".to_string()),
        ..VerifySolutionOptions::new(&c, &sol, "s".to_string())
    })
    .unwrap();
    assert!(good.verified);
    let bad = verify_solution(VerifySolutionOptions {
        hmac_key_signature_secret: Some("other".to_string()),
        ..VerifySolutionOptions::new(&c, &sol, "s".to_string())
    })
    .unwrap();
    assert!(!bad.verified);
    assert_eq!(bad.invalid_solution, Some(true));
    assert_eq!(bad.invalid_signature, Some(false));
}

#[test]
fn verify_solution_rejects_undecodable_key() {
    let c = signed(params("SHA-256", 1, ""), None, None);
    let sol = Solution { counter: 0, derived_key: "not hex".to_string(), time: None };
    let r = verify_solution(VerifySolutionOptions::new(&c, &sol, "s".to_string())).unwrap();
    assert!(!r.verified);
    assert_eq!(r.invalid_solution, Some(true));
}

#[test]
fn sign_challenge_sets_key_signature() {
    let mut p = params("SHA-256", 1, "00");
    let c = sign_challenge(&HmacAlgorithm::Sha256, &mut p, Some(&[1, 2, 3]), "s", Some("ks")).unwrap();
    let mut mac = Hmac::<Sha256>::new_from_slice(b"ks").unwrap();
    mac.update(&[1, 2, 3]);
    let expected = hex::encode(mac.finalize().into_bytes());
    assert_eq!(p.key_signature.as_deref(), Some(expected.as_str()));
    assert_eq!(c.parameters.key_signature.as_deref(), Some(expected.as_str()));
    let mut q = params("SHA-256", 1, "00");
    sign_challenge(&HmacAlgorithm::Sha256, &mut q, Some(&[1, 2, 3]), "s", None).unwrap();
    assert!(q.key_signature.is_none());
    let digest = Sha256::digest(b"x");
    assert_eq!(digest.len(), 32);
}
