//! The data of the protocol: challenges, solutions, options and results.
use vstd::prelude::*;

use crate::json::{copy_entries, kv_view, Json, JsonValue};

verus! {

/// HMAC digest algorithm used for signing challenges.
#[derive(Clone, Copy, Debug, PartialEq, Eq, Structural)]
pub enum HmacAlgorithm {
    Sha256,
    Sha384,
    Sha512,
}

impl Default for HmacAlgorithm {
    fn default() -> (r: Self)
        ensures
            r == HmacAlgorithm::Sha256,
    {
        HmacAlgorithm::Sha256
    }
}

/// The model of an optional string.
pub open spec fn opt_str(s: Option<String>) -> Option<Seq<char>> {
    match s {
        Some(t) => Some(t@),
        None => None,
    }
}

/// The model of an optional object.
pub open spec fn opt_object(d: Option<Vec<(String, JsonValue)>>) -> Option<Seq<(Seq<char>, Json)>> {
    match d {
        Some(o) => Some(kv_view(o@)),
        None => None,
    }
}

/// Challenge parameters embedded in a challenge.
///
/// Their canonical JSON (keys in alphabetical order, absent options left out)
/// is what the challenge signature covers.
#[derive(Debug)]
pub struct ChallengeParameters {
    pub algorithm: String,
    pub cost: u32,
    /// Arbitrary metadata: the entries of a JSON object.
    pub data: Option<Vec<(String, JsonValue)>>,
    pub expires_at: Option<u64>,
    pub key_length: usize,
    pub key_prefix: String,
    pub key_signature: Option<String>,
    pub memory_cost: Option<u32>,
    pub nonce: String,
    pub parallelism: Option<u32>,
    pub salt: String,
}

/// The model of [`ChallengeParameters`].
pub struct ChallengeParametersView {
    pub algorithm: Seq<char>,
    pub cost: u32,
    pub data: Option<Seq<(Seq<char>, Json)>>,
    pub expires_at: Option<u64>,
    pub key_length: usize,
    pub key_prefix: Seq<char>,
    pub key_signature: Option<Seq<char>>,
    pub memory_cost: Option<u32>,
    pub nonce: Seq<char>,
    pub parallelism: Option<u32>,
    pub salt: Seq<char>,
}

impl View for ChallengeParameters {
    type V = ChallengeParametersView;

    open spec fn view(&self) -> ChallengeParametersView {
        ChallengeParametersView {
            algorithm: self.algorithm@,
            cost: self.cost,
            data: opt_object(self.data),
            expires_at: self.expires_at,
            key_length: self.key_length,
            key_prefix: self.key_prefix@,
            key_signature: opt_str(self.key_signature),
            memory_cost: self.memory_cost,
            nonce: self.nonce@,
            parallelism: self.parallelism,
            salt: self.salt@,
        }
    }
}

/// A copy of an optional string.
pub fn clone_opt_string(s: &Option<String>) -> (r: Option<String>)
    ensures
        opt_str(r) == opt_str(*s),
{
    match s {
        Some(t) => Some(t.clone()),
        None => None,
    }
}

impl Clone for ChallengeParameters {
    fn clone(&self) -> (r: Self)
        ensures
            r@ == self@,
    {
        let data = match &self.data {
            Some(o) => Some(copy_entries(o)),
            None => None,
        };
        ChallengeParameters {
            algorithm: self.algorithm.clone(),
            cost: self.cost,
            data,
            expires_at: self.expires_at,
            key_length: self.key_length,
            key_prefix: self.key_prefix.clone(),
            key_signature: clone_opt_string(&self.key_signature),
            memory_cost: self.memory_cost,
            nonce: self.nonce.clone(),
            parallelism: self.parallelism,
            salt: self.salt.clone(),
        }
    }
}

/// A challenge issued to the client.
#[derive(Debug)]
pub struct Challenge {
    pub parameters: ChallengeParameters,
    pub signature: Option<String>,
}

/// The model of a [`Challenge`].
pub struct ChallengeView {
    pub parameters: ChallengeParametersView,
    pub signature: Option<Seq<char>>,
}

impl View for Challenge {
    type V = ChallengeView;

    open spec fn view(&self) -> ChallengeView {
        ChallengeView { parameters: self.parameters@, signature: opt_str(self.signature) }
    }
}

impl Clone for Challenge {
    fn clone(&self) -> (r: Self)
        ensures
            r@ == self@,
    {
        Challenge {
            parameters: self.parameters.clone(),
            signature: clone_opt_string(&self.signature),
        }
    }
}

/// A solution returned by the client after solving a challenge.
#[derive(Debug)]
pub struct Solution {
    pub counter: u32,
    pub derived_key: String,
    /// Time the client spent solving, in tenths of a millisecond.
    pub time: Option<u64>,
}

impl Clone for Solution {
    fn clone(&self) -> (r: Self)
        ensures
            r.counter == self.counter,
            r.derived_key@ == self.derived_key@,
            r.time == self.time,
    {
        Solution { counter: self.counter, derived_key: self.derived_key.clone(), time: self.time }
    }
}

/// Combined payload sent from the client to the server for verification.
#[derive(Debug)]
pub struct Payload {
    pub challenge: Challenge,
    pub solution: Solution,
}

/// Result of verifying a challenge solution.
#[derive(Debug, Clone, Copy)]
pub struct VerifySolutionResult {
    /// Whether the challenge has expired.
    pub expired: bool,
    /// Whether the challenge signature is invalid or missing.
    /// `None` when the expiration check failed before reaching this step.
    pub invalid_signature: Option<bool>,
    /// Whether the solution (derived key) is invalid.
    /// `None` when the signature check failed before reaching this step.
    pub invalid_solution: Option<bool>,
    /// Time taken to verify, in tenths of a millisecond.
    pub time: u64,
    /// Whether the solution is valid overall.
    pub verified: bool,
}

/// Payload sent from ALTCHA Sentinel to be verified server-side.
#[derive(Debug)]
pub struct ServerSignaturePayload {
    /// Hash + HMAC algorithm (e.g. `"SHA-256"`).
    pub algorithm: String,
    pub api_key: Option<String>,
    pub id: Option<String>,
    /// Hex-encoded HMAC signature of `HASH(verificationData)`.
    pub signature: String,
    /// URL-encoded query string of verification data from ALTCHA Sentinel.
    pub verification_data: String,
    /// Whether ALTCHA Sentinel considers the submission verified.
    pub verified: bool,
}

/// Parsed key-value data from the `verificationData` field of a
/// [`ServerSignaturePayload`].
#[derive(Debug)]
pub struct ServerSignatureVerificationData {
    pub classification: Option<String>,
    pub email: Option<String>,
    /// Unix timestamp after which the payload is considered expired.
    pub expire: Option<u64>,
    pub fields: Option<Vec<String>>,
    pub fields_hash: Option<String>,
    pub id: Option<String>,
    pub ip_address: Option<String>,
    pub reasons: Option<Vec<String>>,
    /// The `score` value as sent: the text of a decimal number.
    pub score: Option<String>,
    /// The `time` value as sent: the text of a decimal number.
    pub time: Option<String>,
    pub verified: Option<bool>,
    /// Any additional fields, in key order, one entry per key.
    pub extra: Vec<(String, String)>,
}

/// The model of a list of strings.
pub open spec fn strs_view(v: Seq<String>) -> Seq<Seq<char>> {
    Seq::new(v.len(), |i: int| v[i]@)
}

/// The model of an optional list of strings.
pub open spec fn opt_strs(v: Option<Vec<String>>) -> Option<Seq<Seq<char>>> {
    match v {
        Some(l) => Some(strs_view(l@)),
        None => None,
    }
}

/// The model of [`ServerSignatureVerificationData`].
pub struct VerificationDataView {
    pub classification: Option<Seq<char>>,
    pub email: Option<Seq<char>>,
    pub expire: Option<u64>,
    pub fields: Option<Seq<Seq<char>>>,
    pub fields_hash: Option<Seq<char>>,
    pub id: Option<Seq<char>>,
    pub ip_address: Option<Seq<char>>,
    pub reasons: Option<Seq<Seq<char>>>,
    pub score: Option<Seq<char>>,
    pub time: Option<Seq<char>>,
    pub verified: Option<bool>,
    pub extra: Seq<(Seq<char>, Seq<char>)>,
}

impl View for ServerSignatureVerificationData {
    type V = VerificationDataView;

    open spec fn view(&self) -> VerificationDataView {
        VerificationDataView {
            classification: opt_str(self.classification),
            email: opt_str(self.email),
            expire: self.expire,
            fields: opt_strs(self.fields),
            fields_hash: opt_str(self.fields_hash),
            id: opt_str(self.id),
            ip_address: opt_str(self.ip_address),
            reasons: opt_strs(self.reasons),
            score: opt_str(self.score),
            time: opt_str(self.time),
            verified: self.verified,
            extra: kv_view(self.extra@),
        }
    }
}

/// The empty verification data: no field set, no extra entries.
pub open spec fn empty_verification_data() -> VerificationDataView {
    VerificationDataView {
        classification: None,
        email: None,
        expire: None,
        fields: None,
        fields_hash: None,
        id: None,
        ip_address: None,
        reasons: None,
        score: None,
        time: None,
        verified: None,
        extra: Seq::empty(),
    }
}

impl Default for ServerSignatureVerificationData {
    fn default() -> (r: Self)
        ensures
            r@ == empty_verification_data(),
    {
        let r = ServerSignatureVerificationData {
            classification: None,
            email: None,
            expire: None,
            fields: None,
            fields_hash: None,
            id: None,
            ip_address: None,
            reasons: None,
            score: None,
            time: None,
            verified: None,
            extra: Vec::new(),
        };
        assert(r@.extra =~= Seq::<(Seq<char>, Seq<char>)>::empty());
        r
    }
}

/// Result of verifying a [`ServerSignaturePayload`].
#[derive(Debug)]
pub struct VerifyServerSignatureResult {
    pub expired: bool,
    pub invalid_signature: bool,
    pub invalid_solution: bool,
    /// Time taken to verify, in tenths of a millisecond.
    pub time: u64,
    pub verified: bool,
    /// Parsed verification data, or `None` if parsing failed.
    pub verification_data: Option<ServerSignatureVerificationData>,
}

/// Options for creating a new challenge.
#[derive(Debug)]
pub struct CreateChallengeOptions {
    /// Key derivation algorithm (e.g. `"PBKDF2/SHA-256"`, `"SCRYPT"`, `"ARGON2ID"`).
    pub algorithm: String,
    /// Optional pre-determined counter for deterministic mode.
    /// When set, the key prefix is derived from this counter value.
    pub counter: Option<u32>,
    /// Algorithm-specific cost parameter (iterations, time cost, etc.).
    pub cost: u32,
    /// Arbitrary metadata to embed in the challenge: the entries of a JSON object.
    pub data: Option<Vec<(String, JsonValue)>>,
    /// Unix timestamp (seconds) after which the challenge expires.
    pub expires_at: Option<u64>,
    /// HMAC algorithm for signing (default: `HmacAlgorithm::Sha256`).
    pub hmac_algorithm: HmacAlgorithm,
    /// HMAC secret for signing derived keys (deterministic mode only).
    pub hmac_key_signature_secret: Option<String>,
    /// HMAC secret for signing the challenge payload. If `None`, the challenge is unsigned.
    pub hmac_signature_secret: Option<String>,
    /// Length of the derived key in bytes (default: 32).
    pub key_length: usize,
    /// Required hex prefix the derived key must start with (default: `"00"`).
    pub key_prefix: String,
    /// Number of bytes used as the key prefix in deterministic mode (default: `key_length / 2`).
    pub key_prefix_length: Option<usize>,
    /// Memory cost in KiB for memory-hard algorithms (Argon2id, Scrypt).
    pub memory_cost: Option<u32>,
    /// Parallelism factor for Argon2id and Scrypt.
    pub parallelism: Option<u32>,
}

/// The default options: PBKDF2/SHA-256 at cost 100000, a 32-byte key with
/// prefix `"00"`, SHA-256 signatures, everything optional left out.
pub open spec fn default_create_options(o: CreateChallengeOptions) -> bool {
    &&& o.algorithm@ == "PBKDF2/SHA-256"@
    &&& o.counter is None
    &&& o.cost == 100_000
    &&& o.data is None
    &&& o.expires_at is None
    &&& o.hmac_algorithm == HmacAlgorithm::Sha256
    &&& o.hmac_key_signature_secret is None
    &&& o.hmac_signature_secret is None
    &&& o.key_length == 32
    &&& o.key_prefix@ == "00"@
    &&& o.key_prefix_length is None
    &&& o.memory_cost is None
    &&& o.parallelism is None
}

impl Default for CreateChallengeOptions {
    fn default() -> (r: Self)
        ensures
            default_create_options(r),
    {
        CreateChallengeOptions {
            algorithm: "PBKDF2/SHA-256".to_string(),
            counter: None,
            cost: 100_000,
            data: None,
            expires_at: None,
            hmac_algorithm: HmacAlgorithm::Sha256,
            hmac_key_signature_secret: None,
            hmac_signature_secret: None,
            key_length: 32,
            key_prefix: "00".to_string(),
            key_prefix_length: None,
            memory_cost: None,
            parallelism: None,
        }
    }
}

/// Options for solving a challenge.
pub struct SolveChallengeOptions<'a> {
    /// The challenge to solve.
    pub challenge: &'a Challenge,
    /// Starting counter value (default: 0).
    pub counter_start: u32,
    /// Counter increment per iteration (default: 1).
    pub counter_step: u32,
    /// Maximum time to attempt solving in milliseconds (default: 90,000).
    pub timeout_ms: u64,
}

impl<'a> SolveChallengeOptions<'a> {
    pub fn new(challenge: &'a Challenge) -> (r: Self)
        ensures
            r.challenge == challenge,
            r.counter_start == 0,
            r.counter_step == 1,
            r.timeout_ms == 90_000,
    {
        SolveChallengeOptions { challenge, counter_start: 0, counter_step: 1, timeout_ms: 90_000 }
    }
}

/// Options for verifying a submitted solution.
pub struct VerifySolutionOptions<'a> {
    /// The challenge that was issued.
    pub challenge: &'a Challenge,
    /// The solution submitted by the client.
    pub solution: &'a Solution,
    /// HMAC algorithm used to sign the challenge (default: `HmacAlgorithm::Sha256`).
    pub hmac_algorithm: HmacAlgorithm,
    /// HMAC secret for verifying derived-key signatures (deterministic mode).
    pub hmac_key_signature_secret: Option<String>,
    /// HMAC secret used when the challenge was created.
    pub hmac_signature_secret: String,
}

impl<'a> VerifySolutionOptions<'a> {
    pub fn new(challenge: &'a Challenge, solution: &'a Solution, hmac_signature_secret: String) -> (r: Self)
        ensures
            r.challenge == challenge,
            r.solution == solution,
            r.hmac_algorithm == HmacAlgorithm::Sha256,
            r.hmac_key_signature_secret is None,
            r.hmac_signature_secret == hmac_signature_secret,
    {
        VerifySolutionOptions {
            challenge,
            solution,
            hmac_algorithm: HmacAlgorithm::Sha256,
            hmac_key_signature_secret: None,
            hmac_signature_secret,
        }
    }
}

} // verus!
