//! The proof-of-work protocol: creating, signing, solving and verifying
//! challenges.
use vstd::prelude::*;
use vstd::string::StringSliceAdditionalSpecFns;
use vstd::utf8::encode_utf8;

use crate::algorithms::{
    derive_key, derive_outcome, kdf_for_name, kdf_limits, kdf_limits_ok, within_kdf_limits,
};
use crate::error::{Error, ErrorView, Result};
use crate::helpers::{
    buffer_starts_with, build_password, bytes_to_hex, constant_time_equal_hex, digest_len,
    elapsed_nanos,
    elapsed_tenths_ms,
    hex_to_bytes, hmac_sign, hmac_tag, instant_now, password_for, random_bytes_16,
    unix_now_secs,
};
use crate::json::{canonical_json, canonical_params};
use crate::text::{
    chars_of, chars_start_with, hex_decode, hex_encode, is_lower_hex, lemma_hex_encode_lower,
    lemma_hex_encode_prefix, lemma_hex_encode_take, lemma_hex_round_trip,
    lemma_lower_hex_decode_encode, starts_with, string_from_chars, upper_case,
};
use crate::types::{
    opt_object, Challenge, ChallengeParameters, ChallengeParametersView, ChallengeView,
    CreateChallengeOptions, HmacAlgorithm, Solution, SolveChallengeOptions, VerifySolutionOptions,
    VerifySolutionResult,
};

verus! {

// ---------------------------------------------------------------------------
// Signing
// ---------------------------------------------------------------------------

/// The model of an optional byte slice.
pub open spec fn opt_bytes(b: Option<&[u8]>) -> Option<Seq<u8>> {
    match b {
        Some(x) => Some(x@),
        None => None,
    }
}

/// The UTF-8 bytes of an optional string slice.
pub open spec fn opt_str_bytes(s: Option<&str>) -> Option<Seq<u8>> {
    match s {
        Some(x) => Some(x.spec_bytes()),
        None => None,
    }
}

/// The UTF-8 bytes of an optional string.
pub open spec fn opt_string_bytes(s: Option<String>) -> Option<Seq<u8>> {
    match s {
        Some(x) => Some(encode_utf8(x@)),
        None => None,
    }
}

/// The hex HMAC signature of the canonical JSON of the parameters.
pub open spec fn signature_for(alg: HmacAlgorithm, secret: Seq<u8>, p: ChallengeParametersView) -> Seq<char> {
    hex_encode(hmac_tag(alg, secret, encode_utf8(canonical_params(p))))
}

/// The hex HMAC signature of a derived key.
pub open spec fn key_signature_for(alg: HmacAlgorithm, key_secret: Seq<u8>, key: Seq<u8>) -> Seq<char> {
    hex_encode(hmac_tag(alg, key_secret, key))
}

/// The parameters with another key signature.
pub open spec fn with_key_signature(p: ChallengeParametersView, sig: Option<Seq<char>>) -> ChallengeParametersView {
    ChallengeParametersView {
        algorithm: p.algorithm,
        cost: p.cost,
        data: p.data,
        expires_at: p.expires_at,
        key_length: p.key_length,
        key_prefix: p.key_prefix,
        key_signature: sig,
        memory_cost: p.memory_cost,
        nonce: p.nonce,
        parallelism: p.parallelism,
        salt: p.salt,
    }
}

/// The parameters with another key prefix.
pub open spec fn with_key_prefix(p: ChallengeParametersView, prefix: Seq<char>) -> ChallengeParametersView {
    ChallengeParametersView {
        algorithm: p.algorithm,
        cost: p.cost,
        data: p.data,
        expires_at: p.expires_at,
        key_length: p.key_length,
        key_prefix: prefix,
        key_signature: p.key_signature,
        memory_cost: p.memory_cost,
        nonce: p.nonce,
        parallelism: p.parallelism,
        salt: p.salt,
    }
}

/// The parameters after signing: when both a derived key and a key secret
/// are given, the key signature is set to the key's HMAC; otherwise they are
/// unchanged.
pub open spec fn signed_parameters(
    alg: HmacAlgorithm,
    p: ChallengeParametersView,
    derived_key: Option<Seq<u8>>,
    key_secret: Option<Seq<u8>>,
) -> ChallengeParametersView {
    match (derived_key, key_secret) {
        (Some(k), Some(s)) => with_key_signature(p, Some(key_signature_for(alg, s, k))),
        _ => p,
    }
}

/// Signs challenge parameters and returns a `Challenge` with a signature.
///
/// When `hmac_key_signature_secret` is provided and a `derived_key` is given,
/// the derived key is also signed separately so that verification can skip
/// re-deriving the key (fast-path verification).
pub fn sign_challenge(
    algorithm: &HmacAlgorithm,
    parameters: &mut ChallengeParameters,
    derived_key: Option<&[u8]>,
    hmac_signature_secret: &str,
    hmac_key_signature_secret: Option<&str>,
) -> (r: Result<Challenge>)
    ensures
        final(parameters)@ == signed_parameters(
            *algorithm,
            old(parameters)@,
            opt_bytes(derived_key),
            opt_str_bytes(hmac_key_signature_secret),
        ),
        (derived_key is Some && hmac_key_signature_secret is Some) ==> (final(parameters).key_signature matches Some(ks) && ks@ == hex_encode(
            hmac_tag(
                *algorithm,
                hmac_key_signature_secret->0.spec_bytes(),
                derived_key->0@,
            ),
        ) && ks@.len() == 2 * digest_len(*algorithm)),
        r is Ok,
        r matches Ok(c) ==> c@ == (ChallengeView {
            parameters: final(parameters)@,
            signature: Some(
                signature_for(*algorithm, hmac_signature_secret.spec_bytes(), final(parameters)@),
            ),
        }),
{
    match derived_key {
        Some(key) => match hmac_key_signature_secret {
            Some(key_secret) => {
                let key_sig = hmac_sign(algorithm, key, key_secret)?;
                parameters.key_signature = Some(bytes_to_hex(key_sig.as_slice()));
            },
            None => {},
        },
        None => {},
    }
    let json = canonical_json(parameters);
    let sig = hmac_sign(algorithm, json.as_str().as_bytes(), hmac_signature_secret)?;
    Ok(Challenge { parameters: parameters.clone(), signature: Some(bytes_to_hex(sig.as_slice())) })
}

// ---------------------------------------------------------------------------
// Creating
// ---------------------------------------------------------------------------

/// The number of derived-key bytes that become the prefix in deterministic mode.
pub open spec fn prefix_length(o: CreateChallengeOptions) -> nat {
    match o.key_prefix_length {
        Some(n) => n as nat,
        None => (o.key_length / 2) as nat,
    }
}

/// The parameters of a new challenge before deterministic mode and signing:
/// the options, with the nonce and salt in hex.
pub open spec fn initial_parameters(o: CreateChallengeOptions, nonce: Seq<u8>, salt: Seq<u8>) -> ChallengeParametersView {
    ChallengeParametersView {
        algorithm: o.algorithm@,
        cost: o.cost,
        data: opt_object(o.data),
        expires_at: o.expires_at,
        key_length: o.key_length,
        key_prefix: o.key_prefix@,
        key_signature: None,
        memory_cost: o.memory_cost,
        nonce: hex_encode(nonce),
        parallelism: o.parallelism,
        salt: hex_encode(salt),
    }
}

/// In deterministic mode, what deriving the key for the chosen counter gives.
pub open spec fn creation_key(o: CreateChallengeOptions, nonce: Seq<u8>, salt: Seq<u8>) -> core::result::Result<
    Option<Seq<u8>>,
    ErrorView,
> {
    match o.counter {
        None => Ok(None),
        Some(c) => match derive_outcome(initial_parameters(o, nonce, salt), salt, password_for(nonce, c)) {
            Ok(k) => Ok(Some(k)),
            Err(e) => Err(e),
        },
    }
}

/// Deterministic mode needs the prefix to fit in the derived key.
pub open spec fn prefix_fits(o: CreateChallengeOptions, nonce: Seq<u8>, salt: Seq<u8>) -> bool {
    creation_key(o, nonce, salt) matches Ok(Some(k)) ==> prefix_length(o) <= k.len()
}

/// The challenge created from options, nonce and salt: in deterministic mode
/// the key prefix is the hex of the first bytes of the key derived for the
/// counter; with a signature secret the parameters (and, with a key secret,
/// the derived key) are signed.
pub open spec fn create_outcome(o: CreateChallengeOptions, nonce: Seq<u8>, salt: Seq<u8>) -> core::result::Result<
    ChallengeView,
    ErrorView,
> {
    let p0 = initial_parameters(o, nonce, salt);
    match creation_key(o, nonce, salt) {
        Err(e) => Err(e),
        Ok(dk) => {
            let p1 = match dk {
                Some(k) => with_key_prefix(p0, hex_encode(k.take(prefix_length(o) as int))),
                None => p0,
            };
            match o.hmac_signature_secret {
                None => Ok(ChallengeView { parameters: p1, signature: None }),
                Some(secret) => {
                    let p2 = signed_parameters(
                        o.hmac_algorithm,
                        p1,
                        dk,
                        opt_string_bytes(o.hmac_key_signature_secret),
                    );
                    Ok(
                        ChallengeView {
                            parameters: p2,
                            signature: Some(signature_for(o.hmac_algorithm, encode_utf8(secret@), p2)),
                        },
                    )
                },
            }
        },
    }
}

/// A challenge result seen through its model.
pub open spec fn challenge_result(r: Result<Challenge>) -> core::result::Result<ChallengeView, ErrorView> {
    match r {
        Ok(c) => Ok(c@),
        Err(e) => Err(e@),
    }
}

/// Creates a challenge with the given nonce and salt bytes. `derived_key` is
/// the key derived for `options.counter` in deterministic mode (none
/// otherwise); the key prefix must fit in it.
pub fn create_challenge_with(
    options: CreateChallengeOptions,
    nonce_bytes: &[u8],
    salt_bytes: &[u8],
    derived_key: Option<Vec<u8>>,
) -> (r: Result<Challenge>)
    requires
        match creation_key(options, nonce_bytes@, salt_bytes@) {
            Ok(Some(k)) => derived_key matches Some(d) && d@ == k && prefix_length(options) <= k.len(),
            Ok(None) => derived_key is None,
            Err(_) => false,
        },
    ensures
        challenge_result(r) == create_outcome(options, nonce_bytes@, salt_bytes@),
{
    let ghost o = options;
    let key_prefix_length = match options.key_prefix_length {
        Some(n) => n,
        None => options.key_length / 2,
    };
    let mut parameters = ChallengeParameters {
        algorithm: options.algorithm,
        cost: options.cost,
        data: options.data,
        expires_at: options.expires_at,
        key_length: options.key_length,
        key_prefix: options.key_prefix,
        key_signature: None,
        memory_cost: options.memory_cost,
        nonce: bytes_to_hex(nonce_bytes),
        parallelism: options.parallelism,
        salt: bytes_to_hex(salt_bytes),
    };
    assert(parameters@ == initial_parameters(o, nonce_bytes@, salt_bytes@));
    match &derived_key {
        Some(key) => {
            let mut prefix: Vec<u8> = Vec::new();
            let mut i: usize = 0;
            while i < key_prefix_length
                invariant
                    i <= key_prefix_length <= key@.len(),
                    prefix@ == key@.take(i as int),
                decreases key_prefix_length - i,
            {
                prefix.push(key[i]);
                i += 1;
                assert(prefix@ =~= key@.take(i as int));
            }
            parameters.key_prefix = bytes_to_hex(prefix.as_slice());
        },
        None => {},
    }
    let ghost p1 = parameters@;
    match options.hmac_signature_secret {
        None => Ok(Challenge { parameters, signature: None }),
        Some(secret) => {
            let key_ref: Option<&[u8]> = match &derived_key {
                Some(k) => Some(k.as_slice()),
                None => None,
            };
            let key_secret_ref: Option<&str> = match &options.hmac_key_signature_secret {
                Some(s) => Some(s.as_str()),
                None => None,
            };
            sign_challenge(
                &options.hmac_algorithm,
                &mut parameters,
                key_ref,
                secret.as_str(),
                key_secret_ref,
            )
        },
    }
}

/// The message for deterministic-mode options whose prefix length exceeds
/// the derived key.
pub open spec fn prefix_too_long_message() -> Seq<char> {
    "key_prefix_length exceeds the derived key length"@
}

/// In deterministic mode the key is derived at creation, so the parameters
/// must be within the KDF's limits.
pub open spec fn creation_within_limits(o: CreateChallengeOptions) -> bool {
    o.counter is Some ==> kdf_limits(kdf_for_name(upper_case(o.algorithm@)), o.key_length, o.parallelism)
}

/// `r` is what creating a challenge from `o` gives for some 16-byte nonce and
/// salt: the challenge (or error) of [`create_outcome`], or `InvalidParameters`
/// when the prefix does not fit in the derived key.
pub open spec fn created_from(o: CreateChallengeOptions, r: Result<Challenge>) -> bool {
    exists|nonce: Seq<u8>, salt: Seq<u8>|
        #![trigger create_outcome(o, nonce, salt)]
        nonce.len() == 16 && salt.len() == 16 && if prefix_fits(o, nonce, salt) {
            challenge_result(r) == create_outcome(o, nonce, salt)
        } else {
            challenge_result(r) == Err::<ChallengeView, ErrorView>(
                ErrorView::InvalidParameters(prefix_too_long_message()),
            )
        }
}

/// Creates a new ALTCHA PoW v2 challenge.
///
/// Generates a random 16-byte nonce and salt. If `options.counter` is set the
/// challenge operates in *deterministic mode*: the key prefix is derived from
/// that counter so the server knows exactly which key prefix to expect. The
/// challenge is signed with HMAC when `options.hmac_signature_secret` is set.
/// A prefix length beyond the derived key's length is refused with
/// `InvalidParameters`.
pub fn create_challenge(options: CreateChallengeOptions) -> (r: Result<Challenge>)
    requires
        creation_within_limits(options),
    ensures
        created_from(options, r),
{
    let nonce_arr = random_bytes_16();
    let salt_arr = random_bytes_16();
    let nonce_bytes = vstd::array::array_as_slice(&nonce_arr);
    let salt_bytes = vstd::array::array_as_slice(&salt_arr);
    let ghost o = options;
    let ghost n = nonce_bytes@;
    let ghost s = salt_bytes@;
    assert(create_outcome(o, n, s) == create_outcome(o, n, s));
    let derived: Option<Vec<u8>> = match options.counter {
        None => None,
        Some(counter) => {
            let initial = ChallengeParameters {
                algorithm: options.algorithm.clone(),
                cost: options.cost,
                data: None,
                expires_at: options.expires_at,
                key_length: options.key_length,
                key_prefix: options.key_prefix.clone(),
                key_signature: None,
                memory_cost: options.memory_cost,
                nonce: bytes_to_hex(nonce_bytes),
                parallelism: options.parallelism,
                salt: bytes_to_hex(salt_bytes),
            };
            let nonce_hex = initial.nonce.as_str();
            let salt_hex = initial.salt.as_str();
            proof {
                lemma_hex_round_trip(n);
                lemma_hex_round_trip(s);
            }
            let nb = hex_to_bytes(nonce_hex)?;
            let sb = hex_to_bytes(salt_hex)?;
            let password = build_password(nb.as_slice(), counter);
            let key = derive_key(&initial, sb.as_slice(), password.as_slice());
            proof {
                assert(derive_outcome(initial@, s, password_for(n, counter)) == derive_outcome(
                    initial_parameters(o, n, s),
                    s,
                    password_for(n, counter),
                ));
            }
            let key = match key {
                Ok(k) => k,
                Err(e) => {
                    assert(creation_key(o, n, s) == Err::<Option<Seq<u8>>, ErrorView>(e@));
                    assert(create_outcome(o, n, s) == Err::<ChallengeView, ErrorView>(e@));
                    return Err(e);
                },
            };
            let prefix_len = match options.key_prefix_length {
                Some(x) => x,
                None => options.key_length / 2,
            };
            if prefix_len > key.len() {
                assert(creation_key(o, n, s) == Ok::<Option<Seq<u8>>, ErrorView>(Some(key@)));
                assert(!prefix_fits(o, n, s));
                return Err(
                    Error::InvalidParameters(
                        "key_prefix_length exceeds the derived key length".to_string(),
                    ),
                );
            }
            Some(key)
        },
    };
    let r = create_challenge_with(options, nonce_bytes, salt_bytes, derived);
    assert(create_outcome(o, n, s) == create_outcome(o, n, s));
    r
}

/// [`create_challenge`] when the options are within the KDF's limits;
/// `None`, creating nothing, when they are not.
pub fn create_challenge_checked(options: CreateChallengeOptions) -> (r: Option<Result<Challenge>>)
    ensures
        r is None <==> !creation_within_limits(options),
        r matches Some(x) ==> created_from(options, x),
{
    if options.counter.is_some() && !within_kdf_limits(
        options.algorithm.as_str(),
        options.key_length,
        options.parallelism,
    ) {
        None
    } else {
        Some(create_challenge(options))
    }
}

// ---------------------------------------------------------------------------
// Solving
// ---------------------------------------------------------------------------

/// Whether a derived key meets the challenge's required prefix: by bytes when
/// the decoded prefix is given, by hex text otherwise.
pub open spec fn key_matches(key: Seq<u8>, prefix_bytes: Option<Seq<u8>>, key_prefix: Seq<char>) -> bool {
    match prefix_bytes {
        Some(b) => starts_with(key, b),
        None => starts_with(hex_encode(key), key_prefix),
    }
}

/// The state of a search for a solution. The caller drives it: it calls
/// [`Solver::step`], with a clock reading when it wants the time limit
/// checked, until a step is not `Continue`.
pub struct Solver {
    /// A copy of the challenge parameters.
    pub parameters: ChallengeParameters,
    /// The decoded nonce.
    pub nonce: Vec<u8>,
    /// The decoded salt.
    pub salt: Vec<u8>,
    /// The decoded key prefix, when its text has an even number of bytes.
    pub prefix: Option<Vec<u8>>,
    /// The next counter to try.
    pub counter: u32,
    /// The counter increment.
    pub step: u32,
}

/// What one step of the search found.
pub enum SolveStep {
    /// The time limit was reached before this counter was tried.
    TimedOut,
    /// The counter's key meets the prefix; the solution has no time set.
    Found(Solution),
    /// The counter's key did not meet the prefix; the next counter is set.
    Continue,
}

/// The model of an optional byte vector.
pub open spec fn opt_vec(v: Option<Vec<u8>>) -> Option<Seq<u8>> {
    match v {
        Some(x) => Some(x@),
        None => None,
    }
}

/// The decoded prefix: `Some` of the decoded bytes when the prefix text has
/// an even number of bytes (and decodes), `None` for an odd number.
pub open spec fn prefix_bytes_of(key_prefix: Seq<char>) -> Option<Seq<u8>> {
    if encode_utf8(key_prefix).len() % 2 == 0 {
        hex_decode(encode_utf8(key_prefix))
    } else {
        None
    }
}

/// Whether the prefix text fails to decode although its byte length is even.
pub open spec fn prefix_undecodable(key_prefix: Seq<char>) -> bool {
    encode_utf8(key_prefix).len() % 2 == 0 && hex_decode(encode_utf8(key_prefix)) is None
}

/// What the solution for a counter is: the hex of the key derived for it,
/// or the error of deriving it.
pub open spec fn key_for_counter(p: ChallengeParametersView, counter: u32) -> core::result::Result<
    Seq<u8>,
    ErrorView,
> {
    match hex_decode(encode_utf8(p.nonce)) {
        None => Err(ErrorView::Hex),
        Some(n) => match hex_decode(encode_utf8(p.salt)) {
            None => Err(ErrorView::Hex),
            Some(s) => derive_outcome(p, s, password_for(n, counter)),
        },
    }
}

/// Whether `elapsed_nanos` nanoseconds are past a limit of `timeout_ms`
/// milliseconds.
pub open spec fn past_time_limit(elapsed_nanos: u128, timeout_ms: u64) -> bool {
    elapsed_nanos > timeout_ms as nat * 1_000_000
}

/// Whether a step given the clock reading `elapsed_nanos` (if any) stops at
/// the time limit.
pub open spec fn clock_says_stop(elapsed_nanos: Option<u128>, timeout_ms: u64) -> bool {
    elapsed_nanos matches Some(e) && past_time_limit(e, timeout_ms)
}

impl Solver {
    /// The solver is consistent with its challenge parameters.
    pub open spec fn wf(&self) -> bool {
        &&& hex_decode(encode_utf8(self.parameters.nonce@)) == Some(self.nonce@)
        &&& hex_decode(encode_utf8(self.parameters.salt@)) == Some(self.salt@)
        &&& opt_vec(self.prefix) == prefix_bytes_of(self.parameters.key_prefix@)
        &&& kdf_limits_ok(self.parameters@)
    }

    /// Prepares the search: decodes the nonce, the salt and (when its text
    /// has an even number of bytes) the key prefix, in that order.
    pub fn new(options: &SolveChallengeOptions) -> (r: Result<Solver>)
        requires
            kdf_limits_ok(options.challenge.parameters@),
        ensures
            hex_decode(encode_utf8(options.challenge.parameters.nonce@)) is None ==> r matches Err(
                Error::Hex(_),
            ),
            hex_decode(encode_utf8(options.challenge.parameters.salt@)) is None ==> r matches Err(
                Error::Hex(_),
            ),
            prefix_undecodable(options.challenge.parameters.key_prefix@) ==> r matches Err(
                Error::Hex(_),
            ),
            r is Ok <==> (hex_decode(encode_utf8(options.challenge.parameters.nonce@)) is Some
                && hex_decode(encode_utf8(options.challenge.parameters.salt@)) is Some
                && !prefix_undecodable(options.challenge.parameters.key_prefix@)),
            r matches Ok(s) ==> s.wf() && s.parameters@ == options.challenge.parameters@
                && s.counter == options.counter_start && s.step == options.counter_step,
    {
        let params = &options.challenge.parameters;
        let nonce = hex_to_bytes(params.nonce.as_str())?;
        let salt = hex_to_bytes(params.salt.as_str())?;
        let prefix = if params.key_prefix.as_str().as_bytes().len() % 2 == 0 {
            Some(hex_to_bytes(params.key_prefix.as_str())?)
        } else {
            None
        };
        Ok(
            Solver {
                parameters: params.clone(),
                nonce,
                salt,
                prefix,
                counter: options.counter_start,
                step: options.counter_step,
            },
        )
    }

    /// Tries the current counter. Given a clock reading `elapsed_nanos` (the
    /// time spent so far), the search first stops when it is past
    /// `timeout_ms` milliseconds.
    pub fn step(&mut self, elapsed_nanos: Option<u128>, timeout_ms: u64) -> (r: Result<SolveStep>)
        requires
            old(self).wf(),
        ensures
            final(self).wf(),
            final(self).parameters@ == old(self).parameters@,
            final(self).step == old(self).step,
            clock_says_stop(elapsed_nanos, timeout_ms) ==> (r matches Ok(
                SolveStep::TimedOut,
            ) && final(self).counter == old(self).counter),
            !clock_says_stop(elapsed_nanos, timeout_ms) ==> match key_for_counter(
                old(self).parameters@,
                old(self).counter,
            ) {
                Err(e) => (r matches Err(x) && x@ == e),
                Ok(k) => if key_matches(k, opt_vec(old(self).prefix), old(self).parameters.key_prefix@) {
                    (r matches Ok(SolveStep::Found(sol)) && sol.counter == old(self).counter
                        && sol.derived_key@ == hex_encode(k) && sol.time is None
                        && final(self).counter == old(self).counter)
                } else {
                    (r matches Ok(SolveStep::Continue) && final(self).counter == (
                    old(self).counter as nat + old(self).step as nat) % 0x1_0000_0000)
                },
            },
    {
        match elapsed_nanos {
            Some(e) => {
                if e > (timeout_ms as u128) * 1_000_000 {
                    return Ok(SolveStep::TimedOut);
                }
            },
            None => {},
        }
        let password = build_password(self.nonce.as_slice(), self.counter);
        let derived = derive_key(&self.parameters, self.salt.as_slice(), password.as_slice())?;
        let matched = match &self.prefix {
            Some(prefix) => buffer_starts_with(derived.as_slice(), prefix.as_slice()),
            None => {
                let hex = chars_of(bytes_to_hex(derived.as_slice()).as_str());
                let want = chars_of(self.parameters.key_prefix.as_str());
                chars_start_with(&hex, &want)
            },
        };
        if matched {
            return Ok(
                SolveStep::Found(
                    Solution {
                        counter: self.counter,
                        derived_key: bytes_to_hex(derived.as_slice()),
                        time: None,
                    },
                ),
            );
        }
        self.counter = self.counter.wrapping_add(self.step);
        Ok(SolveStep::Continue)
    }
}

/// The counter tried at step `i` of a search from `start` by `step`
/// (wrapping at 2^32).
pub open spec fn counter_at(start: u32, step: u32, i: nat) -> u32 {
    ((start as nat + i * (step as nat)) % 0x1_0000_0000) as u32
}

/// The first `n` counters of the search were derived without error and none
/// of their keys meets the prefix.
pub open spec fn tried_without_match(
    p: ChallengeParametersView,
    start: u32,
    step: u32,
    n: nat,
) -> bool {
    forall|j: nat|
        j < n ==> (#[trigger] key_for_counter(p, counter_at(start, step, j)) matches Ok(k)
            && !key_matches(k, prefix_bytes_of(p.key_prefix), p.key_prefix))
}

/// Whether the nonce, the salt and the key prefix of the parameters decode.
pub open spec fn search_inputs_decode(p: ChallengeParametersView) -> bool {
    &&& hex_decode(encode_utf8(p.nonce)) is Some
    &&& hex_decode(encode_utf8(p.salt)) is Some
    &&& !prefix_undecodable(p.key_prefix)
}

proof fn lemma_counter_next(start: u32, step: u32, i: nat)
    ensures
        ((counter_at(start, step, i) as nat + step as nat) % 0x1_0000_0000) as u32 == counter_at(
            start,
            step,
            i + 1,
        ),
{
    let m: int = 0x1_0000_0000;
    let x: int = start as int + i * (step as int);
    assert((i + 1) * (step as int) == i * (step as int) + step as int) by (nonlinear_arith);
    vstd::arithmetic::div_mod::lemma_small_mod(step as nat, m as nat);
    vstd::arithmetic::div_mod::lemma_add_mod_noop(x, step as int, m);
}

/// The most counters one search tries: far more than any time limit allows
/// (a search loop needs a bound).
pub open spec fn max_search_steps() -> nat {
    0xffff_ffff_ffff_ffff
}

/// What a search with options `o` may give: the exact hex errors, and then
/// a solution at the first matching counter, the first derivation error, or
/// no solution after every counter tried so far missed, the search having
/// stopped at a clock check (every tenth step) or after `u64::MAX` steps.
pub open spec fn solved_from(o: SolveChallengeOptions, r: Result<Option<Solution>>) -> bool {
    &&& (hex_decode(encode_utf8(o.challenge.parameters.nonce@)) is None ==> r matches Err(
        Error::Hex(_),
    ))
    &&& (hex_decode(encode_utf8(o.challenge.parameters.salt@)) is None ==> r matches Err(
        Error::Hex(_),
    ))
    &&& (prefix_undecodable(o.challenge.parameters.key_prefix@) ==> r matches Err(Error::Hex(_)))
    &&& (search_inputs_decode(o.challenge.parameters@) ==> match r {
            Ok(Some(sol)) => exists|i: nat|
                i < max_search_steps() && #[trigger] tried_without_match(
                    o.challenge.parameters@,
                    o.counter_start,
                    o.counter_step,
                    i,
                ) && (key_for_counter(
                    o.challenge.parameters@,
                    counter_at(o.counter_start, o.counter_step, i),
                ) matches Ok(k) && key_matches(
                    k,
                    prefix_bytes_of(o.challenge.parameters.key_prefix@),
                    o.challenge.parameters.key_prefix@,
                ) && sol.counter == counter_at(o.counter_start, o.counter_step, i)
                    && sol.derived_key@ == hex_encode(k) && sol.time is Some),
            Ok(None) => exists|n: nat|
                n <= max_search_steps() && #[trigger] tried_without_match(
                    o.challenge.parameters@,
                    o.counter_start,
                    o.counter_step,
                    n,
                ) && (n == max_search_steps() || n % 10 == 0),
            Err(e) => exists|i: nat|
                i < max_search_steps() && #[trigger] tried_without_match(
                    o.challenge.parameters@,
                    o.counter_start,
                    o.counter_step,
                    i,
                ) && key_for_counter(
                    o.challenge.parameters@,
                    counter_at(o.counter_start, o.counter_step, i),
                ) == Err::<Seq<u8>, ErrorView>(e@),
        })
}

/// Searches for a counter whose derived key starts with the challenge's key
/// prefix, from `counter_start` by `counter_step`, until one is found or
/// `timeout_ms` milliseconds have passed. The clock is read before every
/// tenth step (the first included) and [`Solver::step`] decides on that
/// reading; the search also ends after `u64::MAX` steps.
///
/// Returns `Ok(None)` when no solution was found, and the solution, timed in
/// tenths of a millisecond, when one was.
pub fn solve_challenge(options: SolveChallengeOptions) -> (r: Result<Option<Solution>>)
    requires
        kdf_limits_ok(options.challenge.parameters@),
    ensures
        solved_from(options, r),
{
    let mut solver = match Solver::new(&options) {
        Ok(s) => s,
        Err(e) => {
            return Err(e);
        },
    };
    let ghost p = options.challenge.parameters@;
    let ghost first = options.counter_start;
    let ghost by = options.counter_step;
    let clock = instant_now();
    let mut n: u64 = 0;
    proof {
        vstd::arithmetic::div_mod::lemma_small_mod(first as nat, 0x1_0000_0000nat);
        assert(counter_at(first, by, 0) == first);
    }
    while n < u64::MAX
        invariant
            solver.wf(),
            solver.parameters@ == p,
            solver.step == by,
            p == options.challenge.parameters@,
            first == options.counter_start,
            by == options.counter_step,
            search_inputs_decode(p),
            solver.counter == counter_at(first, by, n as nat),
            tried_without_match(p, first, by, n as nat),
        decreases u64::MAX - n,
    {
        let elapsed: Option<u128> = if n % 10 == 0 {
            Some(elapsed_nanos(&clock))
        } else {
            None
        };
        match solver.step(elapsed, options.timeout_ms) {
            Err(e) => {
                return Err(e);
            },
            Ok(SolveStep::TimedOut) => {
                return Ok(None);
            },
            Ok(SolveStep::Found(sol)) => {
                let mut sol = sol;
                sol.time = Some(elapsed_tenths_ms(&clock));
                return Ok(Some(sol));
            },
            Ok(SolveStep::Continue) => {
                proof {
                    lemma_counter_next(first, by, n as nat);
                    assert forall|j: nat| j < n + 1 implies (#[trigger] key_for_counter(
                        p,
                        counter_at(first, by, j),
                    ) matches Ok(k) && !key_matches(k, prefix_bytes_of(p.key_prefix), p.key_prefix)) by {
                        if j < n {
                        } else {
                            assert(j == n);
                        }
                    }
                }
                n = n + 1;
            },
        }
    }
    Ok(None)
}

/// A search never runs past a counter that solves the challenge: once the
/// counter at step `j` meets the prefix, no run of more than `j` steps has
/// tried every counter without a match.
pub proof fn lemma_search_stops_by(p: ChallengeParametersView, start: u32, step: u32, j: nat, n: nat)
    requires
        key_for_counter(p, counter_at(start, step, j)) matches Ok(k) && key_matches(
            k,
            prefix_bytes_of(p.key_prefix),
            p.key_prefix,
        ),
        j < n,
    ensures
        !tried_without_match(p, start, step, n),
{
    assert(key_for_counter(p, counter_at(start, step, j)) is Ok);
}

/// In deterministic mode a default search (from 0 by 1) of a created
/// challenge never tries more counters than the creation counter: it finds a
/// solution at or before that counter, unless it stops earlier.
pub proof fn lemma_deterministic_search_bound(
    o: CreateChallengeOptions,
    nonce: Seq<u8>,
    salt: Seq<u8>,
    n: nat,
)
    requires
        create_outcome(o, nonce, salt) is Ok,
        o.counter is Some,
        prefix_fits(o, nonce, salt),
        n > o.counter->0,
    ensures
        !tried_without_match(create_outcome(o, nonce, salt)->Ok_0.parameters, 0, 1, n),
{
    let c = o.counter->0;
    lemma_creation_counter_solves(o, nonce, salt);
    vstd::arithmetic::div_mod::lemma_small_mod(c as nat, 0x1_0000_0000nat);
    assert(counter_at(0, 1, c as nat) == c);
    lemma_search_stops_by(create_outcome(o, nonce, salt)->Ok_0.parameters, 0, 1, c as nat, n);
}

/// The search's counters repeat after 2^32 steps: the counter at step
/// `i + 2^32` is the counter at step `i`.
pub proof fn lemma_counter_periodic(start: u32, step: u32, i: nat)
    ensures
        counter_at(start, step, i + 0x1_0000_0000) == counter_at(start, step, i),
{
    let m: int = 0x1_0000_0000;
    let x: int = start as int + i * (step as int);
    assert(start as int + (i + m) * (step as int) == m * (step as int) + x) by (nonlinear_arith)
        requires
            m == 0x1_0000_0000,
            x == start as int + i * (step as int),
    ;
    vstd::arithmetic::div_mod::lemma_mod_multiples_vanish(step as int, x, m);
}

// ---------------------------------------------------------------------------
// Verifying
// ---------------------------------------------------------------------------

/// The flags of a verification result.
pub struct SolutionVerdict {
    pub expired: bool,
    pub invalid_signature: Option<bool>,
    pub invalid_solution: Option<bool>,
    pub verified: bool,
}

/// The flags of a result, without its time.
pub open spec fn verdict_result(r: Result<VerifySolutionResult>) -> core::result::Result<
    SolutionVerdict,
    ErrorView,
> {
    match r {
        Ok(v) => Ok(
            SolutionVerdict {
                expired: v.expired,
                invalid_signature: v.invalid_signature,
                invalid_solution: v.invalid_solution,
                verified: v.verified,
            },
        ),
        Err(e) => Err(e@),
    }
}

/// The verdict for an expired challenge.
pub open spec fn expired_verdict() -> SolutionVerdict {
    SolutionVerdict { expired: true, invalid_signature: None, invalid_solution: None, verified: false }
}

/// The verdict for a missing or wrong signature.
pub open spec fn bad_signature_verdict() -> SolutionVerdict {
    SolutionVerdict {
        expired: false,
        invalid_signature: Some(true),
        invalid_solution: None,
        verified: false,
    }
}

/// The verdict once the signature is good.
pub open spec fn solution_verdict(valid: bool) -> SolutionVerdict {
    SolutionVerdict {
        expired: false,
        invalid_signature: Some(false),
        invalid_solution: Some(!valid),
        verified: valid,
    }
}

/// Fast path: the hex of the submitted key's HMAC must equal the key signature.
pub open spec fn key_signature_check(
    alg: HmacAlgorithm,
    key_signature: Seq<char>,
    key_secret: Seq<u8>,
    derived_key: Seq<char>,
) -> core::result::Result<bool, ErrorView> {
    match hex_decode(encode_utf8(derived_key)) {
        None => Err(ErrorView::Hex),
        Some(b) => Ok(key_signature == key_signature_for(alg, key_secret, b)),
    }
}

/// Full path: the key derived for the submitted counter must be the
/// submitted key and must start with the key prefix.
pub open spec fn derivation_check(p: ChallengeParametersView, counter: u32, derived_key: Seq<char>) -> core::result::Result<
    bool,
    ErrorView,
> {
    match key_for_counter(p, counter) {
        Err(e) => Err(e),
        Ok(k) => Ok(hex_encode(k) == derived_key && starts_with(hex_encode(k), p.key_prefix)),
    }
}

/// What verifying a solution gives at time `now` (seconds since the epoch):
/// expiration first, then the signature over the canonical parameters, then
/// the solution by key signature (when both the challenge and the caller
/// have one) or by derivation.
pub open spec fn verify_outcome(
    c: ChallengeView,
    counter: u32,
    derived_key: Seq<char>,
    alg: HmacAlgorithm,
    secret: Seq<u8>,
    key_secret: Option<Seq<u8>>,
    now: u64,
) -> core::result::Result<SolutionVerdict, ErrorView> {
    let p = c.parameters;
    if p.expires_at matches Some(e) && now > e {
        Ok(expired_verdict())
    } else {
        match c.signature {
            None => Ok(bad_signature_verdict()),
            Some(sig) => if sig != signature_for(alg, secret, p) {
                Ok(bad_signature_verdict())
            } else {
                let check = match (p.key_signature, key_secret) {
                    (Some(ks), Some(kk)) => key_signature_check(alg, ks, kk, derived_key),
                    _ => derivation_check(p, counter, derived_key),
                };
                match check {
                    Err(e) => Err(e),
                    Ok(valid) => Ok(solution_verdict(valid)),
                }
            },
        }
    }
}

/// The verification outcome for the options at time `now`.
pub open spec fn options_outcome(o: VerifySolutionOptions, now: u64) -> core::result::Result<
    SolutionVerdict,
    ErrorView,
> {
    verify_outcome(
        o.challenge@,
        o.solution.counter,
        o.solution.derived_key@,
        o.hmac_algorithm,
        encode_utf8(o.hmac_signature_secret@),
        opt_string_bytes(o.hmac_key_signature_secret),
        now,
    )
}

/// Verifies a submitted solution at the given time (seconds since the
/// epoch); the result's `time` is 0.
pub fn verify_solution_at(options: &VerifySolutionOptions, now_secs: u64) -> (r: Result<
    VerifySolutionResult,
>)
    requires
        kdf_limits_ok(options.challenge.parameters@),
    ensures
        verdict_result(r) == options_outcome(*options, now_secs),
        r matches Ok(v) ==> v.time == 0,
{
    let challenge = options.challenge;
    let solution = options.solution;
    let params = &challenge.parameters;
    match params.expires_at {
        Some(expires_at) => {
            if now_secs > expires_at {
                return Ok(
                    VerifySolutionResult {
                        expired: true,
                        invalid_signature: None,
                        invalid_solution: None,
                        time: 0,
                        verified: false,
                    },
                );
            }
        },
        None => {},
    }
    let challenge_sig = match &challenge.signature {
        Some(s) => s,
        None => {
            return Ok(
                VerifySolutionResult {
                    expired: false,
                    invalid_signature: Some(true),
                    invalid_solution: None,
                    time: 0,
                    verified: false,
                },
            );
        },
    };
    let json = canonical_json(params);
    let expected_sig = hmac_sign(
        &options.hmac_algorithm,
        json.as_str().as_bytes(),
        options.hmac_signature_secret.as_str(),
    )?;
    let expected_hex = bytes_to_hex(expected_sig.as_slice());
    if !constant_time_equal_hex(challenge_sig.as_str(), expected_hex.as_str()) {
        return Ok(
            VerifySolutionResult {
                expired: false,
                invalid_signature: Some(true),
                invalid_solution: None,
                time: 0,
                verified: false,
            },
        );
    }
    match &params.key_signature {
        Some(key_sig) => match &options.hmac_key_signature_secret {
            Some(key_secret) => {
                let derived_key_bytes = hex_to_bytes(solution.derived_key.as_str())?;
                let expected_key_sig = hmac_sign(
                    &options.hmac_algorithm,
                    derived_key_bytes.as_slice(),
                    key_secret.as_str(),
                )?;
                let expected_key_hex = bytes_to_hex(expected_key_sig.as_slice());
                let valid = constant_time_equal_hex(key_sig.as_str(), expected_key_hex.as_str());
                return Ok(
                    VerifySolutionResult {
                        expired: false,
                        invalid_signature: Some(false),
                        invalid_solution: Some(!valid),
                        time: 0,
                        verified: valid,
                    },
                );
            },
            None => {},
        },
        None => {},
    }
    let nonce_bytes = hex_to_bytes(params.nonce.as_str())?;
    let salt_bytes = hex_to_bytes(params.salt.as_str())?;
    let password = build_password(nonce_bytes.as_slice(), solution.counter);
    let derived = derive_key(params, salt_bytes.as_slice(), password.as_slice())?;
    let derived_hex = bytes_to_hex(derived.as_slice());
    let key_matches = constant_time_equal_hex(derived_hex.as_str(), solution.derived_key.as_str());
    let hex_chars = chars_of(derived_hex.as_str());
    let prefix_chars = chars_of(params.key_prefix.as_str());
    let prefix_matches = chars_start_with(&hex_chars, &prefix_chars);
    let valid = key_matches && prefix_matches;
    Ok(
        VerifySolutionResult {
            expired: false,
            invalid_signature: Some(false),
            invalid_solution: Some(!valid),
            time: 0,
            verified: valid,
        },
    )
}

/// What verifying with options `o` may give: the outcome at some clock
/// reading, and at no reading at all when the challenge does not expire.
pub open spec fn verified_from(o: VerifySolutionOptions, r: Result<VerifySolutionResult>) -> bool {
    &&& exists|now: u64| #[trigger] verdict_result(r) == options_outcome(o, now)
    &&& (o.challenge.parameters.expires_at is None ==> verdict_result(r) == options_outcome(o, 0))
}

/// Verifies a submitted solution against a challenge, reading the system
/// clock for the expiration check (only when the challenge expires) and
/// timing the verification.
///
/// Checks (in order):
/// 1. Expiration — if the challenge has an `expires_at` timestamp.
/// 2. Signature presence — the challenge must have a `signature` field.
/// 3. Signature validity — HMAC of the canonical JSON of parameters.
/// 4. Solution validity — either via key signature (fast path) or by re-deriving the key.
pub fn verify_solution(options: VerifySolutionOptions) -> (r: Result<VerifySolutionResult>)
    requires
        kdf_limits_ok(options.challenge.parameters@),
    ensures
        verified_from(options, r),
{
    let start = instant_now();
    let now: u64 = if options.challenge.parameters.expires_at.is_some() {
        unix_now_secs()
    } else {
        0
    };
    let r = verify_solution_at(&options, now);
    assert(options.challenge.parameters.expires_at is None ==> options_outcome(options, now)
        == options_outcome(options, 0));
    match r {
        Ok(v) => {
            let mut v = v;
            v.time = elapsed_tenths_ms(&start);
            Ok(v)
        },
        Err(e) => Err(e),
    }
}

/// [`solve_challenge`] when the parameters are within the KDF's limits;
/// `None`, searching nothing, when they are not.
pub fn solve_challenge_checked(options: SolveChallengeOptions) -> (r: Option<
    Result<Option<Solution>>,
>)
    ensures
        r is None <==> !kdf_limits_ok(options.challenge.parameters@),
        r matches Some(x) ==> solved_from(options, x),
{
    let p = &options.challenge.parameters;
    if within_kdf_limits(p.algorithm.as_str(), p.key_length, p.parallelism) {
        Some(solve_challenge(options))
    } else {
        None
    }
}

/// [`verify_solution`] when the parameters are within the KDF's limits;
/// `None`, verifying nothing, when they are not.
pub fn verify_solution_checked(options: VerifySolutionOptions) -> (r: Option<
    Result<VerifySolutionResult>,
>)
    ensures
        r is None <==> !kdf_limits_ok(options.challenge.parameters@),
        r matches Some(x) ==> verified_from(options, x),
{
    let p = &options.challenge.parameters;
    if within_kdf_limits(p.algorithm.as_str(), p.key_length, p.parallelism) {
        Some(verify_solution(options))
    } else {
        None
    }
}

// ---------------------------------------------------------------------------
// Laws
// ---------------------------------------------------------------------------

/// An expired challenge is reported expired, whatever else it holds.
pub proof fn lemma_expired_rejected(
    c: ChallengeView,
    counter: u32,
    derived_key: Seq<char>,
    alg: HmacAlgorithm,
    secret: Seq<u8>,
    key_secret: Option<Seq<u8>>,
    now: u64,
)
    requires
        c.parameters.expires_at matches Some(e) && now > e,
    ensures
        verify_outcome(c, counter, derived_key, alg, secret, key_secret, now) == Ok::<
            SolutionVerdict,
            ErrorView,
        >(expired_verdict()),
{
}

/// A challenge without a signature, or with one that is not the signature of
/// its parameters under the secret, is never verified: it is reported as
/// having an invalid signature (unless it has expired).
pub proof fn lemma_bad_signature_rejected(
    c: ChallengeView,
    counter: u32,
    derived_key: Seq<char>,
    alg: HmacAlgorithm,
    secret: Seq<u8>,
    key_secret: Option<Seq<u8>>,
    now: u64,
)
    requires
        c.signature != Some(signature_for(alg, secret, c.parameters)),
        !(c.parameters.expires_at matches Some(e) && now > e),
    ensures
        verify_outcome(c, counter, derived_key, alg, secret, key_secret, now) == Ok::<
            SolutionVerdict,
            ErrorView,
        >(bad_signature_verdict()),
{
}

/// On the full path a key that does not start with the signed key prefix is
/// never accepted, even when it is the key derived for the counter.
pub proof fn lemma_full_path_enforces_prefix(
    c: ChallengeView,
    counter: u32,
    derived_key: Seq<char>,
    alg: HmacAlgorithm,
    secret: Seq<u8>,
    now: u64,
)
    requires
        !starts_with(derived_key, c.parameters.key_prefix),
    ensures
        !(verify_outcome(c, counter, derived_key, alg, secret, None, now) matches Ok(v)
            && v.verified),
{
}

/// Whenever a solution is verified, the challenge has not expired and carries
/// the signature of its parameters; on the full path (no key signature to
/// check) the submitted key is the key derived for the submitted counter and
/// starts with the key prefix, and on the fast path the key's signature under
/// the key secret is the challenge's key signature.
pub proof fn lemma_verified_means_checked(
    c: ChallengeView,
    counter: u32,
    derived_key: Seq<char>,
    alg: HmacAlgorithm,
    secret: Seq<u8>,
    key_secret: Option<Seq<u8>>,
    now: u64,
)
    requires
        verify_outcome(c, counter, derived_key, alg, secret, key_secret, now) matches Ok(v)
            && v.verified,
    ensures
        !(c.parameters.expires_at matches Some(e) && now > e),
        c.signature == Some(signature_for(alg, secret, c.parameters)),
        (c.parameters.key_signature is None || key_secret is None) ==> (key_for_counter(
            c.parameters,
            counter,
        ) matches Ok(k) && hex_encode(k) == derived_key && starts_with(
            derived_key,
            c.parameters.key_prefix,
        )),
        (c.parameters.key_signature is Some && key_secret is Some) ==> (hex_decode(
            encode_utf8(derived_key),
        ) matches Some(b) && c.parameters.key_signature->0 == key_signature_for(
            alg,
            key_secret->0,
            b,
        )),
{
}

/// The flags of every verdict fit together: verified exactly when not
/// expired with a good signature and a good solution; the signature flag is
/// absent exactly for an expired challenge; the solution flag is absent
/// exactly when an earlier check failed, and otherwise says `!verified`.
pub proof fn lemma_verdict_flags(
    c: ChallengeView,
    counter: u32,
    derived_key: Seq<char>,
    alg: HmacAlgorithm,
    secret: Seq<u8>,
    key_secret: Option<Seq<u8>>,
    now: u64,
)
    ensures
        verify_outcome(c, counter, derived_key, alg, secret, key_secret, now) matches Ok(v) ==> {
            &&& v.verified <==> (!v.expired && v.invalid_signature == Some(false)
                && v.invalid_solution == Some(false))
            &&& v.invalid_signature is None <==> v.expired
            &&& v.invalid_solution is None <==> (v.expired || v.invalid_signature == Some(true))
            &&& v.invalid_solution is Some ==> v.invalid_solution == Some(!v.verified)
        },
{
}

/// In deterministic mode the key prefix is the hex of the first bytes of the
/// key derived for the creation counter: `key_prefix_length` of them when
/// given, otherwise `key_length / 2` (so `2 * (key_length / 2)` hex
/// characters).
pub proof fn lemma_deterministic_key_prefix(
    o: CreateChallengeOptions,
    nonce: Seq<u8>,
    salt: Seq<u8>,
    k: Seq<u8>,
)
    requires
        o.counter is Some,
        derive_outcome(initial_parameters(o, nonce, salt), salt, password_for(nonce, o.counter->0))
            == Ok::<Seq<u8>, ErrorView>(k),
    ensures
        create_outcome(o, nonce, salt) is Ok,
        o.key_prefix_length is None && o.key_length / 2 <= k.len() ==> {
            &&& create_outcome(o, nonce, salt)->Ok_0.parameters.key_prefix == hex_encode(
                k.take((o.key_length / 2) as int),
            )
            &&& create_outcome(o, nonce, salt)->Ok_0.parameters.key_prefix.len() == 2 * (
            o.key_length / 2)
        },
        o.key_prefix_length is Some && o.key_prefix_length->0 <= k.len() ==> create_outcome(
            o,
            nonce,
            salt,
        )->Ok_0.parameters.key_prefix == hex_encode(k.take(o.key_prefix_length->0 as int)),
{
}

/// A challenge is not reported expired at a time not after its expiry.
pub proof fn lemma_unexpired_not_reported(
    c: ChallengeView,
    counter: u32,
    derived_key: Seq<char>,
    alg: HmacAlgorithm,
    secret: Seq<u8>,
    key_secret: Option<Seq<u8>>,
    now: u64,
)
    requires
        c.parameters.expires_at is None || now <= c.parameters.expires_at->0,
    ensures
        verify_outcome(c, counter, derived_key, alg, secret, key_secret, now) matches Ok(v)
            ==> !v.expired,
{
}

/// Signing with a derived key and a key secret sets the key signature to the
/// hex of the key's HMAC under the key secret, with the signing algorithm.
pub proof fn lemma_key_signature_is_hmac(
    alg: HmacAlgorithm,
    p: ChallengeParametersView,
    key: Seq<u8>,
    key_secret: Seq<u8>,
)
    ensures
        signed_parameters(alg, p, Some(key), Some(key_secret)).key_signature == Some(
            hex_encode(hmac_tag(alg, key_secret, key)),
        ),
        signed_parameters(alg, p, Some(key), Some(key_secret)).key_prefix == p.key_prefix,
{
}

/// On the fast path (a signed, unexpired challenge with a key signature,
/// verified with a key secret) the solution is valid exactly when the key
/// signature is the hex of the submitted key's HMAC under the key secret,
/// computed with the verification's algorithm.
pub proof fn lemma_fast_path_checks_hmac(
    c: ChallengeView,
    counter: u32,
    derived_key: Seq<char>,
    alg: HmacAlgorithm,
    secret: Seq<u8>,
    key_secret: Seq<u8>,
    now: u64,
    key: Seq<u8>,
)
    requires
        c.signature == Some(signature_for(alg, secret, c.parameters)),
        c.parameters.expires_at is None || now <= c.parameters.expires_at->0,
        c.parameters.key_signature is Some,
        hex_decode(encode_utf8(derived_key)) == Some(key),
    ensures
        verify_outcome(c, counter, derived_key, alg, secret, Some(key_secret), now) == Ok::<
            SolutionVerdict,
            ErrorView,
        >(
            solution_verdict(
                c.parameters.key_signature->0 == hex_encode(hmac_tag(alg, key_secret, key)),
            ),
        ),
{
}

/// Verification succeeds for a key that the solver accepts: a key derived
/// for the counter that meets the prefix, on a challenge signed under the
/// secret that has not expired, verified without a key-signature secret
/// (or for a challenge without key signature), when the key prefix is
/// lowercase hex.
pub proof fn lemma_found_solution_verifies(
    c: ChallengeView,
    counter: u32,
    key: Seq<u8>,
    alg: HmacAlgorithm,
    secret: Seq<u8>,
    key_secret: Option<Seq<u8>>,
    now: u64,
)
    requires
        c.signature == Some(signature_for(alg, secret, c.parameters)),
        !(c.parameters.expires_at matches Some(e) && now > e),
        c.parameters.key_signature is None || key_secret is None,
        is_lower_hex(c.parameters.key_prefix),
        key_for_counter(c.parameters, counter) == Ok::<Seq<u8>, ErrorView>(key),
        key_matches(key, prefix_bytes_of(c.parameters.key_prefix), c.parameters.key_prefix),
    ensures
        verify_outcome(c, counter, hex_encode(key), alg, secret, key_secret, now) == Ok::<
            SolutionVerdict,
            ErrorView,
        >(solution_verdict(true)),
{
    let t = c.parameters.key_prefix;
    if t.len() % 2 == 0 {
        lemma_lower_hex_decode_encode(t);
    } else {
        assert(encode_utf8(t).len() == t.len()) by {
            crate::text::lemma_encode_utf8_ascii(t);
            assert forall|i: int| 0 <= i < t.len() implies (#[trigger] t[i] as u32) < 128 by {
                assert('0' <= t[i] <= '9' || 'a' <= t[i] <= 'f');
            }
        }
    }
    match prefix_bytes_of(t) {
        Some(b) => {
            lemma_hex_encode_prefix(key, b);
        },
        None => {},
    }
    assert(starts_with(hex_encode(key), t));
}

/// A challenge created with a signature secret carries the signature of its
/// own parameters under that secret.
pub proof fn lemma_created_challenge_signed(o: CreateChallengeOptions, nonce: Seq<u8>, salt: Seq<u8>)
    requires
        create_outcome(o, nonce, salt) is Ok,
        o.hmac_signature_secret is Some,
    ensures
        create_outcome(o, nonce, salt)->Ok_0.signature == Some(
            signature_for(
                o.hmac_algorithm,
                encode_utf8(o.hmac_signature_secret->0@),
                create_outcome(o, nonce, salt)->Ok_0.parameters,
            ),
        ),
{
}

/// The KDF output depends on the algorithm, costs, key length and
/// parallelism of the parameters, not on their nonce, salt text, prefix,
/// signatures or data.
pub proof fn lemma_derive_outcome_fields(
    p: ChallengeParametersView,
    q: ChallengeParametersView,
    salt: Seq<u8>,
    password: Seq<u8>,
)
    requires
        p.algorithm == q.algorithm,
        p.cost == q.cost,
        p.key_length == q.key_length,
        p.memory_cost == q.memory_cost,
        p.parallelism == q.parallelism,
    ensures
        derive_outcome(p, salt, password) == derive_outcome(q, salt, password),
{
}

/// In deterministic mode the counter the challenge was created with solves
/// it: the key derived for that counter meets the challenge's own prefix.
pub proof fn lemma_creation_counter_solves(o: CreateChallengeOptions, nonce: Seq<u8>, salt: Seq<u8>)
    requires
        create_outcome(o, nonce, salt) is Ok,
        o.counter is Some,
        prefix_fits(o, nonce, salt),
    ensures
        creation_key(o, nonce, salt) matches Ok(Some(k)) && key_for_counter(
            create_outcome(o, nonce, salt)->Ok_0.parameters,
            o.counter->0,
        ) == Ok::<Seq<u8>, ErrorView>(k) && key_matches(
            k,
            prefix_bytes_of(create_outcome(o, nonce, salt)->Ok_0.parameters.key_prefix),
            create_outcome(o, nonce, salt)->Ok_0.parameters.key_prefix,
        ),
{
    let p0 = initial_parameters(o, nonce, salt);
    let k = creation_key(o, nonce, salt)->Ok_0->0;
    let n = prefix_length(o) as int;
    let cv = create_outcome(o, nonce, salt)->Ok_0;
    let p = cv.parameters;
    lemma_hex_round_trip(nonce);
    lemma_hex_round_trip(salt);
    lemma_derive_outcome_fields(p, p0, salt, password_for(nonce, o.counter->0));
    lemma_hex_encode_take(k, n);
    let pre = hex_encode(k.take(n));
    assert(p.key_prefix == pre);
    lemma_hex_encode_lower(k.take(n));
    lemma_lower_hex_decode_encode(pre);
    lemma_hex_round_trip(k.take(n));
    assert(prefix_bytes_of(pre) == Some(k.take(n)));
}

/// A challenge created (with a signature secret) and then solved verifies
/// with that secret and no key-signature secret, as long as it has not
/// expired and its key prefix is lowercase hex (always so in deterministic
/// mode).
pub proof fn lemma_create_solve_verify(
    o: CreateChallengeOptions,
    nonce: Seq<u8>,
    salt: Seq<u8>,
    counter: u32,
    key: Seq<u8>,
    now: u64,
)
    requires
        create_outcome(o, nonce, salt) is Ok,
        o.hmac_signature_secret is Some,
        o.counter is Some || is_lower_hex(o.key_prefix@),
        key_for_counter(create_outcome(o, nonce, salt)->Ok_0.parameters, counter) == Ok::<
            Seq<u8>,
            ErrorView,
        >(key),
        key_matches(
            key,
            prefix_bytes_of(create_outcome(o, nonce, salt)->Ok_0.parameters.key_prefix),
            create_outcome(o, nonce, salt)->Ok_0.parameters.key_prefix,
        ),
        !(o.expires_at matches Some(e) && now > e),
    ensures
        verify_outcome(
            create_outcome(o, nonce, salt)->Ok_0,
            counter,
            hex_encode(key),
            o.hmac_algorithm,
            encode_utf8(o.hmac_signature_secret->0@),
            None,
            now,
        ) == Ok::<SolutionVerdict, ErrorView>(solution_verdict(true)),
{
    let cv = create_outcome(o, nonce, salt)->Ok_0;
    if o.counter is Some {
        let k = creation_key(o, nonce, salt)->Ok_0->0;
        lemma_hex_encode_lower(k.take(prefix_length(o) as int));
    }
    lemma_created_challenge_signed(o, nonce, salt);
    lemma_found_solution_verifies(
        cv,
        counter,
        key,
        o.hmac_algorithm,
        encode_utf8(o.hmac_signature_secret->0@),
        None,
        now,
    );
}

/// In deterministic mode with a key-signature secret, the fast path accepts
/// the key derived at creation, whatever counter is submitted with it.
pub proof fn lemma_deterministic_fast_path(
    o: CreateChallengeOptions,
    nonce: Seq<u8>,
    salt: Seq<u8>,
    counter: u32,
    now: u64,
)
    requires
        create_outcome(o, nonce, salt) is Ok,
        o.counter is Some,
        o.hmac_signature_secret is Some,
        o.hmac_key_signature_secret is Some,
        !(o.expires_at matches Some(e) && now > e),
    ensures
        creation_key(o, nonce, salt) matches Ok(Some(k)) && verify_outcome(
            create_outcome(o, nonce, salt)->Ok_0,
            counter,
            hex_encode(k),
            o.hmac_algorithm,
            encode_utf8(o.hmac_signature_secret->0@),
            Some(encode_utf8(o.hmac_key_signature_secret->0@)),
            now,
        ) == Ok::<SolutionVerdict, ErrorView>(solution_verdict(true)),
{
    let k = creation_key(o, nonce, salt)->Ok_0->0;
    lemma_hex_round_trip(k);
    lemma_created_challenge_signed(o, nonce, salt);
}

} // verus!
