//! PBKDF2-HMAC with a SHA-2 digest; `cost` is the iteration count.
use vstd::prelude::*;

use crate::error::Result;
use crate::helpers::digest_len;
use crate::text::{str_equal, to_uppercase, upper_case};
use crate::types::{ChallengeParameters, ChallengeParametersView, HmacAlgorithm};

verus! {

/// Name for what `pbkdf2::pbkdf2_hmac` writes into an output buffer of
/// `len` bytes.
pub uninterp spec fn pbkdf2_hmac_output(
    alg: HmacAlgorithm,
    password: Seq<u8>,
    salt: Seq<u8>,
    rounds: u32,
    len: nat,
) -> Seq<u8>;

/// The key PBKDF2 derives for the parameters.
pub open spec fn pbkdf2_key(alg: HmacAlgorithm, p: ChallengeParametersView, salt: Seq<u8>, password: Seq<u8>) -> Seq<u8> {
    pbkdf2_hmac_output(alg, password, salt, p.cost, p.key_length as nat)
}

/// `pbkdf2_hmac::<Sha256>` into a zeroed buffer of `key_len` bytes. The
/// crate's `u32` block counter overflows (a panic in debug builds) beyond
/// `2^32 - 1` blocks of the digest's size, hence the bound.
#[verifier::external_body]
fn pbkdf2_sha256(password: &[u8], salt: &[u8], rounds: u32, key_len: usize) -> (r: Vec<u8>)
    requires
        key_len <= 32 * 0xffff_ffffnat,
    ensures
        r@ == pbkdf2_hmac_output(HmacAlgorithm::Sha256, password@, salt@, rounds, key_len as nat),
        r@.len() == key_len,
{
    let mut out = vec![0u8; key_len];
    ::pbkdf2::pbkdf2_hmac::<sha2::Sha256>(password, salt, rounds, &mut out);
    out
}

/// `pbkdf2_hmac::<Sha384>`, as [`pbkdf2_sha256`].
#[verifier::external_body]
fn pbkdf2_sha384(password: &[u8], salt: &[u8], rounds: u32, key_len: usize) -> (r: Vec<u8>)
    requires
        key_len <= 48 * 0xffff_ffffnat,
    ensures
        r@ == pbkdf2_hmac_output(HmacAlgorithm::Sha384, password@, salt@, rounds, key_len as nat),
        r@.len() == key_len,
{
    let mut out = vec![0u8; key_len];
    ::pbkdf2::pbkdf2_hmac::<sha2::Sha384>(password, salt, rounds, &mut out);
    out
}

/// `pbkdf2_hmac::<Sha512>`, as [`pbkdf2_sha256`].
#[verifier::external_body]
fn pbkdf2_sha512(password: &[u8], salt: &[u8], rounds: u32, key_len: usize) -> (r: Vec<u8>)
    requires
        key_len <= 64 * 0xffff_ffffnat,
    ensures
        r@ == pbkdf2_hmac_output(HmacAlgorithm::Sha512, password@, salt@, rounds, key_len as nat),
        r@.len() == key_len,
{
    let mut out = vec![0u8; key_len];
    ::pbkdf2::pbkdf2_hmac::<sha2::Sha512>(password, salt, rounds, &mut out);
    out
}

/// The digest this module uses for an upper-cased name: SHA-384 and SHA-512
/// by name, SHA-256 for anything else.
pub open spec fn digest_for_name(upper: Seq<char>) -> HmacAlgorithm {
    if upper == "PBKDF2/SHA-384"@ {
        HmacAlgorithm::Sha384
    } else if upper == "PBKDF2/SHA-512"@ {
        HmacAlgorithm::Sha512
    } else {
        HmacAlgorithm::Sha256
    }
}

/// Derives the key with the given digest.
pub fn derive_with_digest(
    algorithm: HmacAlgorithm,
    parameters: &ChallengeParameters,
    salt: &[u8],
    password: &[u8],
) -> (r: Vec<u8>)
    requires
        parameters.key_length <= digest_len(algorithm) * 0xffff_ffff,
    ensures
        r@ == pbkdf2_key(algorithm, parameters@, salt@, password@),
        r@.len() == parameters.key_length,
{
    match algorithm {
        HmacAlgorithm::Sha384 => pbkdf2_sha384(password, salt, parameters.cost, parameters.key_length),
        HmacAlgorithm::Sha512 => pbkdf2_sha512(password, salt, parameters.cost, parameters.key_length),
        HmacAlgorithm::Sha256 => pbkdf2_sha256(password, salt, parameters.cost, parameters.key_length),
    }
}

/// PBKDF2 with the digest chosen by the upper-cased algorithm name.
pub fn derive_key(parameters: &ChallengeParameters, salt: &[u8], password: &[u8]) -> (r: Result<
    Vec<u8>,
>)
    requires
        parameters.key_length <= digest_len(digest_for_name(upper_case(parameters.algorithm@)))
            * 0xffff_ffff,
    ensures
        r matches Ok(v) && v@ == pbkdf2_key(
            digest_for_name(upper_case(parameters.algorithm@)),
            parameters@,
            salt@,
            password@,
        ),
{
    let upper = to_uppercase(parameters.algorithm.as_str());
    let algorithm = if str_equal(upper.as_str(), "PBKDF2/SHA-384") {
        HmacAlgorithm::Sha384
    } else if str_equal(upper.as_str(), "PBKDF2/SHA-512") {
        HmacAlgorithm::Sha512
    } else {
        HmacAlgorithm::Sha256
    };
    Ok(derive_with_digest(algorithm, parameters, salt, password))
}

/// The bound on the key length that [`derive_key`] requires.
pub open spec fn pbkdf2_key_length_ok(p: ChallengeParametersView) -> bool {
    p.key_length <= digest_len(digest_for_name(upper_case(p.algorithm))) * 0xffff_ffff
}

/// [`derive_key`] when the key length is within the digest's bound; `None`,
/// deriving nothing, when it is not.
pub fn derive_key_checked(parameters: &ChallengeParameters, salt: &[u8], password: &[u8]) -> (r:
    Option<Result<Vec<u8>>>)
    ensures
        r is None <==> !pbkdf2_key_length_ok(parameters@),
        r matches Some(x) ==> (x matches Ok(v) && v@ == pbkdf2_key(
            digest_for_name(upper_case(parameters.algorithm@)),
            parameters@,
            salt@,
            password@,
        )),
{
    let upper = to_uppercase(parameters.algorithm.as_str());
    let block: u128 = if str_equal(upper.as_str(), "PBKDF2/SHA-384") {
        48
    } else if str_equal(upper.as_str(), "PBKDF2/SHA-512") {
        64
    } else {
        32
    };
    if (parameters.key_length as u128) <= block * 0xffff_ffff {
        Some(derive_key(parameters, salt, password))
    } else {
        None
    }
}

} // verus!
