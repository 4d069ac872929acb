//! Key derivation: the algorithm is chosen by its upper-cased name.
use vstd::prelude::*;

use crate::error::{bytes_result, Error, ErrorView, Result};
use crate::helpers::digest_len;
use crate::text::{all_ascii, ascii_upper, str_equal, to_uppercase, upper_case};
use crate::types::{ChallengeParameters, ChallengeParametersView, HmacAlgorithm};

pub mod argon2id;
pub mod pbkdf2;
pub mod scrypt;
pub mod sha;

verus! {

/// A key derivation function and its digest.
#[derive(Clone, Copy, Debug, PartialEq, Eq, Structural)]
pub enum Kdf {
    Pbkdf2(HmacAlgorithm),
    Sha(HmacAlgorithm),
    Scrypt,
    Argon2id,
}

/// The KDF named by an upper-cased algorithm name.
pub open spec fn kdf_for_name(upper: Seq<char>) -> Option<Kdf> {
    if upper == "PBKDF2/SHA-256"@ {
        Some(Kdf::Pbkdf2(HmacAlgorithm::Sha256))
    } else if upper == "PBKDF2/SHA-384"@ {
        Some(Kdf::Pbkdf2(HmacAlgorithm::Sha384))
    } else if upper == "PBKDF2/SHA-512"@ {
        Some(Kdf::Pbkdf2(HmacAlgorithm::Sha512))
    } else if upper == "SHA-256"@ {
        Some(Kdf::Sha(HmacAlgorithm::Sha256))
    } else if upper == "SHA-384"@ {
        Some(Kdf::Sha(HmacAlgorithm::Sha384))
    } else if upper == "SHA-512"@ {
        Some(Kdf::Sha(HmacAlgorithm::Sha512))
    } else if upper == "SCRYPT"@ {
        Some(Kdf::Scrypt)
    } else if upper == "ARGON2ID"@ {
        Some(Kdf::Argon2id)
    } else {
        None
    }
}

/// The KDF named by an already upper-cased algorithm name.
pub fn kdf_from_name(upper: &str) -> (r: Option<Kdf>)
    ensures
        r == kdf_for_name(upper@),
{
    if str_equal(upper, "PBKDF2/SHA-256") {
        Some(Kdf::Pbkdf2(HmacAlgorithm::Sha256))
    } else if str_equal(upper, "PBKDF2/SHA-384") {
        Some(Kdf::Pbkdf2(HmacAlgorithm::Sha384))
    } else if str_equal(upper, "PBKDF2/SHA-512") {
        Some(Kdf::Pbkdf2(HmacAlgorithm::Sha512))
    } else if str_equal(upper, "SHA-256") {
        Some(Kdf::Sha(HmacAlgorithm::Sha256))
    } else if str_equal(upper, "SHA-384") {
        Some(Kdf::Sha(HmacAlgorithm::Sha384))
    } else if str_equal(upper, "SHA-512") {
        Some(Kdf::Sha(HmacAlgorithm::Sha512))
    } else if str_equal(upper, "SCRYPT") {
        Some(Kdf::Scrypt)
    } else if str_equal(upper, "ARGON2ID") {
        Some(Kdf::Argon2id)
    } else {
        None
    }
}

/// Parameter values on which the underlying KDF crates would panic (the
/// PBKDF2 block counter overflowing beyond `2^32 - 1` digest-sized blocks,
/// Argon2's `8 * p` overflowing) are outside every function of this module.
pub open spec fn kdf_limits(kdf: Option<Kdf>, key_length: usize, parallelism: Option<u32>) -> bool {
    match kdf {
        Some(Kdf::Pbkdf2(h)) => key_length <= digest_len(h) * 0xffff_ffff,
        Some(Kdf::Argon2id) => match parallelism {
            Some(n) => n <= 0x1fff_ffff,
            None => true,
        },
        _ => true,
    }
}

/// The limits of [`kdf_limits`] for the KDF that the parameters name.
pub open spec fn kdf_limits_ok(p: ChallengeParametersView) -> bool {
    kdf_limits(kdf_for_name(upper_case(p.algorithm)), p.key_length, p.parallelism)
}

/// Whether the key length and parallelism are within [`kdf_limits`] for the
/// KDF named by `algorithm` (upper-cased).
pub fn within_kdf_limits(algorithm: &str, key_length: usize, parallelism: Option<u32>) -> (r: bool)
    ensures
        r == kdf_limits(kdf_for_name(upper_case(algorithm@)), key_length, parallelism),
{
    let upper = to_uppercase(algorithm);
    match kdf_from_name(upper.as_str()) {
        Some(Kdf::Pbkdf2(h)) => {
            let block: u128 = match h {
                HmacAlgorithm::Sha256 => 32,
                HmacAlgorithm::Sha384 => 48,
                HmacAlgorithm::Sha512 => 64,
            };
            (key_length as u128) <= block * 0xffff_ffff
        },
        Some(Kdf::Argon2id) => match parallelism {
            Some(n) => n <= 0x1fff_ffff,
            None => true,
        },
        _ => true,
    }
}

/// The length of the key each KDF derives for the parameters from an input
/// (`salt || password`) of `input_len` bytes.
pub open spec fn derived_len(kdf: Kdf, p: ChallengeParametersView, input_len: nat) -> nat {
    match kdf {
        Kdf::Sha(h) => sha::min_len(
            p.key_length as nat,
            if p.cost == 0 {
                input_len
            } else {
                digest_len(h)
            },
        ),
        _ => p.key_length as nat,
    }
}

/// What the KDF chosen by `kdf` derives from `salt` and `password`.
pub open spec fn derive_with(kdf: Kdf, p: ChallengeParametersView, salt: Seq<u8>, password: Seq<u8>) -> core::result::Result<
    Seq<u8>,
    ErrorView,
> {
    match kdf {
        Kdf::Pbkdf2(h) => Ok(pbkdf2::pbkdf2_key(h, p, salt, password)),
        Kdf::Sha(h) => Ok(sha::sha_key(h, p, salt, password)),
        Kdf::Scrypt => scrypt::scrypt_outcome(p, salt, password),
        Kdf::Argon2id => argon2id::argon2id_outcome(p, salt, password),
    }
}

/// What `derive_key` gives: the KDF named by the upper-cased algorithm, or
/// `UnsupportedAlgorithm` with the upper-cased name.
pub open spec fn derive_outcome(p: ChallengeParametersView, salt: Seq<u8>, password: Seq<u8>) -> core::result::Result<
    Seq<u8>,
    ErrorView,
> {
    let upper = upper_case(p.algorithm);
    match kdf_for_name(upper) {
        Some(kdf) => derive_with(kdf, p, salt, password),
        None => Err(ErrorView::UnsupportedAlgorithm(upper)),
    }
}

/// Derives a key with the KDF already chosen.
pub fn derive_key_with(kdf: Kdf, parameters: &ChallengeParameters, salt: &[u8], password: &[u8]) -> (r: Result<Vec<u8>>)
    requires
        kdf_limits(Some(kdf), parameters.key_length, parameters.parallelism),
    ensures
        bytes_result(r) == derive_with(kdf, parameters@, salt@, password@),
        r matches Ok(v) ==> v@.len() == derived_len(kdf, parameters@, salt@.len() + password@.len()),
{
    match kdf {
        Kdf::Pbkdf2(h) => Ok(pbkdf2::derive_with_digest(h, parameters, salt, password)),
        Kdf::Sha(h) => Ok(sha::derive_with_digest(h, parameters, salt, password)),
        Kdf::Scrypt => scrypt::derive_key(parameters, salt, password),
        Kdf::Argon2id => argon2id::derive_key(parameters, salt, password),
    }
}

/// Derives a key from the given parameters, salt, and password, choosing
/// the KDF by the upper-cased `parameters.algorithm`.
pub fn derive_key(parameters: &ChallengeParameters, salt: &[u8], password: &[u8]) -> (r: Result<Vec<u8>>)
    requires
        kdf_limits_ok(parameters@),
    ensures
        bytes_result(r) == derive_outcome(parameters@, salt@, password@),
        r matches Ok(v) ==> kdf_for_name(upper_case(parameters.algorithm@)) is Some && v@.len()
            == derived_len(
                kdf_for_name(upper_case(parameters.algorithm@))->0,
                parameters@,
                salt@.len() + password@.len(),
            ),
        all_ascii(parameters.algorithm@) ==> upper_case(parameters.algorithm@) == ascii_upper(
            parameters.algorithm@,
        ),
{
    let upper = to_uppercase(parameters.algorithm.as_str());
    match kdf_from_name(upper.as_str()) {
        Some(kdf) => derive_key_with(kdf, parameters, salt, password),
        None => Err(Error::UnsupportedAlgorithm(upper)),
    }
}

} // verus!
