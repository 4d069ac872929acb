//! Iterative SHA: start with `salt || password` and hash it `cost` times
//! (cost 0 leaves it unhashed).
use vstd::prelude::*;

use crate::error::Result;
use crate::helpers::{copy_bytes, digest_len, sha_digest, sha_hash};
use crate::text::{str_equal, to_uppercase, upper_case};
use crate::types::{ChallengeParameters, ChallengeParametersView, HmacAlgorithm};

verus! {

/// `n` rounds of hashing starting from `data`.
pub open spec fn sha_iterate(alg: HmacAlgorithm, data: Seq<u8>, n: nat) -> Seq<u8>
    decreases n,
{
    if n == 0 {
        data
    } else {
        sha_digest(alg, sha_iterate(alg, data, (n - 1) as nat))
    }
}

/// The key: `salt || password` hashed `cost` times, cut to `key_length`.
pub open spec fn sha_key(alg: HmacAlgorithm, p: ChallengeParametersView, salt: Seq<u8>, password: Seq<u8>) -> Seq<u8> {
    let d = sha_iterate(alg, salt + password, p.cost as nat);
    d.take(if p.key_length < d.len() { p.key_length as int } else { d.len() as int })
}

/// The digest this module uses for an upper-cased name: SHA-384 and SHA-512
/// by name, SHA-256 for anything else.
pub open spec fn digest_for_name(upper: Seq<char>) -> HmacAlgorithm {
    if upper == "SHA-384"@ {
        HmacAlgorithm::Sha384
    } else if upper == "SHA-512"@ {
        HmacAlgorithm::Sha512
    } else {
        HmacAlgorithm::Sha256
    }
}

/// The smaller of two lengths.
pub open spec fn min_len(a: nat, b: nat) -> nat {
    if a < b {
        a
    } else {
        b
    }
}

/// `iterations` rounds of hashing starting from `initial`.
pub fn hash_iterations(algorithm: &HmacAlgorithm, initial: &[u8], iterations: usize) -> (r: Vec<u8>)
    ensures
        r@ == sha_iterate(*algorithm, initial@, iterations as nat),
        iterations > 0 ==> r@.len() == digest_len(*algorithm),
{
    let mut data: Vec<u8> = copy_bytes(initial);
    let mut i: usize = 0;
    while i < iterations
        invariant
            i <= iterations,
            data@ == sha_iterate(*algorithm, initial@, i as nat),
            i > 0 ==> data@.len() == digest_len(*algorithm),
        decreases iterations - i,
    {
        data = sha_hash(algorithm, data.as_slice());
        i += 1;
    }
    data
}

/// Derives the key with the given digest.
pub fn derive_with_digest(
    algorithm: HmacAlgorithm,
    parameters: &ChallengeParameters,
    salt: &[u8],
    password: &[u8],
) -> (r: Vec<u8>)
    ensures
        r@ == sha_key(algorithm, parameters@, salt@, password@),
        r@.len() == min_len(
            parameters.key_length as nat,
            if parameters.cost == 0 {
                salt@.len() + password@.len()
            } else {
                digest_len(algorithm)
            },
        ),
{
    let key_len = parameters.key_length;
    let iterations: usize = parameters.cost as usize;
    let mut initial: Vec<u8> = copy_bytes(salt);
    let mut i: usize = 0;
    while i < password.len()
        invariant
            i <= password.len(),
            initial@ == salt@ + password@.take(i as int),
        decreases password.len() - i,
    {
        initial.push(password[i]);
        i += 1;
        assert(initial@ =~= salt@ + password@.take(i as int));
    }
    assert(password@.take(i as int) =~= password@);
    let derived = hash_iterations(&algorithm, initial.as_slice(), iterations);
    let n = if key_len < derived.len() {
        key_len
    } else {
        derived.len()
    };
    let mut out: Vec<u8> = Vec::new();
    let mut j: usize = 0;
    while j < n
        invariant
            j <= n <= derived@.len(),
            out@ == derived@.take(j as int),
        decreases n - j,
    {
        out.push(derived[j]);
        j += 1;
        assert(out@ =~= derived@.take(j as int));
    }
    out
}

/// Iterative SHA hashing: start with `salt || password`, then hash the result
/// `cost` times; the digest is chosen by the upper-cased algorithm name.
pub fn derive_key(parameters: &ChallengeParameters, salt: &[u8], password: &[u8]) -> (r: Result<
    Vec<u8>,
>)
    ensures
        r matches Ok(v) && v@ == sha_key(
            digest_for_name(upper_case(parameters.algorithm@)),
            parameters@,
            salt@,
            password@,
        ),
{
    let upper = to_uppercase(parameters.algorithm.as_str());
    let algorithm = if str_equal(upper.as_str(), "SHA-384") {
        HmacAlgorithm::Sha384
    } else if str_equal(upper.as_str(), "SHA-512") {
        HmacAlgorithm::Sha512
    } else {
        HmacAlgorithm::Sha256
    };
    Ok(derive_with_digest(algorithm, parameters, salt, password))
}

} // verus!
