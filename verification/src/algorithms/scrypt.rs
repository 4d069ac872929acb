//! scrypt: `cost` is N (a power of two), `memory_cost` is r (default 8),
//! `parallelism` is p (default 1).
use vstd::arithmetic::power2::pow2;
use vstd::prelude::*;

use crate::error::{bytes_result, Error, ErrorView, Result};
use crate::text::{chars_of, decimal, push_decimal, string_from_chars};
use crate::types::{ChallengeParameters, ChallengeParametersView};

verus! {

/// Name for the key `scrypt::scrypt` computes.
pub uninterp spec fn scrypt_output(
    log_n: u8,
    r: u32,
    p: u32,
    password: Seq<u8>,
    salt: Seq<u8>,
    len: nat,
) -> Seq<u8>;

/// The checks of `scrypt::Params::new` (every failure is the same error).
pub open spec fn scrypt_params_ok(log_n: u8, r: u32, p: u32, len: nat) -> bool {
    &&& r > 0
    &&& p > 0
    &&& (log_n as nat) < (usize::BITS as nat)
    &&& 10 <= len <= 64
    &&& r * 128 <= usize::MAX
    &&& r * 128 * pow2(log_n as nat) <= usize::MAX
    &&& r * 128 * p <= usize::MAX
    &&& (log_n as int) < r * 16
    &&& r * p < 0x4000_0000
}

/// `scrypt::Params::new(log_n, r, p, key_len)` and `scrypt::scrypt` into a
/// zeroed buffer of `key_len` bytes; an error is given as its `Display`
/// text. Parameters that pass `Params::new` have `10 <= key_len <= 64`, so
/// `scrypt` itself never fails on them.
#[verifier::external_body]
fn scrypt_hash(
    log_n: u8,
    r: u32,
    p: u32,
    key_len: usize,
    password: &[u8],
    salt: &[u8],
) -> (res: core::result::Result<Vec<u8>, String>)
    ensures
        res is Ok <==> scrypt_params_ok(log_n, r, p, key_len as nat),
        res matches Err(e) ==> e@ == "invalid scrypt parameters"@,
        res matches Ok(v) ==> v@ == scrypt_output(log_n, r, p, password@, salt@, key_len as nat)
            && v@.len() == key_len,
{
    let params = match ::scrypt::Params::new(log_n, r, p, key_len) {
        Ok(x) => x,
        Err(e) => return Err(e.to_string()),
    };
    let mut out = vec![0u8; key_len];
    match ::scrypt::scrypt(password, salt, &params, &mut out) {
        Ok(()) => Ok(out),
        Err(e) => Err(e.to_string()),
    }
}

/// The exponent `k` with `2^k == n`, if `n` is a power of two.
pub open spec fn exact_log2(n: nat) -> Option<nat>
    decreases n,
{
    if n == 1 {
        Some(0)
    } else if n < 2 || n % 2 == 1 {
        None
    } else {
        match exact_log2(n / 2) {
            Some(k) => Some(k + 1),
            None => None,
        }
    }
}

/// The message for a cost that is not a power of two.
pub open spec fn bad_cost_message(n: u32) -> Seq<char> {
    "scrypt cost (N) must be a power of 2, got "@ + decimal(n as nat)
}

/// What scrypt derivation gives for the parameters.
pub open spec fn scrypt_outcome(p: ChallengeParametersView, salt: Seq<u8>, password: Seq<u8>) -> core::result::Result<
    Seq<u8>,
    ErrorView,
> {
    let r = match p.memory_cost {
        Some(x) => x,
        None => 8u32,
    };
    let par = match p.parallelism {
        Some(x) => x,
        None => 1u32,
    };
    match exact_log2(p.cost as nat) {
        None => Err(ErrorView::InvalidParameters(bad_cost_message(p.cost))),
        Some(k) => if scrypt_params_ok(k as u8, r, par, p.key_length as nat) {
            Ok(scrypt_output(k as u8, r, par, password, salt, p.key_length as nat))
        } else {
            Err(ErrorView::Scrypt("invalid scrypt parameters"@))
        },
    }
}

proof fn lemma_exact_log2_pow(n: nat)
    ensures
        exact_log2(n) is Some ==> pow2(exact_log2(n)->0) == n,
    decreases n,
{
    if n >= 2 && n % 2 == 0 {
        lemma_exact_log2_pow(n / 2);
        match exact_log2(n / 2) {
            Some(k) => {
                vstd::arithmetic::power2::lemma_pow2_unfold(k + 1);
            },
            None => {},
        }
    } else if n == 1 {
        vstd::arithmetic::power2::lemma2_to64();
    }
}

proof fn lemma_exact_log2_bound(n: nat)
    requires
        n <= u32::MAX,
    ensures
        exact_log2(n) is Some ==> exact_log2(n)->0 < 32,
{
    lemma_exact_log2_pow(n);
    match exact_log2(n) {
        Some(k) => {
            if k >= 32 {
                vstd::arithmetic::power2::lemma2_to64();
                if k > 32 {
                    vstd::arithmetic::power2::lemma_pow2_strictly_increases(32, k);
                }
            }
        },
        None => {},
    }
}

proof fn lemma_exact_log2_of_pow2(k: nat)
    ensures
        exact_log2(pow2(k)) == Some(k),
    decreases k,
{
    vstd::arithmetic::power2::lemma_pow2_pos(k);
    if k == 0 {
        vstd::arithmetic::power2::lemma2_to64();
    } else {
        lemma_exact_log2_of_pow2((k - 1) as nat);
        vstd::arithmetic::power2::lemma_pow2_unfold(k);
        vstd::arithmetic::power2::lemma_pow2_pos((k - 1) as nat);
        assert(pow2(k) / 2 == pow2((k - 1) as nat));
    }
}

/// scrypt runs with `N = cost` = 2^k, block size `r = memory_cost` (8 when
/// not given) and parallelism `p = parallelism` (1 when not given), deriving
/// `key_length` bytes from the password and salt.
pub proof fn lemma_scrypt_parameters(
    p: ChallengeParametersView,
    salt: Seq<u8>,
    password: Seq<u8>,
    k: nat,
    r: u32,
    q: u32,
)
    requires
        p.cost as nat == pow2(k),
        k < 32,
    ensures
        p.memory_cost is None && p.parallelism is None ==> (scrypt_outcome(p, salt, password) matches Ok(v)
            ==> v == scrypt_output(k as u8, 8, 1, password, salt, p.key_length as nat)),
        p.memory_cost == Some(r) && p.parallelism is None ==> (scrypt_outcome(p, salt, password) matches Ok(v)
            ==> v == scrypt_output(k as u8, r, 1, password, salt, p.key_length as nat)),
        p.memory_cost is None && p.parallelism == Some(q) ==> (scrypt_outcome(p, salt, password) matches Ok(v)
            ==> v == scrypt_output(k as u8, 8, q, password, salt, p.key_length as nat)),
        p.memory_cost == Some(r) && p.parallelism == Some(q) ==> (scrypt_outcome(p, salt, password) matches Ok(v)
            ==> v == scrypt_output(k as u8, r, q, password, salt, p.key_length as nat)),
{
    lemma_exact_log2_of_pow2(k);
}

/// The base-2 exponent of `n` when it is a power of two.
fn power_of_two_exponent(n: u32) -> (r: Option<u8>)
    ensures
        match exact_log2(n as nat) {
            Some(k) => r == Some(k as u8),
            None => r is None,
        },
{
    proof {
        lemma_exact_log2_bound(n as nat);
    }
    if n == 0 {
        return None;
    }
    let mut m: u32 = n;
    let mut k: u8 = 0;
    while k < 32 && m > 1 && m % 2 == 0
        invariant
            1 <= m <= n,
            k <= 32,
            exact_log2(n as nat) == match exact_log2(m as nat) {
                Some(j) => Some((j + k) as nat),
                None => None,
            },
            exact_log2(n as nat) is Some ==> exact_log2(n as nat)->0 < 32,
        decreases m,
    {
        m = m / 2;
        k = k + 1;
    }
    if m == 1 {
        Some(k)
    } else {
        assert(m % 2 == 1 || k == 32);
        None
    }
}

/// Derives a key using scrypt.
pub fn derive_key(parameters: &ChallengeParameters, salt: &[u8], password: &[u8]) -> (r: Result<
    Vec<u8>,
>)
    ensures
        bytes_result(r) == scrypt_outcome(parameters@, salt@, password@),
        r matches Ok(v) ==> v@.len() == parameters.key_length,
{
    let n = parameters.cost;
    let r = match parameters.memory_cost {
        Some(x) => x,
        None => 8,
    };
    let p = match parameters.parallelism {
        Some(x) => x,
        None => 1,
    };
    let log_n = match power_of_two_exponent(n) {
        Some(k) => k,
        None => {
            let mut msg = chars_of("scrypt cost (N) must be a power of 2, got ");
            push_decimal(&mut msg, n as u64);
            return Err(Error::InvalidParameters(string_from_chars(&msg)));
        },
    };
    match scrypt_hash(log_n, r, p, parameters.key_length, password, salt) {
        Ok(v) => Ok(v),
        Err(msg) => Err(Error::Scrypt(msg)),
    }
}

} // verus!
