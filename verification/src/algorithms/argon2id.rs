//! Argon2id (version 0x13): `memory_cost` is m (KiB, required), `cost` is
//! t, `parallelism` is p (default 1).
use vstd::prelude::*;

use crate::error::{bytes_result, Error, ErrorView, Result};
use crate::types::{ChallengeParameters, ChallengeParametersView};

verus! {

/// Name for the key `argon2` computes with Argon2id, version 0x13.
pub uninterp spec fn argon2id_output(
    m_cost: u32,
    t_cost: u32,
    p_cost: u32,
    password: Seq<u8>,
    salt: Seq<u8>,
    len: nat,
) -> Seq<u8>;

/// The message of the first check that `argon2` fails, in the order that
/// `Params::new` and `hash_password_into` make them; `None` when all pass.
pub open spec fn argon2id_rejection(
    m_cost: u32,
    t_cost: u32,
    p_cost: u32,
    len: nat,
    password_len: nat,
    salt_len: nat,
) -> Option<Seq<char>> {
    if m_cost < 8 || m_cost < p_cost * 8 {
        Some("memory cost is too small"@)
    } else if t_cost < 1 {
        Some("time cost is too small"@)
    } else if p_cost < 1 {
        Some("not enough threads"@)
    } else if p_cost > 0xFF_FFFF {
        Some("too many threads"@)
    } else if len < 4 {
        Some("output is too short"@)
    } else if len > 0xFFFF_FFFF {
        Some("output is too long"@)
    } else if password_len > 0xFFFF_FFFF {
        Some("password is too long"@)
    } else if salt_len < 8 {
        Some("salt is too short"@)
    } else if salt_len > 0xFFFF_FFFF {
        Some("salt is too long"@)
    } else {
        None
    }
}

/// `Params::new(m, t, p, Some(len))`, `Argon2::new(Argon2id, V0x13, ..)` and
/// `hash_password_into` a zeroed buffer of `key_len` bytes; an error is
/// given as its `Display` text. `Params::new` computes `8 * p` in `u32`
/// (a panic in debug builds when it overflows), hence the bound.
#[verifier::external_body]
fn argon2id_hash(
    m_cost: u32,
    t_cost: u32,
    p_cost: u32,
    key_len: usize,
    password: &[u8],
    salt: &[u8],
) -> (r: core::result::Result<Vec<u8>, String>)
    requires
        p_cost <= 0x1fff_ffff,
    ensures
        r is Ok <==> argon2id_rejection(
            m_cost,
            t_cost,
            p_cost,
            key_len as nat,
            password@.len(),
            salt@.len(),
        ) is None,
        r matches Err(e) ==> Some(e@) == argon2id_rejection(
            m_cost,
            t_cost,
            p_cost,
            key_len as nat,
            password@.len(),
            salt@.len(),
        ),
        r matches Ok(v) ==> v@ == argon2id_output(
            m_cost,
            t_cost,
            p_cost,
            password@,
            salt@,
            key_len as nat,
        ) && v@.len() == key_len,
{
    let params = match ::argon2::Params::new(m_cost, t_cost, p_cost, Some(key_len)) {
        Ok(p) => p,
        Err(e) => return Err(e.to_string()),
    };
    let hasher = ::argon2::Argon2::new(::argon2::Algorithm::Argon2id, ::argon2::Version::V0x13, params);
    let mut out = vec![0u8; key_len];
    match hasher.hash_password_into(password, salt, &mut out) {
        Ok(()) => Ok(out),
        Err(e) => Err(e.to_string()),
    }
}

/// What Argon2id derivation gives for the parameters.
pub open spec fn argon2id_outcome(p: ChallengeParametersView, salt: Seq<u8>, password: Seq<u8>) -> core::result::Result<
    Seq<u8>,
    ErrorView,
> {
    match p.memory_cost {
        None => Err(ErrorView::InvalidParameters("Argon2id requires memory_cost"@)),
        Some(m) => {
            let par = match p.parallelism {
                Some(x) => x,
                None => 1u32,
            };
            match argon2id_rejection(m, p.cost, par, p.key_length as nat, password.len(), salt.len()) {
                Some(msg) => Err(ErrorView::Argon2(msg)),
                None => Ok(argon2id_output(m, p.cost, par, password, salt, p.key_length as nat)),
            }
        },
    }
}

/// Derives a key using Argon2id.
pub fn derive_key(parameters: &ChallengeParameters, salt: &[u8], password: &[u8]) -> (r: Result<
    Vec<u8>,
>)
    requires
        match parameters.parallelism {
            Some(n) => n <= 0x1fff_ffff,
            None => true,
        },
    ensures
        bytes_result(r) == argon2id_outcome(parameters@, salt@, password@),
        r matches Ok(v) ==> v@.len() == parameters.key_length,
{
    let m_cost = match parameters.memory_cost {
        Some(m) => m,
        None => {
            return Err(Error::InvalidParameters("Argon2id requires memory_cost".to_string()));
        },
    };
    let t_cost = parameters.cost;
    let p_cost = match parameters.parallelism {
        Some(p) => p,
        None => 1,
    };
    match argon2id_hash(m_cost, t_cost, p_cost, parameters.key_length, password, salt) {
        Ok(v) => Ok(v),
        Err(msg) => Err(Error::Argon2(msg)),
    }
}

} // verus!
