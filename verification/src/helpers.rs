//! Byte-level helpers: hex, constant-time comparison, HMAC, SHA digests,
//! the KDF password buffer, randomness and clocks.
use hmac::Mac;
use rand::RngCore;
use sha2::Digest;
use subtle::ConstantTimeEq;
use vstd::prelude::*;
use vstd::string::StringSliceAdditionalSpecFns;

use crate::error::{Error, Result};
use crate::text::{hex_decode, hex_encode, lemma_encode_utf8_injective};
use crate::types::HmacAlgorithm;

verus! {

// ---------------------------------------------------------------------------
// Hex
// ---------------------------------------------------------------------------

/// `hex::encode`: lowercase hex, two digits per byte, high nibble first.
#[verifier::external_body]
fn encode_hex(data: &[u8]) -> (s: String)
    ensures
        s@ == hex_encode(data@),
{
    hex::encode(data)
}

/// `hex::decode` on the bytes of a string: succeeds exactly when the byte
/// length is even and every byte is a hex digit of either case, giving the
/// decoded bytes.
#[verifier::external_body]
fn decode_hex(s: &str) -> (r: core::result::Result<Vec<u8>, hex::FromHexError>)
    ensures
        r is Ok <==> hex_decode(s.spec_bytes()) is Some,
        r matches Ok(v) ==> v@ == hex_decode(s.spec_bytes())->0,
{
    hex::decode(s)
}

/// Converts raw bytes to a lowercase hex string.
pub fn bytes_to_hex(bytes: &[u8]) -> (s: String)
    ensures
        s@ == hex_encode(bytes@),
{
    encode_hex(bytes)
}

/// Decodes a hex string (digits of either case) into bytes.
pub fn hex_to_bytes(s: &str) -> (r: Result<Vec<u8>>)
    ensures
        match hex_decode(s.spec_bytes()) {
            Some(b) => r matches Ok(v) && v@ == b,
            None => r matches Err(Error::Hex(_)),
        },
{
    match decode_hex(s) {
        Ok(v) => Ok(v),
        Err(e) => Err(Error::Hex(e)),
    }
}

/// A vector holding the bytes of `s`.
pub fn copy_bytes(s: &[u8]) -> (v: Vec<u8>)
    ensures
        v@ == s@,
{
    let mut v: Vec<u8> = Vec::new();
    let mut i: usize = 0;
    while i < s.len()
        invariant
            i <= s.len(),
            v@ == s@.take(i as int),
        decreases s.len() - i,
    {
        v.push(s[i]);
        i += 1;
        assert(v@ =~= s@.take(i as int));
    }
    assert(s@.take(i as int) =~= s@);
    v
}

// ---------------------------------------------------------------------------
// Comparisons
// ---------------------------------------------------------------------------

/// Checks whether `buf` starts with the bytes in `prefix`.
pub fn buffer_starts_with(buf: &[u8], prefix: &[u8]) -> (r: bool)
    ensures
        r == crate::text::starts_with(buf@, prefix@),
{
    if buf.len() < prefix.len() {
        return false;
    }
    let mut i: usize = 0;
    while i < prefix.len()
        invariant
            prefix.len() <= buf.len(),
            i <= prefix.len(),
            forall|j: int| 0 <= j < i ==> buf@[j] == prefix@[j],
        decreases prefix.len() - i,
    {
        if buf[i] != prefix[i] {
            assert(buf@.take(prefix@.len() as int)[i as int] != prefix@[i as int]);
            return false;
        }
        i += 1;
    }
    assert(buf@.take(prefix@.len() as int) =~= prefix@);
    true
}

/// `subtle`'s `ConstantTimeEq` on byte slices, read as a `bool`: true
/// exactly when both slices hold the same bytes (different lengths give
/// false).
#[verifier::external_body]
fn ct_eq_bytes(a: &[u8], b: &[u8]) -> (r: bool)
    ensures
        r == (a@ == b@),
{
    a.ct_eq(b).into()
}

/// Constant-time equality check for byte slices.
pub fn constant_time_equal(a: &[u8], b: &[u8]) -> (r: bool)
    ensures
        r == (a@ == b@),
{
    if a.len() != b.len() {
        return false;
    }
    ct_eq_bytes(a, b)
}

/// Constant-time equality check for hex-encoded strings (compared as raw bytes).
pub fn constant_time_equal_hex(a: &str, b: &str) -> (r: bool)
    ensures
        r == (a@ == b@),
{
    let r = constant_time_equal(a.as_bytes(), b.as_bytes());
    proof {
        if a.spec_bytes() == b.spec_bytes() {
            lemma_encode_utf8_injective(a@, b@);
        }
    }
    r
}

// ---------------------------------------------------------------------------
// HMAC and SHA
// ---------------------------------------------------------------------------

/// Output length in bytes of each digest.
pub open spec fn digest_len(alg: HmacAlgorithm) -> nat {
    match alg {
        HmacAlgorithm::Sha256 => 32,
        HmacAlgorithm::Sha384 => 48,
        HmacAlgorithm::Sha512 => 64,
    }
}

/// Name for the HMAC tag that `hmac` computes over `msg` with `key`,
/// using the given SHA-2 digest.
pub uninterp spec fn hmac_tag(alg: HmacAlgorithm, key: Seq<u8>, msg: Seq<u8>) -> Seq<u8>;

/// Name for the SHA-2 digest that `sha2` computes.
pub uninterp spec fn sha_digest(alg: HmacAlgorithm, data: Seq<u8>) -> Seq<u8>;

/// `hmac::digest::InvalidLength`, which HMAC key setup can return.
#[verifier::external_type_specification]
#[verifier::external_body]
pub struct ExInvalidLength(hmac::digest::InvalidLength);

/// `Hmac::<Sha256>::new_from_slice`, `update`, `finalize`. HMAC takes keys of
/// any length, so key setup never fails; the tag has 32 bytes.
#[verifier::external_body]
fn hmac_sha256(key: &[u8], data: &[u8]) -> (r: core::result::Result<
    Vec<u8>,
    hmac::digest::InvalidLength,
>)
    ensures
        r is Ok,
        r matches Ok(v) ==> v@ == hmac_tag(HmacAlgorithm::Sha256, key@, data@) && v@.len() == 32,
{
    let mut mac = hmac::Hmac::<sha2::Sha256>::new_from_slice(key)?;
    mac.update(data);
    Ok(mac.finalize().into_bytes().to_vec())
}

/// `Hmac::<Sha384>`, as [`hmac_sha256`]; the tag has 48 bytes.
#[verifier::external_body]
fn hmac_sha384(key: &[u8], data: &[u8]) -> (r: core::result::Result<
    Vec<u8>,
    hmac::digest::InvalidLength,
>)
    ensures
        r is Ok,
        r matches Ok(v) ==> v@ == hmac_tag(HmacAlgorithm::Sha384, key@, data@) && v@.len() == 48,
{
    let mut mac = hmac::Hmac::<sha2::Sha384>::new_from_slice(key)?;
    mac.update(data);
    Ok(mac.finalize().into_bytes().to_vec())
}

/// `Hmac::<Sha512>`, as [`hmac_sha256`]; the tag has 64 bytes.
#[verifier::external_body]
fn hmac_sha512(key: &[u8], data: &[u8]) -> (r: core::result::Result<
    Vec<u8>,
    hmac::digest::InvalidLength,
>)
    ensures
        r is Ok,
        r matches Ok(v) ==> v@ == hmac_tag(HmacAlgorithm::Sha512, key@, data@) && v@.len() == 64,
{
    let mut mac = hmac::Hmac::<sha2::Sha512>::new_from_slice(key)?;
    mac.update(data);
    Ok(mac.finalize().into_bytes().to_vec())
}

/// Computes an HMAC tag of `data` keyed with the UTF-8 bytes of `key`.
pub fn hmac_sign(algorithm: &HmacAlgorithm, data: &[u8], key: &str) -> (r: Result<Vec<u8>>)
    ensures
        r matches Ok(v) && v@ == hmac_tag(*algorithm, key.spec_bytes(), data@) && v@.len()
            == digest_len(*algorithm),
{
    let key_bytes = key.as_bytes();
    let tag = match algorithm {
        HmacAlgorithm::Sha256 => hmac_sha256(key_bytes, data),
        HmacAlgorithm::Sha384 => hmac_sha384(key_bytes, data),
        HmacAlgorithm::Sha512 => hmac_sha512(key_bytes, data),
    };
    match tag {
        Ok(v) => Ok(v),
        Err(_) => Err(Error::InvalidHmacKey),
    }
}

/// `Sha256::digest`: the 32-byte SHA-256 digest.
#[verifier::external_body]
fn sha256_digest(data: &[u8]) -> (r: Vec<u8>)
    ensures
        r@ == sha_digest(HmacAlgorithm::Sha256, data@),
        r@.len() == 32,
{
    sha2::Sha256::digest(data).to_vec()
}

/// `Sha384::digest`: the 48-byte SHA-384 digest.
#[verifier::external_body]
fn sha384_digest(data: &[u8]) -> (r: Vec<u8>)
    ensures
        r@ == sha_digest(HmacAlgorithm::Sha384, data@),
        r@.len() == 48,
{
    sha2::Sha384::digest(data).to_vec()
}

/// `Sha512::digest`: the 64-byte SHA-512 digest.
#[verifier::external_body]
fn sha512_digest(data: &[u8]) -> (r: Vec<u8>)
    ensures
        r@ == sha_digest(HmacAlgorithm::Sha512, data@),
        r@.len() == 64,
{
    sha2::Sha512::digest(data).to_vec()
}

/// Computes a SHA digest of `data` using the given algorithm.
pub fn sha_hash(algorithm: &HmacAlgorithm, data: &[u8]) -> (r: Vec<u8>)
    ensures
        r@ == sha_digest(*algorithm, data@),
        r@.len() == digest_len(*algorithm),
{
    match algorithm {
        HmacAlgorithm::Sha256 => sha256_digest(data),
        HmacAlgorithm::Sha384 => sha384_digest(data),
        HmacAlgorithm::Sha512 => sha512_digest(data),
    }
}

// ---------------------------------------------------------------------------
// KDF input
// ---------------------------------------------------------------------------

/// The big-endian bytes of a `u32`.
pub open spec fn be_bytes(c: u32) -> Seq<u8> {
    seq![(c >> 24) as u8, ((c >> 16) & 0xff) as u8, ((c >> 8) & 0xff) as u8, (c & 0xff) as u8]
}

/// The KDF password for a counter: the nonce bytes, then the counter as four
/// big-endian bytes.
pub open spec fn password_for(nonce: Seq<u8>, counter: u32) -> Seq<u8> {
    nonce + be_bytes(counter)
}

/// Builds the password buffer used as KDF input for a given counter value.
pub fn build_password(nonce_bytes: &[u8], counter: u32) -> (r: Vec<u8>)
    ensures
        r@ == password_for(nonce_bytes@, counter),
{
    let mut buf: Vec<u8> = Vec::new();
    let mut i: usize = 0;
    while i < nonce_bytes.len()
        invariant
            i <= nonce_bytes.len(),
            buf@ == nonce_bytes@.take(i as int),
        decreases nonce_bytes.len() - i,
    {
        buf.push(nonce_bytes[i]);
        i += 1;
        assert(buf@ =~= nonce_bytes@.take(i as int));
    }
    buf.push((counter >> 24) as u8);
    buf.push(((counter >> 16) & 0xff) as u8);
    buf.push(((counter >> 8) & 0xff) as u8);
    buf.push((counter & 0xff) as u8);
    assert(buf@ =~= password_for(nonce_bytes@, counter));
    buf
}

// ---------------------------------------------------------------------------
// Randomness and clocks
// ---------------------------------------------------------------------------

/// 16 bytes from `rand::thread_rng()`; nothing is promised of their value.
#[verifier::external_body]
pub fn random_bytes_16() -> [u8; 16] {
    let mut bytes = [0u8; 16];
    rand::thread_rng().fill_bytes(&mut bytes);
    bytes
}

/// `std::time::Instant`, a reading of the monotonic clock.
#[verifier::external_type_specification]
#[verifier::external_body]
pub struct ExInstant(std::time::Instant);

/// `Instant::now()`.
#[verifier::external_body]
pub(crate) fn instant_now() -> std::time::Instant {
    std::time::Instant::now()
}

/// Nanoseconds elapsed since `start` (`Instant::elapsed().as_nanos()`).
#[verifier::external_body]
pub(crate) fn elapsed_nanos(start: &std::time::Instant) -> u128 {
    start.elapsed().as_nanos()
}

/// Whole tenths of a millisecond in a duration of `nanos` nanoseconds,
/// saturating at `u64::MAX`.
pub open spec fn tenths_of_ms_spec(nanos: u128) -> u64 {
    if nanos / 100_000 > u64::MAX {
        u64::MAX
    } else {
        (nanos / 100_000) as u64
    }
}

/// Whole tenths of a millisecond in a duration of `nanos` nanoseconds.
pub fn tenths_of_ms(nanos: u128) -> (r: u64)
    ensures
        r == tenths_of_ms_spec(nanos),
{
    let tenths = nanos / 100_000;
    if tenths > u64::MAX as u128 {
        u64::MAX
    } else {
        tenths as u64
    }
}

/// Elapsed time since `start` in whole tenths of a millisecond.
pub fn elapsed_tenths_ms(start: &std::time::Instant) -> (r: u64)
    ensures
        exists|nanos: u128| r == #[trigger] tenths_of_ms_spec(nanos),
{
    let nanos = elapsed_nanos(start);
    tenths_of_ms(nanos)
}

/// Seconds since the Unix epoch by the system clock (0 if the clock is set
/// before the epoch).
#[verifier::external_body]
pub(crate) fn unix_now_secs() -> u64 {
    std::time::SystemTime::now()
        .duration_since(std::time::UNIX_EPOCH)
        .unwrap_or_default()
        .as_secs()
}

} // verus!
