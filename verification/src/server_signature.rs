//! Verification of payloads signed by ALTCHA Sentinel, and of form-field
//! hashes.
use vstd::prelude::*;
use vstd::string::StringSliceAdditionalSpecFns;
use vstd::utf8::encode_utf8;

use crate::error::{Error, ErrorView, Result};
use crate::helpers::{
    bytes_to_hex, constant_time_equal_hex, elapsed_tenths_ms, hmac_sign, hmac_tag,
    instant_now, sha_digest, sha_hash, unix_now_secs,
};
use crate::json::{insert_sorted, kv_view, sorted_insert};
use crate::text::{
    chars_of, hex_encode, is_hex_byte, hex_byte_value, parse_u64, parse_u64_chars, replace_char,
    split_chars, split_on, str_equal, string_from_chars, string_from_utf8_lossy, to_uppercase,
    trim, trim_chars, upper_case, lossy_decode, utf8_of_chars, views_of, all_ascii, ascii_upper,
};
use crate::types::{
    empty_verification_data, strs_view, HmacAlgorithm, ServerSignaturePayload,
    ServerSignatureVerificationData, VerificationDataView, VerifyServerSignatureResult,
};

verus! {

broadcast use vstd::seq_lib::group_seq_properties;

// ---------------------------------------------------------------------------
// Algorithm names
// ---------------------------------------------------------------------------

/// The digest named by an upper-cased algorithm name.
pub open spec fn hmac_algorithm_for_name(upper: Seq<char>) -> Option<HmacAlgorithm> {
    if upper == "SHA-256"@ {
        Some(HmacAlgorithm::Sha256)
    } else if upper == "SHA-384"@ {
        Some(HmacAlgorithm::Sha384)
    } else if upper == "SHA-512"@ {
        Some(HmacAlgorithm::Sha512)
    } else {
        None
    }
}

/// The digest named by an already upper-cased algorithm name.
pub fn hmac_algorithm_from_name(upper: &str) -> (r: Option<HmacAlgorithm>)
    ensures
        r == hmac_algorithm_for_name(upper@),
{
    if str_equal(upper, "SHA-256") {
        Some(HmacAlgorithm::Sha256)
    } else if str_equal(upper, "SHA-384") {
        Some(HmacAlgorithm::Sha384)
    } else if str_equal(upper, "SHA-512") {
        Some(HmacAlgorithm::Sha512)
    } else {
        None
    }
}

/// Parses an algorithm name case-insensitively (by upper-casing it).
pub fn parse_hmac_algorithm(s: &str) -> (r: Result<HmacAlgorithm>)
    ensures
        match hmac_algorithm_for_name(upper_case(s@)) {
            Some(a) => r matches Ok(x) && x == a,
            None => r matches Err(e) && e@ == ErrorView::UnsupportedAlgorithm(upper_case(s@)),
        },
        all_ascii(s@) ==> upper_case(s@) == ascii_upper(s@),
{
    let upper = to_uppercase(s);
    match hmac_algorithm_from_name(upper.as_str()) {
        Some(a) => Ok(a),
        None => Err(Error::UnsupportedAlgorithm(upper)),
    }
}

// ---------------------------------------------------------------------------
// URL decoding
// ---------------------------------------------------------------------------

/// What `u8::from_str_radix(.., 16)` makes of the two bytes after a `%`
/// (when they are valid UTF-8): two hex digits, or `+` and one hex digit.
pub open spec fn pct_pair(x: u8, y: u8) -> Option<u8> {
    if is_hex_byte(x) && is_hex_byte(y) {
        Some((hex_byte_value(x) * 16 + hex_byte_value(y)) as u8)
    } else if x == 43 && is_hex_byte(y) {
        Some(hex_byte_value(y) as u8)
    } else {
        None
    }
}

/// Percent-decoding of bytes: `%` followed by a decodable pair becomes that
/// byte; every other byte stays.
pub open spec fn pct_bytes(b: Seq<u8>) -> Seq<u8>
    decreases b.len(),
{
    if b.len() == 0 {
        Seq::empty()
    } else if b.len() >= 3 && b[0] == 37 && pct_pair(b[1], b[2]) is Some {
        seq![pct_pair(b[1], b[2])->0] + pct_bytes(b.subrange(3, b.len() as int))
    } else {
        seq![b[0]] + pct_bytes(b.drop_first())
    }
}

/// URL decoding of text: `+` becomes a space, percent escapes become bytes,
/// and the bytes are read as UTF-8 (plainly when they are valid, with
/// replacement of invalid sequences otherwise).
pub open spec fn percent_decoded(s: Seq<char>) -> Seq<char> {
    lossy_decode(pct_bytes(encode_utf8(replace_char(s, '+', ' '))))
}

fn hex_value(b: u8) -> (r: Option<u8>)
    ensures
        is_hex_byte(b) ==> r == Some(hex_byte_value(b) as u8),
        !is_hex_byte(b) ==> r is None,
{
    if 48 <= b && b <= 57 {
        Some(b - 48)
    } else if 65 <= b && b <= 70 {
        Some(b - 55)
    } else if 97 <= b && b <= 102 {
        Some(b - 87)
    } else {
        None
    }
}

fn pct_pair_value(x: u8, y: u8) -> (r: Option<u8>)
    ensures
        r == pct_pair(x, y),
{
    match (hex_value(x), hex_value(y)) {
        (Some(a), Some(b)) => Some(a * 16 + b),
        (None, Some(b)) => if x == 43 {
            Some(b)
        } else {
            None
        },
        _ => None,
    }
}

proof fn lemma_pct_unfold(b: Seq<u8>, i: int)
    requires
        0 <= i < b.len(),
    ensures
        pct_bytes(b.subrange(i, b.len() as int)) == if b.len() - i >= 3 && b[i] == 37 && pct_pair(
            b[i + 1],
            b[i + 2],
        ) is Some {
            seq![pct_pair(b[i + 1], b[i + 2])->0] + pct_bytes(b.subrange(i + 3, b.len() as int))
        } else {
            seq![b[i]] + pct_bytes(b.subrange(i + 1, b.len() as int))
        },
{
    let rest = b.subrange(i, b.len() as int);
    assert(rest.drop_first() =~= b.subrange(i + 1, b.len() as int));
    if rest.len() >= 3 {
        assert(rest.subrange(3, rest.len() as int) =~= b.subrange(i + 3, b.len() as int));
    }
}

fn percent_decode_chars(cs: &Vec<char>) -> (r: String)
    ensures
        r@ == percent_decoded(cs@),
{
    let mut replaced: Vec<char> = Vec::new();
    let mut k: usize = 0;
    while k < cs.len()
        invariant
            k <= cs.len(),
            replaced@ =~= replace_char(cs@.take(k as int), '+', ' '),
        decreases cs.len() - k,
    {
        if cs[k] == '+' {
            replaced.push(' ');
        } else {
            replaced.push(cs[k]);
        }
        k += 1;
    }
    assert(cs@.take(k as int) =~= cs@);
    let bytes = utf8_of_chars(&replaced);
    let ghost b = bytes@;
    let mut out: Vec<u8> = Vec::new();
    let mut i: usize = 0;
    assert(b.subrange(0, b.len() as int) =~= b);
    while i < bytes.len()
        invariant
            i <= bytes.len(),
            b == bytes@,
            out@ + pct_bytes(b.subrange(i as int, b.len() as int)) == pct_bytes(b),
        decreases bytes.len() - i,
    {
        let mut decoded: Option<u8> = None;
        if bytes[i] == 37 && bytes.len() - i > 2 {
            decoded = pct_pair_value(bytes[i + 1], bytes[i + 2]);
        }
        proof {
            lemma_pct_unfold(b, i as int);
        }
        let ghost before = out@;
        match decoded {
            Some(v) => {
                let ghost tail = pct_bytes(b.subrange(i + 3, b.len() as int));
                out.push(v);
                assert(out@ + tail =~= before + (seq![v] + tail));
                i += 3;
            },
            None => {
                let ghost tail = pct_bytes(b.subrange(i + 1, b.len() as int));
                let c = bytes[i];
                out.push(c);
                assert(out@ + tail =~= before + (seq![c] + tail));
                i += 1;
            },
        }
    }
    assert(b.subrange(i as int, b.len() as int) =~= Seq::<u8>::empty());
    assert(out@ =~= pct_bytes(b));
    string_from_utf8_lossy(out.as_slice())
}

/// Percent-decodes a URL-encoded string (`+` → space, `%XX` → byte).
pub fn percent_decode(s: &str) -> (r: String)
    ensures
        r@ == percent_decoded(s@),
{
    let cs = chars_of(s);
    percent_decode_chars(&cs)
}

/// The text before the first `sep` and, when there is one, the text after it.
pub open spec fn split_once(p: Seq<char>, sep: char) -> (Seq<char>, Option<Seq<char>>)
    decreases p.len(),
{
    if p.len() == 0 {
        (Seq::empty(), None)
    } else if p[0] == sep {
        (Seq::empty(), Some(p.drop_first()))
    } else {
        let (a, b) = split_once(p.drop_first(), sep);
        (seq![p[0]] + a, b)
    }
}

proof fn lemma_split_once_at(p: Seq<char>, sep: char, i: int)
    requires
        0 <= i <= p.len(),
        forall|j: int| 0 <= j < i ==> p[j] != sep,
        i == p.len() || p[i] == sep,
    ensures
        split_once(p, sep) == (
            p.take(i),
            if i < p.len() {
                Some(p.subrange(i + 1, p.len() as int))
            } else {
                None::<Seq<char>>
            },
        ),
    decreases i,
{
    if i == 0 {
        if p.len() > 0 {
            assert(p.drop_first() =~= p.subrange(1, p.len() as int));
        }
        assert(p.take(0) =~= Seq::<char>::empty());
    } else {
        let q = p.drop_first();
        assert forall|j: int| 0 <= j < i - 1 implies q[j] != sep by {
            assert(q[j] == p[j + 1]);
        }
        lemma_split_once_at(q, sep, i - 1);
        assert(seq![p[0]] + q.take(i - 1) =~= p.take(i));
        if i < p.len() {
            assert(q.subrange(i, q.len() as int) =~= p.subrange(i + 1, p.len() as int));
        }
    }
}

fn split_once_chars(p: &Vec<char>, sep: char) -> (r: (Vec<char>, Option<Vec<char>>))
    ensures
        r.0@ == split_once(p@, sep).0,
        match split_once(p@, sep).1 {
            Some(b) => r.1 matches Some(x) && x@ == b,
            None => r.1 is None,
        },
{
    let mut i: usize = 0;
    while i < p.len() && p[i] != sep
        invariant
            i <= p.len(),
            forall|j: int| 0 <= j < i ==> p@[j] != sep,
        decreases p.len() - i,
    {
        i += 1;
    }
    proof {
        lemma_split_once_at(p@, sep, i as int);
    }
    let mut a: Vec<char> = Vec::new();
    let mut k: usize = 0;
    while k < i
        invariant
            k <= i <= p.len(),
            a@ == p@.take(k as int),
        decreases i - k,
    {
        a.push(p[k]);
        k += 1;
        assert(a@ =~= p@.take(k as int));
    }
    if i < p.len() {
        let mut b: Vec<char> = Vec::new();
        let mut j: usize = i + 1;
        while j < p.len()
            invariant
                i + 1 <= j <= p.len(),
                b@ == p@.subrange(i + 1, j as int),
            decreases p.len() - j,
        {
            b.push(p[j]);
            j += 1;
            assert(b@ =~= p@.subrange(i + 1, j as int));
        }
        (a, Some(b))
    } else {
        (a, None)
    }
}

/// The decoded key and trimmed decoded value of one `key=value` piece, or
/// none when the key decodes to nothing.
pub open spec fn url_pair(piece: Seq<char>) -> Option<(Seq<char>, Seq<char>)> {
    let (kraw, vraw) = split_once(piece, '=');
    let key = percent_decoded(kraw);
    let value = percent_decoded(
        match vraw {
            Some(v) => v,
            None => Seq::empty(),
        },
    );
    if key.len() == 0 {
        None
    } else {
        Some((key, trim(value)))
    }
}

/// The pairs of the non-empty pieces, in order.
pub open spec fn pairs_of(pieces: Seq<Seq<char>>) -> Seq<(Seq<char>, Seq<char>)>
    decreases pieces.len(),
{
    if pieces.len() == 0 {
        Seq::empty()
    } else {
        let rest = pairs_of(pieces.drop_last());
        let p = pieces.last();
        if p.len() == 0 {
            rest
        } else {
            match url_pair(p) {
                Some(kv) => rest.push(kv),
                None => rest,
            }
        }
    }
}

/// The key-value pairs of an `application/x-www-form-urlencoded` string.
pub open spec fn url_pairs(s: Seq<char>) -> Seq<(Seq<char>, Seq<char>)> {
    pairs_of(split_on(s, '&'))
}

/// Decodes an `application/x-www-form-urlencoded` string into key-value pairs.
pub fn parse_urlencoded(s: &str) -> (r: Vec<(String, String)>)
    ensures
        kv_view(r@) == url_pairs(s@),
{
    let cs = chars_of(s);
    let pieces = split_chars(&cs, '&');
    let ghost pv = views_of(pieces@);
    let mut out: Vec<(String, String)> = Vec::new();
    let mut i: usize = 0;
    assert(kv_view(out@) =~= pairs_of(pv.take(0)));
    while i < pieces.len()
        invariant
            i <= pieces.len(),
            pv == views_of(pieces@),
            pv == split_on(cs@, '&'),
            kv_view(out@) == pairs_of(pv.take(i as int)),
        decreases pieces.len() - i,
    {
        let piece = &pieces[i];
        let ghost before = kv_view(out@);
        assert(pv.take(i + 1).drop_last() =~= pv.take(i as int));
        assert(pv.take(i + 1).last() == piece@);
        if piece.len() > 0 {
            let (kraw, vraw) = split_once_chars(piece, '=');
            let key = percent_decode_chars(&kraw);
            let empty: Vec<char> = Vec::new();
            let value = match &vraw {
                Some(v) => percent_decode_chars(v),
                None => {
                    assert(empty@ =~= Seq::<char>::empty());
                    percent_decode_chars(&empty)
                },
            };
            if key.as_str().as_bytes().len() > 0 {
                let vt = trim_chars(&chars_of(value.as_str()));
                let ghost kk = key@;
                let vs = string_from_chars(&vt);
                proof {
                    if key@.len() == 0 {
                        assert(encode_utf8(key@) =~= Seq::<u8>::empty());
                    }
                }
                out.push((key, vs));
                assert(kv_view(out@) =~= before.push((kk, vt@)));
            } else {
                proof {
                    if key@.len() > 0 {
                        crate::text::lemma_encode_utf8_push(key@.drop_last(), key@.last());
                        assert(key@.drop_last().push(key@.last()) =~= key@);
                        vstd::utf8::char_is_scalar(key@.last());
                    }
                }
            }
        }
        i += 1;
    }
    assert(pv.take(i as int) =~= pv);
    out
}

// ---------------------------------------------------------------------------
// Verification data
// ---------------------------------------------------------------------------

/// The trimmed, non-empty pieces, in order.
pub open spec fn trimmed_nonempty(pieces: Seq<Seq<char>>) -> Seq<Seq<char>>
    decreases pieces.len(),
{
    if pieces.len() == 0 {
        Seq::empty()
    } else {
        let rest = trimmed_nonempty(pieces.drop_last());
        let t = trim(pieces.last());
        if t.len() == 0 {
            rest
        } else {
            rest.push(t)
        }
    }
}

/// A comma-separated list: pieces trimmed, empty ones dropped.
pub open spec fn comma_list(v: Seq<char>) -> Seq<Seq<char>> {
    trimmed_nonempty(split_on(v, ','))
}

fn comma_list_strings(v: &str) -> (r: Vec<String>)
    ensures
        strs_view(r@) == comma_list(v@),
{
    let cs = chars_of(v);
    let pieces = split_chars(&cs, ',');
    let ghost pv = views_of(pieces@);
    let mut out: Vec<String> = Vec::new();
    let mut i: usize = 0;
    assert(strs_view(out@) =~= trimmed_nonempty(pv.take(0)));
    while i < pieces.len()
        invariant
            i <= pieces.len(),
            pv == views_of(pieces@),
            pv == split_on(cs@, ','),
            strs_view(out@) == trimmed_nonempty(pv.take(i as int)),
        decreases pieces.len() - i,
    {
        assert(pv.take(i + 1).drop_last() =~= pv.take(i as int));
        assert(pv.take(i + 1).last() == pieces@[i as int]@);
        let ghost before = strs_view(out@);
        let t = trim_chars(&pieces[i]);
        if t.len() > 0 {
            out.push(string_from_chars(&t));
            assert(strs_view(out@) =~= before.push(t@));
        }
        i += 1;
    }
    assert(pv.take(i as int) =~= pv);
    out
}

/// The verification data after reading one pair; unknown keys go to
/// `extra` as `BTreeMap::insert` would put them.
pub open spec fn apply_pair(d: VerificationDataView, k: Seq<char>, v: Seq<char>) -> VerificationDataView {
    if k == "classification"@ {
        VerificationDataView { classification: Some(v), ..d }
    } else if k == "email"@ {
        VerificationDataView { email: Some(v), ..d }
    } else if k == "expire"@ {
        VerificationDataView { expire: parse_u64(v), ..d }
    } else if k == "fields"@ {
        VerificationDataView { fields: Some(comma_list(v)), ..d }
    } else if k == "fieldsHash"@ {
        VerificationDataView { fields_hash: Some(v), ..d }
    } else if k == "id"@ {
        VerificationDataView { id: Some(v), ..d }
    } else if k == "ipAddress"@ {
        VerificationDataView { ip_address: Some(v), ..d }
    } else if k == "reasons"@ {
        VerificationDataView { reasons: Some(comma_list(v)), ..d }
    } else if k == "score"@ {
        VerificationDataView { score: Some(v), ..d }
    } else if k == "time"@ {
        VerificationDataView { time: Some(v), ..d }
    } else if k == "verified"@ {
        VerificationDataView { verified: Some(v == "true"@), ..d }
    } else {
        VerificationDataView { extra: sorted_insert(d.extra, k, v), ..d }
    }
}

/// The verification data after reading all pairs in order.
pub open spec fn apply_pairs(pairs: Seq<(Seq<char>, Seq<char>)>) -> VerificationDataView
    decreases pairs.len(),
{
    if pairs.len() == 0 {
        empty_verification_data()
    } else {
        apply_pair(apply_pairs(pairs.drop_last()), pairs.last().0, pairs.last().1)
    }
}

/// The parsed verification data of a `verificationData` string.
pub open spec fn verification_data_of(data: Seq<char>) -> VerificationDataView {
    apply_pairs(url_pairs(data))
}

fn apply_pair_exec(out: &mut ServerSignatureVerificationData, key: String, value: String)
    ensures
        final(out)@ == apply_pair(old(out)@, key@, value@),
{
    let k = key.as_str();
    if str_equal(k, "classification") {
        out.classification = Some(value);
    } else if str_equal(k, "email") {
        out.email = Some(value);
    } else if str_equal(k, "expire") {
        out.expire = parse_u64_chars(&chars_of(value.as_str()));
    } else if str_equal(k, "fields") {
        out.fields = Some(comma_list_strings(value.as_str()));
    } else if str_equal(k, "fieldsHash") {
        out.fields_hash = Some(value);
    } else if str_equal(k, "id") {
        out.id = Some(value);
    } else if str_equal(k, "ipAddress") {
        out.ip_address = Some(value);
    } else if str_equal(k, "reasons") {
        out.reasons = Some(comma_list_strings(value.as_str()));
    } else if str_equal(k, "score") {
        out.score = Some(value);
    } else if str_equal(k, "time") {
        out.time = Some(value);
    } else if str_equal(k, "verified") {
        out.verified = Some(str_equal(value.as_str(), "true"));
    } else {
        insert_sorted(&mut out.extra, key, value);
    }
}

/// Parses the URL-encoded `verificationData` string from a
/// [`ServerSignaturePayload`]: known keys fill their fields (`expire` as an
/// unsigned integer, `verified` as `== "true"`, `fields` and `reasons` as
/// comma lists), the others go to `extra`; a later pair overrides an
/// earlier one. Always gives `Some`.
pub fn parse_verification_data(data: &str) -> (r: Option<ServerSignatureVerificationData>)
    ensures
        r matches Some(d) && d@ == verification_data_of(data@),
{
    let pairs = parse_urlencoded(data);
    let ghost pv = kv_view(pairs@);
    let mut out = ServerSignatureVerificationData::default();
    let mut i: usize = 0;
    assert(pv.take(0) =~= Seq::<(Seq<char>, Seq<char>)>::empty());
    while i < pairs.len()
        invariant
            i <= pairs.len(),
            pv == kv_view(pairs@),
            pv == url_pairs(data@),
            out@ == apply_pairs(pv.take(i as int)),
        decreases pairs.len() - i,
    {
        assert(pv.take(i + 1).drop_last() =~= pv.take(i as int));
        assert(pv.take(i + 1).last() == (pairs@[i as int].0@, pairs@[i as int].1@));
        let key = pairs[i].0.clone();
        let value = pairs[i].1.clone();
        apply_pair_exec(&mut out, key, value);
        i += 1;
    }
    assert(pv.take(i as int) =~= pv);
    Some(out)
}

// ---------------------------------------------------------------------------
// Verifying a server signature
// ---------------------------------------------------------------------------

/// The flags of a server-signature verification.
pub struct ServerVerdict {
    pub expired: bool,
    pub invalid_signature: bool,
    pub invalid_solution: bool,
    pub verified: bool,
    pub verification_data: VerificationDataView,
}

/// What verifying a payload gives at time `now` (seconds since the epoch):
/// the signature must be the hex of `HMAC(HASH(verificationData), secret)`,
/// the parsed data must not have expired, and both the payload and the data
/// must say `verified`.
pub open spec fn server_outcome(p: ServerSignaturePayload, secret: Seq<u8>, now: u64) -> core::result::Result<
    ServerVerdict,
    ErrorView,
> {
    server_outcome_for(upper_case(p.algorithm@), p, secret, now)
}

/// [`server_outcome`] with the upper-cased algorithm name given: the
/// payload's own `algorithm` counts only through `upper`.
pub open spec fn server_outcome_for(
    upper: Seq<char>,
    p: ServerSignaturePayload,
    secret: Seq<u8>,
    now: u64,
) -> core::result::Result<ServerVerdict, ErrorView> {
    match hmac_algorithm_for_name(upper) {
        None => Err(ErrorView::UnsupportedAlgorithm(upper)),
        Some(alg) => {
            let expected = hex_encode(
                hmac_tag(alg, secret, sha_digest(alg, encode_utf8(p.verification_data@))),
            );
            let invalid_signature = p.signature@ != expected;
            let vd = verification_data_of(p.verification_data@);
            let expired = vd.expire matches Some(e) && now > e;
            let invalid_solution = vd.verified != Some(true) || !p.verified;
            Ok(
                ServerVerdict {
                    expired,
                    invalid_signature,
                    invalid_solution,
                    verified: !expired && !invalid_signature && !invalid_solution,
                    verification_data: vd,
                },
            )
        },
    }
}

/// The flags of a result, without its time.
pub open spec fn server_result(r: Result<VerifyServerSignatureResult>) -> core::result::Result<
    ServerVerdict,
    ErrorView,
> {
    match r {
        Ok(v) => Ok(
            ServerVerdict {
                expired: v.expired,
                invalid_signature: v.invalid_signature,
                invalid_solution: v.invalid_solution,
                verified: v.verified,
                verification_data: match v.verification_data {
                    Some(d) => d@,
                    None => empty_verification_data(),
                },
            },
        ),
        Err(e) => Err(e@),
    }
}

/// Verifies a [`ServerSignaturePayload`] at the given time (seconds since
/// the epoch); the result's `time` is 0 and its data is always present.
pub fn verify_server_signature_at(payload: &ServerSignaturePayload, hmac_secret: &str, now_secs: u64) -> (r: Result<VerifyServerSignatureResult>)
    ensures
        server_result(r) == server_outcome(*payload, hmac_secret.spec_bytes(), now_secs),
        all_ascii(payload.algorithm@) ==> server_result(r) == server_outcome_for(
            ascii_upper(payload.algorithm@),
            *payload,
            hmac_secret.spec_bytes(),
            now_secs,
        ),
        r matches Ok(v) ==> v.time == 0 && v.verification_data is Some,
{
    let algorithm = parse_hmac_algorithm(payload.algorithm.as_str())?;
    let hash = sha_hash(&algorithm, payload.verification_data.as_str().as_bytes());
    let expected_sig = hmac_sign(&algorithm, hash.as_slice(), hmac_secret)?;
    let expected_hex = bytes_to_hex(expected_sig.as_slice());
    let invalid_signature = !constant_time_equal_hex(payload.signature.as_str(), expected_hex.as_str());
    let verification_data = parse_verification_data(payload.verification_data.as_str());
    let expired = match &verification_data {
        Some(d) => match d.expire {
            Some(exp) => now_secs > exp,
            None => false,
        },
        None => false,
    };
    let invalid_solution = match &verification_data {
        Some(d) => d.verified != Some(true),
        None => true,
    } || !payload.verified;
    let verified = !expired && !invalid_signature && !invalid_solution;
    Ok(
        VerifyServerSignatureResult {
            expired,
            invalid_signature,
            invalid_solution,
            time: 0,
            verified,
            verification_data,
        },
    )
}

/// Verifies a [`ServerSignaturePayload`] issued by ALTCHA Sentinel, reading
/// the system clock for the expiration check and timing the verification.
pub fn verify_server_signature(payload: &ServerSignaturePayload, hmac_secret: &str) -> (r: Result<
    VerifyServerSignatureResult,
>)
    ensures
        exists|now: u64|
            #[trigger] server_result(r) == server_outcome(*payload, hmac_secret.spec_bytes(), now)
                && (all_ascii(payload.algorithm@) ==> server_result(r) == server_outcome_for(
                ascii_upper(payload.algorithm@),
                *payload,
                hmac_secret.spec_bytes(),
                now,
            )),
        r matches Ok(v) ==> v.verification_data is Some,
{
    let start = instant_now();
    let now = unix_now_secs();
    let r = verify_server_signature_at(payload, hmac_secret, now);
    match r {
        Ok(v) => {
            let mut v = v;
            v.time = elapsed_tenths_ms(&start);
            Ok(v)
        },
        Err(e) => Err(e),
    }
}

/// The letter case of an ASCII algorithm name does not matter: two payloads
/// that differ only in the letter case of their (ASCII) algorithm name give
/// the same verification outcome.
pub proof fn lemma_algorithm_case_ignored(
    p: ServerSignaturePayload,
    q: ServerSignaturePayload,
    secret: Seq<u8>,
    now: u64,
)
    requires
        ascii_upper(p.algorithm@) == ascii_upper(q.algorithm@),
        p.signature@ == q.signature@,
        p.verification_data@ == q.verification_data@,
        p.verified == q.verified,
    ensures
        server_outcome_for(ascii_upper(p.algorithm@), p, secret, now) == server_outcome_for(
            ascii_upper(q.algorithm@),
            q,
            secret,
            now,
        ),
{
}

/// The expected signature hashes the verification data and computes the
/// HMAC with the same digest, the one the algorithm name gives: SHA-256,
/// SHA-384 or SHA-512. The signature is valid exactly when it is the hex of
/// that HMAC.
pub proof fn lemma_server_signature_digest(
    upper: Seq<char>,
    p: ServerSignaturePayload,
    secret: Seq<u8>,
    now: u64,
)
    ensures
        upper == "SHA-256"@ ==> (server_outcome_for(upper, p, secret, now) matches Ok(v)
            && v.invalid_signature == (p.signature@ != hex_encode(
            hmac_tag(
                HmacAlgorithm::Sha256,
                secret,
                sha_digest(HmacAlgorithm::Sha256, encode_utf8(p.verification_data@)),
            ),
        ))),
        upper == "SHA-384"@ ==> (server_outcome_for(upper, p, secret, now) matches Ok(v)
            && v.invalid_signature == (p.signature@ != hex_encode(
            hmac_tag(
                HmacAlgorithm::Sha384,
                secret,
                sha_digest(HmacAlgorithm::Sha384, encode_utf8(p.verification_data@)),
            ),
        ))),
        upper == "SHA-512"@ ==> (server_outcome_for(upper, p, secret, now) matches Ok(v)
            && v.invalid_signature == (p.signature@ != hex_encode(
            hmac_tag(
                HmacAlgorithm::Sha512,
                secret,
                sha_digest(HmacAlgorithm::Sha512, encode_utf8(p.verification_data@)),
            ),
        ))),
{
    reveal_strlit("SHA-256");
    reveal_strlit("SHA-384");
    reveal_strlit("SHA-512");
    assert("SHA-256"@[4] == '2' && "SHA-384"@[4] == '3' && "SHA-512"@[4] == '5');
    if upper == "SHA-384"@ {
        assert(upper != "SHA-256"@) by {
            assert(upper[4] != "SHA-256"@[4]);
        }
    }
    if upper == "SHA-512"@ {
        assert(upper != "SHA-256"@) by {
            assert(upper[4] != "SHA-256"@[4]);
        }
        assert(upper != "SHA-384"@) by {
            assert(upper[4] != "SHA-384"@[4]);
        }
    }
}

// ---------------------------------------------------------------------------
// Form-field hashes
// ---------------------------------------------------------------------------

/// The value of the last entry with key `k`, or the empty text.
pub open spec fn lookup(form: Seq<(Seq<char>, Seq<char>)>, k: Seq<char>) -> Seq<char>
    decreases form.len(),
{
    if form.len() == 0 {
        Seq::empty()
    } else if form.last().0 == k {
        form.last().1
    } else {
        lookup(form.drop_last(), k)
    }
}

/// Lines joined with `\n`.
pub open spec fn join_lines(v: Seq<Seq<char>>) -> Seq<char>
    decreases v.len(),
{
    if v.len() == 0 {
        Seq::empty()
    } else if v.len() == 1 {
        v[0]
    } else {
        join_lines(v.drop_last()) + seq!['\n'] + v.last()
    }
}

/// The values of the named fields, in the order named.
pub open spec fn field_values(form: Seq<(Seq<char>, Seq<char>)>, fields: Seq<Seq<char>>) -> Seq<
    Seq<char>,
> {
    Seq::new(fields.len(), |i: int| lookup(form, fields[i]))
}

/// The hex digest of the joined field values.
pub open spec fn fields_digest_hex(
    form: Seq<(Seq<char>, Seq<char>)>,
    fields: Seq<Seq<char>>,
    alg: HmacAlgorithm,
) -> Seq<char> {
    hex_encode(sha_digest(alg, encode_utf8(join_lines(field_values(form, fields)))))
}

fn lookup_exec(form: &Vec<(String, String)>, k: &str) -> (r: Vec<char>)
    ensures
        r@ == lookup(kv_view(form@), k@),
{
    let ghost f = kv_view(form@);
    let mut i: usize = form.len();
    while i > 0
        invariant
            i <= form.len(),
            f == kv_view(form@),
            lookup(f, k@) == lookup(f.take(i as int), k@),
        decreases i,
    {
        assert(f.take(i as int).drop_last() =~= f.take(i - 1));
        assert(f.take(i as int).last() == f[i - 1]);
        if str_equal(form[i - 1].0.as_str(), k) {
            return chars_of(form[i - 1].1.as_str());
        }
        i -= 1;
    }
    let r: Vec<char> = Vec::new();
    assert(r@ =~= Seq::<char>::empty());
    r
}

/// Verifies that a hash of selected form field values matches an expected
/// digest: the values of `fields` (a missing field counts as empty) are
/// joined with `"\n"`, hashed with `algorithm` (SHA-256 by default), and the
/// lowercase hex digest is compared with `fields_hash`. When a key occurs
/// more than once in `form_data`, its last value counts.
pub fn verify_fields_hash(
    form_data: &Vec<(String, String)>,
    fields: &[String],
    fields_hash: &str,
    algorithm: Option<&HmacAlgorithm>,
) -> (r: bool)
    ensures
        r == (fields_digest_hex(
            kv_view(form_data@),
            strs_view(fields@),
            match algorithm {
                Some(a) => *a,
                None => HmacAlgorithm::Sha256,
            },
        ) == fields_hash@),
{
    let algo = match algorithm {
        Some(a) => *a,
        None => HmacAlgorithm::Sha256,
    };
    let ghost fv = field_values(kv_view(form_data@), strs_view(fields@));
    let mut joined: Vec<char> = Vec::new();
    let mut i: usize = 0;
    assert(joined@ =~= join_lines(fv.take(0)));
    while i < fields.len()
        invariant
            i <= fields.len(),
            fv == field_values(kv_view(form_data@), strs_view(fields@)),
            joined@ == join_lines(fv.take(i as int)),
        decreases fields.len() - i,
    {
        assert(fv.take(i + 1).drop_last() =~= fv.take(i as int));
        let value = lookup_exec(form_data, fields[i].as_str());
        assert(fv.take(i + 1).last() == value@);
        if i > 0 {
            joined.push('\n');
        }
        let mut j: usize = 0;
        let ghost base = joined@;
        while j < value.len()
            invariant
                j <= value.len(),
                joined@ == base + value@.take(j as int),
            decreases value.len() - j,
        {
            joined.push(value[j]);
            j += 1;
            assert(joined@ =~= base + value@.take(j as int));
        }
        assert(value@.take(j as int) =~= value@);
        proof {
            if i == 0 {
                assert(fv.take(1) =~= seq![value@]);
                assert(joined@ =~= value@);
            } else {
                assert(joined@ =~= join_lines(fv.take(i as int)) + seq!['\n'] + value@);
            }
        }
        i += 1;
    }
    assert(fv.take(i as int) =~= fv);
    let joined_bytes = utf8_of_chars(&joined);
    let hash = sha_hash(&algo, joined_bytes.as_slice());
    let hex = bytes_to_hex(hash.as_slice());
    constant_time_equal_hex(hex.as_str(), fields_hash)
}

} // verus!
