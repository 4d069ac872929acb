//! Character-level building blocks: UTF-8 conversion between strings and
//! bytes, decimal numbers, hex digits, whitespace trimming and splitting.
use vstd::prelude::*;
use vstd::utf8::*;

verus! {

broadcast use vstd::seq_lib::group_seq_properties;

// ---------------------------------------------------------------------------
// Specifications
// ---------------------------------------------------------------------------

/// The ASCII digit character for `d` in `0..10`.
pub open spec fn digit_char(d: int) -> char {
    (48 + d) as char
}

/// The lowercase hex digit character for `d` in `0..16`.
pub open spec fn hex_digit_char(d: int) -> char {
    if d < 10 {
        (48 + d) as char
    } else {
        (87 + d) as char
    }
}

/// Decimal representation of a natural number, without sign or leading zeros.
pub open spec fn decimal(n: nat) -> Seq<char>
    decreases n,
{
    if n < 10 {
        seq![digit_char(n as int)]
    } else {
        decimal(n / 10) + seq![digit_char((n % 10) as int)]
    }
}

/// Whether `c` is an ASCII decimal digit.
pub open spec fn is_digit(c: char) -> bool {
    '0' <= c <= '9'
}

/// The numeric value of a run of ASCII digits.
pub open spec fn digits_value(s: Seq<char>) -> nat
    decreases s.len(),
{
    if s.len() == 0 {
        0
    } else {
        digits_value(s.drop_last()) * 10 + ((s.last() as int) - 48) as nat
    }
}

/// `s` without one leading `+`, if it has one.
pub open spec fn strip_plus(s: Seq<char>) -> Seq<char> {
    if s.len() > 0 && s[0] == '+' {
        s.drop_first()
    } else {
        s
    }
}

/// Whether every character of `d` is an ASCII digit.
pub open spec fn all_digits(d: Seq<char>) -> bool {
    forall|i: int| 0 <= i < d.len() ==> is_digit(#[trigger] d[i])
}

/// What `str::parse::<u64>` gives: an optional `+`, then one or more ASCII
/// digits whose value fits in a `u64`.
pub open spec fn parse_u64(s: Seq<char>) -> Option<u64> {
    let d = strip_plus(s);
    if d.len() > 0 && all_digits(d) && digits_value(d) <= u64::MAX {
        Some(digits_value(d) as u64)
    } else {
        None
    }
}

/// Lowercase hex encoding: two characters per byte, high nibble first.
pub open spec fn hex_encode(b: Seq<u8>) -> Seq<char> {
    Seq::new(
        2 * b.len(),
        |i: int|
            if i % 2 == 0 {
                hex_digit_char((b[i / 2] / 16) as int)
            } else {
                hex_digit_char((b[i / 2] % 16) as int)
            },
    )
}

/// Whether a byte is an ASCII hex digit of either case.
pub open spec fn is_hex_byte(c: u8) -> bool {
    (48 <= c <= 57) || (65 <= c <= 70) || (97 <= c <= 102)
}

/// The value of an ASCII hex digit byte.
pub open spec fn hex_byte_value(c: u8) -> int {
    if 48 <= c <= 57 {
        c - 48
    } else if 65 <= c <= 70 {
        c - 55
    } else {
        c - 87
    }
}

/// Hex decoding of a byte string: defined when its length is even and every
/// byte is a hex digit of either case.
pub open spec fn hex_decode(t: Seq<u8>) -> Option<Seq<u8>> {
    if t.len() % 2 == 0 && (forall|i: int| 0 <= i < t.len() ==> is_hex_byte(#[trigger] t[i])) {
        Some(
            Seq::new(
                t.len() / 2,
                |i: int| (hex_byte_value(t[2 * i]) * 16 + hex_byte_value(t[2 * i + 1])) as u8,
            ),
        )
    } else {
        None
    }
}

/// Whether `p` is a prefix of `s`.
pub open spec fn starts_with<A>(s: Seq<A>, p: Seq<A>) -> bool {
    p.len() <= s.len() && s.take(p.len() as int) == p
}

/// The characters of `char::is_whitespace`: the Unicode `White_Space` property.
pub open spec fn is_white_space(c: char) -> bool {
    let v = c as u32;
    (0x09 <= v <= 0x0D) || v == 0x20 || v == 0x85 || v == 0xA0 || v == 0x1680 || (0x2000 <= v
        <= 0x200A) || v == 0x2028 || v == 0x2029 || v == 0x202F || v == 0x205F || v == 0x3000
}

/// `s` without its leading white space.
pub open spec fn trim_start(s: Seq<char>) -> Seq<char>
    decreases s.len(),
{
    if s.len() > 0 && is_white_space(s[0]) {
        trim_start(s.drop_first())
    } else {
        s
    }
}

/// `s` without its trailing white space.
pub open spec fn trim_end(s: Seq<char>) -> Seq<char>
    decreases s.len(),
{
    if s.len() > 0 && is_white_space(s.last()) {
        trim_end(s.drop_last())
    } else {
        s
    }
}

/// What `str::trim` gives.
pub open spec fn trim(s: Seq<char>) -> Seq<char> {
    trim_end(trim_start(s))
}

/// The pieces of `s` between occurrences of `sep`, as `str::split` yields
/// them (always at least one piece, empty pieces included).
pub open spec fn split_on(s: Seq<char>, sep: char) -> Seq<Seq<char>>
    decreases s.len(),
{
    if s.len() == 0 {
        seq![Seq::<char>::empty()]
    } else {
        let rest = split_on(s.drop_first(), sep);
        if s[0] == sep {
            seq![Seq::<char>::empty()] + rest
        } else {
            rest.update(0, seq![s[0]] + rest[0])
        }
    }
}

/// `s` with every `from` replaced by `to`.
pub open spec fn replace_char(s: Seq<char>, from: char, to: char) -> Seq<char> {
    Seq::new(s.len(), |i: int| if s[i] == from { to } else { s[i] })
}

/// Strict lexicographic order on strings by code point, which is the order
/// of `String`'s `Ord` (UTF-8 preserves code point order).
pub open spec fn str_lt(a: Seq<char>, b: Seq<char>) -> bool
    decreases a.len(),
{
    if a.len() == 0 {
        b.len() > 0
    } else if b.len() == 0 {
        false
    } else if a[0] != b[0] {
        (a[0] as u32) < (b[0] as u32)
    } else {
        str_lt(a.drop_first(), b.drop_first())
    }
}

/// ASCII-only strings, whose UTF-8 encoding is one byte per character.
pub open spec fn all_ascii(s: Seq<char>) -> bool {
    forall|i: int| 0 <= i < s.len() ==> (#[trigger] s[i] as u32) < 128
}

// ---------------------------------------------------------------------------
// Lemmas
// ---------------------------------------------------------------------------

/// UTF-8 encoding distributes over appending one character.
pub proof fn lemma_encode_utf8_push(a: Seq<char>, c: char)
    ensures
        encode_utf8(a.push(c)) == encode_utf8(a) + encode_scalar(c as u32),
    decreases a.len(),
{
    if a.len() == 0 {
        assert(a.push(c).drop_first() =~= Seq::<char>::empty());
        assert(encode_utf8(Seq::<char>::empty()) =~= Seq::<u8>::empty());
        assert(encode_utf8(a) =~= Seq::<u8>::empty());
        assert(encode_scalar(c as u32) + Seq::<u8>::empty() =~= encode_scalar(c as u32));
    } else {
        lemma_encode_utf8_push(a.drop_first(), c);
        assert(a.push(c).drop_first() =~= a.drop_first().push(c));
        assert(a.push(c)[0] == a[0]);
        assert(encode_utf8(a.push(c)) =~= encode_scalar(a[0] as u32) + (encode_utf8(
            a.drop_first(),
        ) + encode_scalar(c as u32)));
    }
}

/// UTF-8 encoding distributes over concatenation.
pub proof fn lemma_encode_utf8_concat(a: Seq<char>, b: Seq<char>)
    ensures
        encode_utf8(a + b) == encode_utf8(a) + encode_utf8(b),
    decreases b.len(),
{
    if b.len() == 0 {
        assert(a + b =~= a);
        assert(encode_utf8(b) =~= Seq::<u8>::empty());
        assert(encode_utf8(a) + encode_utf8(b) =~= encode_utf8(a));
    } else {
        let b0 = b.drop_last();
        lemma_encode_utf8_concat(a, b0);
        lemma_encode_utf8_push(a + b0, b.last());
        lemma_encode_utf8_push(b0, b.last());
        assert((a + b0).push(b.last()) =~= a + b);
        assert(b0.push(b.last()) =~= b);
    }
}

/// For ASCII text the UTF-8 encoding is the character codes themselves.
pub proof fn lemma_encode_utf8_ascii(s: Seq<char>)
    requires
        all_ascii(s),
    ensures
        encode_utf8(s) == Seq::new(s.len(), |i: int| (s[i] as u32) as u8),
    decreases s.len(),
{
    if s.len() == 0 {
        assert(encode_utf8(s) =~= Seq::<u8>::empty());
    } else {
        let t = s.drop_last();
        assert(all_ascii(t)) by {
            assert forall|i: int| 0 <= i < t.len() implies (#[trigger] t[i] as u32) < 128 by {
                assert(t[i] == s[i]);
            }
        }
        lemma_encode_utf8_ascii(t);
        assert(t.push(s.last()) =~= s);
        lemma_encode_utf8_push(t, s.last());
        let v = s.last() as u32;
        assert(v < 128) by {
            assert(s[s.len() - 1] == s.last());
        }
        assert(encode_scalar(v) =~= seq![(v & 0x7F) as u8]);
        assert((v & 0x7F) == v) by (bit_vector)
            requires
                v < 128,
        ;
        assert(encode_utf8(s) =~= Seq::new(s.len(), |i: int| (s[i] as u32) as u8));
    }
}

/// Two strings with the same UTF-8 encoding are the same string.
pub proof fn lemma_encode_utf8_injective(a: Seq<char>, b: Seq<char>)
    requires
        encode_utf8(a) == encode_utf8(b),
    ensures
        a == b,
{
    encode_utf8_decode_utf8(a);
    encode_utf8_decode_utf8(b);
}

/// A hex encoding is ASCII.
pub proof fn lemma_hex_encode_ascii(b: Seq<u8>)
    ensures
        all_ascii(hex_encode(b)),
{
    let h = hex_encode(b);
    assert forall|i: int| 0 <= i < h.len() implies (#[trigger] h[i] as u32) < 128 by {
        let n = if i % 2 == 0 { (b[i / 2] / 16) as int } else { (b[i / 2] % 16) as int };
        assert(0 <= n < 16);
    }
}

/// The code of a hex digit character.
pub proof fn lemma_hex_digit_code(d: int)
    requires
        0 <= d < 16,
    ensures
        (hex_digit_char(d) as u32) == if d < 10 { 48 + d } else { 87 + d },
        (hex_digit_char(d) as u32) < 128,
{
}

/// Hex decoding undoes hex encoding.
pub proof fn lemma_hex_round_trip(b: Seq<u8>)
    ensures
        hex_decode(encode_utf8(hex_encode(b))) == Some(b),
{
    let h = hex_encode(b);
    lemma_hex_encode_ascii(b);
    lemma_encode_utf8_ascii(h);
    let t = encode_utf8(h);
    assert forall|i: int| 0 <= i < t.len() implies is_hex_byte(#[trigger] t[i]) && hex_byte_value(
        t[i],
    ) == (if i % 2 == 0 {
        (b[i / 2] / 16) as int
    } else {
        (b[i / 2] % 16) as int
    }) by {
        let n = if i % 2 == 0 { (b[i / 2] / 16) as int } else { (b[i / 2] % 16) as int };
        lemma_hex_digit_code(n);
        assert(t[i] == (h[i] as u32) as u8);
    }
    let d = hex_decode(t)->0;
    assert(d.len() == b.len());
    assert forall|i: int| 0 <= i < b.len() implies d[i] == b[i] by {
        assert(hex_byte_value(t[2 * i]) == (b[i] / 16) as int);
        assert(hex_byte_value(t[2 * i + 1]) == (b[i] % 16) as int);
    }
    assert(d =~= b);
}

/// Whether every character is a lowercase hex digit.
pub open spec fn is_lower_hex(t: Seq<char>) -> bool {
    forall|i: int| 0 <= i < t.len() ==> ('0' <= #[trigger] t[i] <= '9' || 'a' <= t[i] <= 'f')
}

/// Hex encodings are lowercase hex.
pub proof fn lemma_hex_encode_lower(b: Seq<u8>)
    ensures
        is_lower_hex(hex_encode(b)),
{
    let h = hex_encode(b);
    assert forall|i: int| 0 <= i < h.len() implies ('0' <= #[trigger] h[i] <= '9' || 'a' <= h[i]
        <= 'f') by {
        let n = if i % 2 == 0 { (b[i / 2] / 16) as int } else { (b[i / 2] % 16) as int };
        lemma_hex_digit_code(n);
    }
}

proof fn lemma_lower_hex_digit(c: char)
    requires
        '0' <= c <= '9' || 'a' <= c <= 'f',
    ensures
        is_hex_byte((c as u32) as u8),
        0 <= hex_byte_value((c as u32) as u8) < 16,
        hex_digit_char(hex_byte_value((c as u32) as u8)) == c,
{
    vstd::utf8::char_u32_cast(c, c as u32);
}

/// Encoding the decoding of lowercase hex text of even length gives the
/// text back.
pub proof fn lemma_lower_hex_decode_encode(t: Seq<char>)
    requires
        is_lower_hex(t),
        t.len() % 2 == 0,
    ensures
        hex_decode(encode_utf8(t)) is Some,
        hex_encode(hex_decode(encode_utf8(t))->0) == t,
        encode_utf8(t).len() == t.len(),
{
    assert(all_ascii(t)) by {
        assert forall|i: int| 0 <= i < t.len() implies (#[trigger] t[i] as u32) < 128 by {
            assert('0' <= t[i] <= '9' || 'a' <= t[i] <= 'f');
        }
    }
    lemma_encode_utf8_ascii(t);
    let u = encode_utf8(t);
    assert forall|i: int| 0 <= i < u.len() implies is_hex_byte(#[trigger] u[i]) && 0
        <= hex_byte_value(u[i]) < 16 && hex_digit_char(hex_byte_value(u[i])) == t[i] by {
        assert(u[i] == (t[i] as u32) as u8);
        assert('0' <= t[i] <= '9' || 'a' <= t[i] <= 'f');
        lemma_lower_hex_digit(t[i]);
    }
    let b = hex_decode(u)->0;
    let h = hex_encode(b);
    assert forall|i: int| 0 <= i < t.len() implies h[i] == t[i] by {
        let j = i / 2;
        let hi = hex_byte_value(u[2 * j]);
        let lo = hex_byte_value(u[2 * j + 1]);
        assert(b[j] == (hi * 16 + lo) as u8);
        assert(0 <= hi < 16 && 0 <= lo < 16);
        assert((hi * 16 + lo) / 16 == hi && (hi * 16 + lo) % 16 == lo) by (nonlinear_arith)
            requires
                0 <= hi < 16,
                0 <= lo < 16,
        ;
        if i % 2 == 0 {
            assert(i == 2 * j);
        } else {
            assert(i == 2 * j + 1);
        }
    }
    assert(h =~= t);
}

/// The hex of a prefix is a prefix of the hex.
pub proof fn lemma_hex_encode_prefix(k: Seq<u8>, b: Seq<u8>)
    requires
        starts_with(k, b),
    ensures
        starts_with(hex_encode(k), hex_encode(b)),
{
    let hk = hex_encode(k);
    let hb = hex_encode(b);
    assert forall|i: int| 0 <= i < hb.len() implies hk.take(hb.len() as int)[i] == hb[i] by {
        assert(k.take(b.len() as int)[i / 2] == b[i / 2]);
    }
    assert(hk.take(hb.len() as int) =~= hb);
}

/// The hex of the first bytes of a key is the first characters of its hex.
pub proof fn lemma_hex_encode_take(k: Seq<u8>, n: int)
    requires
        0 <= n <= k.len(),
    ensures
        starts_with(k, k.take(n)),
        hex_encode(k.take(n)).len() == 2 * n,
{
    assert(k.take(n).len() == n);
}

/// The decimal digits of any number are ASCII digits.
pub proof fn lemma_decimal_digits(n: nat)
    ensures
        decimal(n).len() > 0,
        forall|i: int| 0 <= i < decimal(n).len() ==> is_digit(#[trigger] decimal(n)[i]),
    decreases n,
{
    if n >= 10 {
        lemma_decimal_digits(n / 10);
    }
}

// ---------------------------------------------------------------------------
// Executable functions
// ---------------------------------------------------------------------------

/// The characters of a string slice.
pub fn chars_of(s: &str) -> (v: Vec<char>)
    ensures
        v@ == s@,
{
    let mut v: Vec<char> = Vec::new();
    for c in it: s.chars()
        invariant
            v@ == it.seq().take(it.index() as int),
    {
        v.push(c);
    }
    v
}

/// Appends the UTF-8 encoding of `c`.
pub fn push_utf8(out: &mut Vec<u8>, c: char)
    ensures
        final(out)@ == old(out)@ + encode_scalar(c as u32),
{
    let v: u32 = c as u32;
    proof {
        char_is_scalar(c);
    }
    if v <= 0x7F {
        out.push((v & 0x7F) as u8);
        assert(encode_scalar(v) =~= seq![(v & 0x7F) as u8]);
    } else if v <= 0x7FF {
        out.push(0xC0 | ((v >> 6) & 0x1F) as u8);
        out.push(0x80 | (v & 0x3F) as u8);
        assert(encode_scalar(v) =~= seq![
            0xC0 | ((v >> 6) & 0x1F) as u8,
            0x80 | (v & 0x3F) as u8,
        ]);
    } else if v <= 0xFFFF {
        out.push(0xE0 | ((v >> 12) & 0x0F) as u8);
        out.push(0x80 | ((v >> 6) & 0x3F) as u8);
        out.push(0x80 | (v & 0x3F) as u8);
        assert(encode_scalar(v) =~= seq![
            0xE0 | ((v >> 12) & 0x0F) as u8,
            0x80 | ((v >> 6) & 0x3F) as u8,
            0x80 | (v & 0x3F) as u8,
        ]);
    } else {
        out.push(0xF0 | ((v >> 18) & 0x7) as u8);
        out.push(0x80 | ((v >> 12) & 0x3F) as u8);
        out.push(0x80 | ((v >> 6) & 0x3F) as u8);
        out.push(0x80 | (v & 0x3F) as u8);
        assert(encode_scalar(v) =~= seq![
            0xF0 | ((v >> 18) & 0x7) as u8,
            0x80 | ((v >> 12) & 0x3F) as u8,
            0x80 | ((v >> 6) & 0x3F) as u8,
            0x80 | (v & 0x3F) as u8,
        ]);
    }
}

/// The UTF-8 encoding of a sequence of characters.
pub fn utf8_of_chars(v: &Vec<char>) -> (b: Vec<u8>)
    ensures
        b@ == encode_utf8(v@),
{
    let mut b: Vec<u8> = Vec::new();
    let mut i: usize = 0;
    while i < v.len()
        invariant
            i <= v.len(),
            b@ == encode_utf8(v@.take(i as int)),
        decreases v.len() - i,
    {
        proof {
            lemma_encode_utf8_push(v@.take(i as int), v@[i as int]);
            assert(v@.take(i as int).push(v@[i as int]) =~= v@.take(i + 1));
        }
        push_utf8(&mut b, v[i]);
        i += 1;
    }
    assert(v@.take(i as int) =~= v@);
    b
}

/// Decodes UTF-8 bytes into a `String` (std's `String::from_utf8`), giving
/// `None` for bytes that are not valid UTF-8.
#[verifier::external_body]
fn string_from_utf8(bytes: Vec<u8>) -> (r: Option<String>)
    ensures
        r is Some <==> valid_utf8(bytes@),
        r matches Some(s) ==> s@ == decode_utf8(bytes@),
{
    String::from_utf8(bytes).ok()
}

/// Name for what `String::from_utf8_lossy` makes of a byte string that is
/// not valid UTF-8.
pub uninterp spec fn utf8_lossy(b: Seq<u8>) -> Seq<char>;

/// What `String::from_utf8_lossy` gives: the plain decoding of valid UTF-8,
/// and otherwise the text named by [`utf8_lossy`].
pub open spec fn lossy_decode(b: Seq<u8>) -> Seq<char> {
    if valid_utf8(b) {
        decode_utf8(b)
    } else {
        utf8_lossy(b)
    }
}

/// Decodes bytes as UTF-8, replacing invalid sequences with U+FFFD (std's
/// `String::from_utf8_lossy`). On valid UTF-8 the documentation promises the
/// plain decoding; what replaces an invalid sequence is left to the name.
#[verifier::external_body]
pub(crate) fn string_from_utf8_lossy(bytes: &[u8]) -> (r: String)
    ensures
        r@ == lossy_decode(bytes@),
        !valid_utf8(bytes@) ==> r@ == utf8_lossy(bytes@),
{
    String::from_utf8_lossy(bytes).into_owned()
}

/// Name for what `str::to_uppercase` gives: Unicode upper-casing, which may
/// change the length of the text.
pub uninterp spec fn upper_case(s: Seq<char>) -> Seq<char>;

/// ASCII upper-casing: `a`–`z` become `A`–`Z`, every other character stays.
pub open spec fn ascii_upper(s: Seq<char>) -> Seq<char> {
    Seq::new(
        s.len(),
        |i: int|
            if 'a' <= s[i] <= 'z' {
                ((s[i] as u32) - 32) as char
            } else {
                s[i]
            },
    )
}

/// `str::to_uppercase`: Unicode upper-casing, left to the name; on ASCII
/// text it maps `a`–`z` to `A`–`Z` and keeps every other character, as the
/// Unicode case mapping of those characters does.
#[verifier::external_body]
pub(crate) fn to_uppercase(s: &str) -> (r: String)
    ensures
        r@ == upper_case(s@),
        all_ascii(s@) ==> r@ == ascii_upper(s@),
{
    s.to_uppercase()
}

/// The `String` holding exactly the given characters.
pub fn string_from_chars(v: &Vec<char>) -> (s: String)
    ensures
        s@ == v@,
{
    let bytes = utf8_of_chars(v);
    proof {
        encode_utf8_valid_utf8(v@);
        encode_utf8_decode_utf8(v@);
    }
    match string_from_utf8(bytes) {
        Some(s) => s,
        None => String::new(),
    }
}

/// The ASCII digit for `d`.
pub fn digit(d: u8) -> (c: char)
    requires
        d < 10,
    ensures
        c == digit_char(d as int),
{
    (48u8 + d) as char
}

/// The lowercase hex digit for `d`.
pub fn hex_digit(d: u8) -> (c: char)
    requires
        d < 16,
    ensures
        c == hex_digit_char(d as int),
{
    if d < 10 {
        (48u8 + d) as char
    } else {
        (87u8 + d) as char
    }
}

/// Appends the decimal digits of `n`.
pub fn push_decimal(out: &mut Vec<char>, n: u64)
    ensures
        final(out)@ == old(out)@ + decimal(n as nat),
    decreases n,
{
    if n >= 10 {
        push_decimal(out, n / 10);
    }
    let d = digit((n % 10) as u8);
    out.push(d);
    proof {
        if n >= 10 {
            assert(old(out)@ + decimal(n as nat) =~= old(out)@ + decimal((n / 10) as nat) + seq![
                d,
            ]);
        } else {
            assert(decimal(n as nat) =~= seq![d]);
        }
    }
}

/// The decimal representation of `n` as a `String`.
pub fn decimal_string(n: u64) -> (s: String)
    ensures
        s@ == decimal(n as nat),
{
    let mut v: Vec<char> = Vec::new();
    push_decimal(&mut v, n);
    assert(v@ =~= decimal(n as nat));
    string_from_chars(&v)
}

proof fn lemma_digits_value_mono(d: Seq<char>, i: int)
    requires
        0 <= i <= d.len(),
    ensures
        digits_value(d.take(i)) <= digits_value(d),
    decreases d.len() - i,
{
    if i < d.len() {
        lemma_digits_value_mono(d, i + 1);
        assert(d.take(i + 1).drop_last() =~= d.take(i));
    } else {
        assert(d.take(i) =~= d);
    }
}

/// Parses an unsigned decimal integer as `str::parse::<u64>` does.
pub fn parse_u64_chars(s: &Vec<char>) -> (r: Option<u64>)
    ensures
        r == parse_u64(s@),
{
    let start: usize = if s.len() > 0 && s[0] == '+' {
        1
    } else {
        0
    };
    let ghost d = strip_plus(s@);
    assert(d =~= s@.subrange(start as int, s@.len() as int));
    if start >= s.len() {
        return None;
    }
    let mut acc: u64 = 0;
    let mut i: usize = start;
    while i < s.len()
        invariant
            start <= i <= s.len(),
            d == strip_plus(s@),
            d =~= s@.subrange(start as int, s@.len() as int),
            acc as nat == digits_value(d.take(i - start)),
            forall|j: int| 0 <= j < i - start ==> is_digit(#[trigger] d[j]),
        decreases s.len() - i,
    {
        let c = s[i];
        let ghost k = (i - start) as int;
        assert(d[k] == s@[i as int]);
        if !('0' <= c && c <= '9') {
            assert(!all_digits(d));
            return None;
        }
        let dv: u64 = (c as u32 - 48) as u64;
        proof {
            assert(d.take(k + 1).drop_last() =~= d.take(k));
            assert(d.take(k + 1).last() == c);
            assert(digits_value(d.take(k + 1)) == acc * 10 + dv);
            lemma_digits_value_mono(d, k + 1);
        }
        let m = acc.checked_mul(10);
        if m.is_none() {
            assert(digits_value(d) > u64::MAX);
            return None;
        }
        let a = m.unwrap().checked_add(dv);
        if a.is_none() {
            assert(digits_value(d) > u64::MAX);
            return None;
        }
        acc = a.unwrap();
        i += 1;
    }
    assert(d.take(i - start) =~= d);
    assert(all_digits(d));
    Some(acc)
}

/// Whether `c` is white space in the sense of `char::is_whitespace`.
pub fn is_whitespace(c: char) -> (b: bool)
    ensures
        b == is_white_space(c),
{
    let v: u32 = c as u32;
    (0x09 <= v && v <= 0x0D) || v == 0x20 || v == 0x85 || v == 0xA0 || v == 0x1680 || (0x2000
        <= v && v <= 0x200A) || v == 0x2028 || v == 0x2029 || v == 0x202F || v == 0x205F || v
        == 0x3000
}

proof fn lemma_trim_start_skip(s: Seq<char>, i: int)
    requires
        0 <= i <= s.len(),
        forall|j: int| 0 <= j < i ==> is_white_space(#[trigger] s[j]),
    ensures
        trim_start(s) == trim_start(s.subrange(i, s.len() as int)),
    decreases i,
{
    if i > 0 {
        assert(s.drop_first().subrange(i - 1, s.drop_first().len() as int) =~= s.subrange(
            i,
            s.len() as int,
        ));
        assert forall|j: int| 0 <= j < i - 1 implies is_white_space(
            #[trigger] s.drop_first()[j],
        ) by {
            assert(s.drop_first()[j] == s[j + 1]);
        }
        lemma_trim_start_skip(s.drop_first(), i - 1);
    } else {
        assert(s.subrange(0, s.len() as int) =~= s);
    }
}

proof fn lemma_trim_end_skip(s: Seq<char>, k: int)
    requires
        0 <= k <= s.len(),
        forall|j: int| k <= j < s.len() ==> is_white_space(#[trigger] s[j]),
    ensures
        trim_end(s) == trim_end(s.subrange(0, k)),
    decreases s.len() - k,
{
    if k < s.len() {
        assert(s.drop_last().subrange(0, k) =~= s.subrange(0, k));
        assert(s.last() == s[s.len() - 1]);
        assert forall|j: int| k <= j < s.drop_last().len() implies is_white_space(
            #[trigger] s.drop_last()[j],
        ) by {
            assert(s.drop_last()[j] == s[j]);
        }
        lemma_trim_end_skip(s.drop_last(), k);
    } else {
        assert(s.subrange(0, k) =~= s);
    }
}

/// The characters of `s` without leading and trailing white space.
pub fn trim_chars(s: &Vec<char>) -> (r: Vec<char>)
    ensures
        r@ == trim(s@),
{
    let mut i: usize = 0;
    while i < s.len() && is_whitespace(s[i])
        invariant
            i <= s.len(),
            forall|j: int| 0 <= j < i ==> is_white_space(#[trigger] s@[j]),
        decreases s.len() - i,
    {
        i += 1;
    }
    proof {
        lemma_trim_start_skip(s@, i as int);
    }
    let ghost t = s@.subrange(i as int, s@.len() as int);
    assert(t.len() == 0 || !is_white_space(t[0]));
    assert(trim_start(t) == t);
    let mut k: usize = s.len();
    while k > i && is_whitespace(s[k - 1])
        invariant
            i <= k <= s.len(),
            forall|j: int| k <= j < s.len() ==> is_white_space(#[trigger] s@[j]),
        decreases k,
    {
        k -= 1;
    }
    proof {
        let kk = (k - i) as int;
        assert forall|j: int| kk <= j < t.len() implies is_white_space(#[trigger] t[j]) by {
            assert(t[j] == s@[j + i]);
        }
        lemma_trim_end_skip(t, kk);
        let u = t.subrange(0, kk);
        assert(u =~= s@.subrange(i as int, k as int));
        if u.len() > 0 {
            assert(u.last() == s@[k - 1]);
        }
    }
    let mut r: Vec<char> = Vec::new();
    let mut j: usize = i;
    while j < k
        invariant
            i <= j <= k <= s.len(),
            r@ =~= s@.subrange(i as int, j as int),
        decreases k - j,
    {
        r.push(s[j]);
        j += 1;
    }
    r
}

/// Whether `p` is a prefix of `s`.
pub fn chars_start_with(s: &Vec<char>, p: &Vec<char>) -> (b: bool)
    ensures
        b == starts_with(s@, p@),
{
    if p.len() > s.len() {
        return false;
    }
    let mut i: usize = 0;
    while i < p.len()
        invariant
            p.len() <= s.len(),
            i <= p.len(),
            forall|j: int| 0 <= j < i ==> s@[j] == p@[j],
        decreases p.len() - i,
    {
        if s[i] != p[i] {
            assert(s@.take(p@.len() as int)[i as int] != p@[i as int]);
            return false;
        }
        i += 1;
    }
    assert(s@.take(p@.len() as int) =~= p@);
    true
}

/// Whether two character sequences are equal.
pub fn chars_equal(a: &Vec<char>, b: &Vec<char>) -> (r: bool)
    ensures
        r == (a@ == b@),
{
    if a.len() != b.len() {
        return false;
    }
    let mut i: usize = 0;
    while i < a.len()
        invariant
            a.len() == b.len(),
            i <= a.len(),
            forall|j: int| 0 <= j < i ==> a@[j] == b@[j],
        decreases a.len() - i,
    {
        if a[i] != b[i] {
            return false;
        }
        i += 1;
    }
    assert(a@ =~= b@);
    true
}

/// Whether two strings are equal.
pub fn str_equal(a: &str, b: &str) -> (r: bool)
    ensures
        r == (a@ == b@),
{
    let ca = chars_of(a);
    let cb = chars_of(b);
    chars_equal(&ca, &cb)
}

/// Whether `a` comes strictly before `b` in code point order.
pub fn chars_less(a: &Vec<char>, b: &Vec<char>) -> (r: bool)
    ensures
        r == str_lt(a@, b@),
{
    let mut i: usize = 0;
    while i < a.len() && i < b.len()
        invariant
            i <= a.len(),
            i <= b.len(),
            forall|j: int| 0 <= j < i ==> a@[j] == b@[j],
            str_lt(a@, b@) == str_lt(a@.subrange(i as int, a@.len() as int), b@.subrange(
                i as int,
                b@.len() as int,
            )),
        decreases a.len() - i,
    {
        if a[i] != b[i] {
            return (a[i] as u32) < (b[i] as u32);
        }
        let ghost sa = a@.subrange(i as int, a@.len() as int);
        let ghost sb = b@.subrange(i as int, b@.len() as int);
        assert(sa.drop_first() =~= a@.subrange(i + 1, a@.len() as int));
        assert(sb.drop_first() =~= b@.subrange(i + 1, b@.len() as int));
        i += 1;
    }
    i < b.len()
}

/// `split_on` always yields at least one piece.
pub proof fn lemma_split_on_nonempty(s: Seq<char>, sep: char)
    ensures
        split_on(s, sep).len() > 0,
    decreases s.len(),
{
    if s.len() > 0 {
        lemma_split_on_nonempty(s.drop_first(), sep);
    }
}

/// The views of a list of character vectors.
pub open spec fn views_of(v: Seq<Vec<char>>) -> Seq<Seq<char>> {
    v.map_values(|p: Vec<char>| p@)
}

/// Splits characters on `sep` as `str::split` does.
pub fn split_chars(s: &Vec<char>, sep: char) -> (r: Vec<Vec<char>>)
    ensures
        views_of(r@) == split_on(s@, sep),
{
    let mut pieces: Vec<Vec<char>> = Vec::new();
    let mut cur: Vec<char> = Vec::new();
    let mut i: usize = 0;
    proof {
        lemma_split_on_nonempty(s@, sep);
        assert(s@.subrange(0, s@.len() as int) =~= s@);
        assert(views_of(pieces@) =~= Seq::<Seq<char>>::empty());
        assert(split_on(s@, sep).update(0, cur@ + split_on(s@, sep)[0]) =~= split_on(s@, sep));
    }
    while i < s.len()
        invariant
            i <= s.len(),
            split_on(s@.subrange(i as int, s@.len() as int), sep).len() > 0,
            split_on(s@, sep) == views_of(pieces@) + split_on(
                s@.subrange(i as int, s@.len() as int),
                sep,
            ).update(0, cur@ + split_on(s@.subrange(i as int, s@.len() as int), sep)[0]),
        decreases s.len() - i,
    {
        let ghost t = s@.subrange(i as int, s@.len() as int);
        let ghost t1 = s@.subrange(i + 1, s@.len() as int);
        assert(t.drop_first() =~= t1);
        assert(t[0] == s@[i as int]);
        let ghost rest = split_on(t1, sep);
        proof {
            lemma_split_on_nonempty(t1, sep);
            lemma_split_on_nonempty(t, sep);
        }
        let c = s[i];
        let ghost old_pv = views_of(pieces@);
        let ghost old_cur = cur@;
        if c == sep {
            let done = cur;
            pieces.push(done);
            cur = Vec::new();
            assert(views_of(pieces@) =~= old_pv.push(old_cur));
            assert(split_on(t, sep) =~= seq![Seq::<char>::empty()] + rest);
            assert(old_pv + split_on(t, sep).update(0, old_cur + split_on(t, sep)[0])
                =~= views_of(pieces@) + rest.update(0, cur@ + rest[0]));
        } else {
            cur.push(c);
            assert(split_on(t, sep) == rest.update(0, seq![c] + rest[0]));
            assert(split_on(t, sep)[0] == seq![c] + rest[0]);
            assert(cur@ + rest[0] =~= old_cur + (seq![c] + rest[0]));
            assert(views_of(pieces@) == old_pv);
            assert(split_on(t, sep).update(0, old_cur + split_on(t, sep)[0]) =~= rest.update(
                0,
                cur@ + rest[0],
            ));
            assert(old_pv + split_on(t, sep).update(0, old_cur + split_on(t, sep)[0])
                =~= views_of(pieces@) + rest.update(0, cur@ + rest[0]));
        }
        i += 1;
    }
    let ghost pv = views_of(pieces@);
    assert(s@.subrange(i as int, s@.len() as int) =~= Seq::<char>::empty());
    let ghost c = cur@;
    pieces.push(cur);
    assert(views_of(pieces@) =~= pv.push(c));
    assert(split_on(Seq::<char>::empty(), sep).update(0, c + Seq::<char>::empty()) =~= seq![c]);
    pieces
}

} // verus!
