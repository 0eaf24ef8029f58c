//! Byte-string arithmetic and the transport encodings (hex, base64).
//!
//! Every scalar and group element crosses the wire as bytes; this module
//! gives those byte strings their integer meaning and models the textual
//! encodings exactly, so that contracts elsewhere can speak of values.

use base64::Engine;
use vstd::prelude::*;

verus! {

use vstd::arithmetic::mul::lemma_mul_is_associative;
use vstd::arithmetic::mul::lemma_mul_is_commutative;
use vstd::arithmetic::power::pow;

/// Little-endian value of a byte string: byte 0 is the least significant
/// base-256 digit.
pub open spec fn le_val(s: Seq<u8>) -> int
    decreases s.len(),
{
    if s.len() == 0 {
        0
    } else {
        s[0] + 256 * le_val(s.skip(1))
    }
}

/// Big-endian value of a byte string: the last byte is the least
/// significant base-256 digit.
pub open spec fn be_val(s: Seq<u8>) -> int
    decreases s.len(),
{
    if s.len() == 0 {
        0
    } else {
        256 * be_val(s.drop_last()) + s.last()
    }
}

/// Value of a digit string in an arbitrary base, least significant digit
/// first.
pub open spec fn digits_val(s: Seq<int>, base: int) -> int
    decreases s.len(),
{
    if s.len() == 0 {
        0
    } else {
        s[0] + base * digits_val(s.skip(1), base)
    }
}

pub proof fn lemma_le_val_snoc(s: Seq<u8>, b: u8)
    ensures
        le_val(s.push(b)) == le_val(s) + b * pow(256, s.len() as nat),
    decreases s.len(),
{
    if s.len() == 0 {
        assert(s.push(b).skip(1) =~= Seq::<u8>::empty());
        assert(s.push(b)[0] == b);
        assert(le_val(s.push(b)) == b + 256 * le_val(Seq::<u8>::empty()));
        assert(le_val(s) == 0);
        assert(pow(256, 0) == 1) by {
            vstd::arithmetic::power::lemma_pow0(256);
        }
    } else {
        assert(s.push(b).skip(1) =~= s.skip(1).push(b));
        assert(s.push(b)[0] == s[0]);
        assert(le_val(s.push(b)) == s[0] + 256 * le_val(s.skip(1).push(b)));
        lemma_le_val_snoc(s.skip(1), b);
        let p = pow(256, (s.len() - 1) as nat);
        assert(256 * (b * p) == b * (256 * p)) by {
            lemma_mul_is_associative(256, b as int, p);
            lemma_mul_is_associative(b as int, 256, p);
        }
        assert(pow(256, s.len() as nat) == 256 * p) by {
            vstd::arithmetic::power::lemma_pow1(256);
            vstd::arithmetic::power::lemma_pow_adds(256, 1, (s.len() - 1) as nat);
        }
    }
}

pub proof fn lemma_digits_val_snoc(s: Seq<int>, base: int, d: int)
    ensures
        digits_val(s.push(d), base) == digits_val(s, base) + d * pow(base, s.len() as nat),
    decreases s.len(),
{
    if s.len() == 0 {
        assert(s.push(d).skip(1) =~= Seq::<int>::empty());
        assert(s.push(d)[0] == d);
        assert(digits_val(s.push(d), base) == d + base * digits_val(Seq::<int>::empty(), base));
        assert(digits_val(s, base) == 0);
        assert(pow(base, 0) == 1) by {
            vstd::arithmetic::power::lemma_pow0(base);
        }
        assert(d * 1 == d);
    } else {
        assert(s.push(d).skip(1) =~= s.skip(1).push(d));
        assert(s.push(d)[0] == s[0]);
        assert(digits_val(s.push(d), base) == s[0] + base * digits_val(s.skip(1).push(d), base));
        lemma_digits_val_snoc(s.skip(1), base, d);
        let p = pow(base, (s.len() - 1) as nat);
        assert(base * (digits_val(s.skip(1), base) + d * p) == base * digits_val(s.skip(1), base)
            + base * (d * p)) by {
            vstd::arithmetic::mul::lemma_mul_is_distributive_add(
                base,
                digits_val(s.skip(1), base),
                d * p,
            );
        }
        assert(base * (d * p) == d * (base * p)) by {
            lemma_mul_is_associative(base, d, p);
            lemma_mul_is_commutative(base, d);
            lemma_mul_is_associative(d, base, p);
        }
        assert(pow(base, s.len() as nat) == base * p) by {
            vstd::arithmetic::power::lemma_pow1(base);
            vstd::arithmetic::power::lemma_pow_adds(base, 1, (s.len() - 1) as nat);
        }
    }
}

/// A byte string read backwards swaps the little- and big-endian readings.
pub proof fn lemma_be_val_of_reversed(s: Seq<u8>, t: Seq<u8>)
    requires
        t.len() == s.len(),
        forall|i: int| 0 <= i < s.len() ==> t[i] == s[s.len() - 1 - i],
    ensures
        le_val(t) == be_val(s),
    decreases s.len(),
{
    if s.len() > 0 {
        let s2 = s.drop_last();
        let t2 = t.skip(1);
        assert(forall|i: int| 0 <= i < s2.len() ==> t2[i] == s2[s2.len() - 1 - i]);
        lemma_be_val_of_reversed(s2, t2);
        assert(t[0] == s.last());
    }
}

pub proof fn lemma_le_val_bound(s: Seq<u8>)
    ensures
        0 <= le_val(s) < pow(256, s.len() as nat),
    decreases s.len(),
{
    if s.len() == 0 {
        vstd::arithmetic::power::lemma_pow0(256);
    } else {
        lemma_le_val_bound(s.skip(1));
        assert(pow(256, s.len() as nat) == 256 * pow(256, (s.len() - 1) as nat)) by {
            vstd::arithmetic::power::lemma_pow1(256);
            vstd::arithmetic::power::lemma_pow_adds(256, 1, (s.len() - 1) as nat);
        }
    }
}

pub proof fn lemma_le_val_zero(s: Seq<u8>)
    ensures
        (le_val(s) == 0) <==> (forall|i: int| 0 <= i < s.len() ==> s[i] == 0),
    decreases s.len(),
{
    if s.len() > 0 {
        lemma_le_val_zero(s.skip(1));
        lemma_le_val_bound(s.skip(1));
        if s[0] == 0 && le_val(s.skip(1)) == 0 {
            assert(forall|i: int| 0 <= i < s.len() ==> s[i] == 0) by {
                assert(forall|i: int| 1 <= i < s.len() ==> s[i] == s.skip(1)[i - 1]);
            }
        }
        if forall|i: int| 0 <= i < s.len() ==> s[i] == 0 {
            assert(forall|i: int| 0 <= i < s.skip(1).len() ==> s.skip(1)[i] == s[i + 1]);
        }
    }
}

// ------------------------------------------------------------------
// Hexadecimal encoding.
// ------------------------------------------------------------------

pub open spec fn hex_digit_chars() -> Seq<char> {
    seq!['0', '1', '2', '3', '4', '5', '6', '7', '8', '9', 'a', 'b', 'c', 'd', 'e', 'f']
}

/// Lowercase hex encoding, two characters per byte, as `hex::encode` writes it.
pub open spec fn hex_of(s: Seq<u8>) -> Seq<char>
    decreases s.len(),
{
    if s.len() == 0 {
        Seq::<char>::empty()
    } else {
        seq![
            hex_digit_chars()[s[0] as int / 16],
            hex_digit_chars()[s[0] as int % 16],
        ] + hex_of(s.skip(1))
    }
}

pub open spec fn is_hex_digit(c: char) -> bool {
    (48 <= c as int && c as int <= 57) || (97 <= c as int && c as int <= 102) || (65 <= c as int
        && c as int <= 70)
}

pub open spec fn hex_digit_val(c: char) -> int {
    if 48 <= c as int && c as int <= 57 {
        c as int - 48
    } else if 97 <= c as int && c as int <= 102 {
        c as int - 87
    } else if 65 <= c as int && c as int <= 70 {
        c as int - 55
    } else {
        0
    }
}

/// A hex encoding is two characters per byte.
pub proof fn lemma_hex_of_len(s: Seq<u8>)
    ensures
        hex_of(s).len() == 2 * s.len(),
    decreases s.len(),
{
    if s.len() > 0 {
        lemma_hex_of_len(s.skip(1));
    }
}

/// A character string that `hex::decode` accepts: even length, hex digits only
/// (either case).
pub open spec fn hex_valid(s: Seq<char>) -> bool {
    s.len() % 2 == 0 && (forall|i: int| 0 <= i < s.len() ==> is_hex_digit(s[i]))
}

/// The bytes a valid hex string denotes.
pub open spec fn hex_bytes(s: Seq<char>) -> Seq<u8>
    decreases s.len(),
{
    if s.len() < 2 {
        Seq::<u8>::empty()
    } else {
        seq![(hex_digit_val(s[0]) * 16 + hex_digit_val(s[1])) as u8] + hex_bytes(s.skip(2))
    }
}

/// Relies on `hex::encode`: two lowercase digits for each byte, in order.
#[verifier::external_body]
pub(crate) fn hex_encode(b: &Vec<u8>) -> (r: String)
    ensures
        r@ == hex_of(b@),
{
    hex::encode(&b[..])
}

/// Relies on `hex::decode`: accepts exactly the even-length strings of hex
/// digits of either case and returns the denoted bytes.
#[verifier::external_body]
pub(crate) fn hex_decode(s: &str) -> (r: Option<Vec<u8>>)
    ensures
        (r is Some) <==> hex_valid(s@),
        r is Some ==> r.unwrap()@ == hex_bytes(s@),
{
    match hex::decode(s) {
        Ok(v) => Some(v),
        Err(_) => None,
    }
}

// ------------------------------------------------------------------
// Base64 encodings (standard with padding, and URL-safe without).
// ------------------------------------------------------------------

pub open spec fn b64_alpha_std() -> Seq<char> {
    seq![
        'A', 'B', 'C', 'D', 'E', 'F', 'G', 'H', 'I', 'J', 'K', 'L', 'M', 'N', 'O', 'P', 'Q',
        'R', 'S', 'T', 'U', 'V', 'W', 'X', 'Y', 'Z', 'a', 'b', 'c', 'd', 'e', 'f', 'g', 'h',
        'i', 'j', 'k', 'l', 'm', 'n', 'o', 'p', 'q', 'r', 's', 't', 'u', 'v', 'w', 'x', 'y',
        'z', '0', '1', '2', '3', '4', '5', '6', '7', '8', '9', '+', '/',
    ]
}

pub open spec fn b64_alpha_url() -> Seq<char> {
    seq![
        'A', 'B', 'C', 'D', 'E', 'F', 'G', 'H', 'I', 'J', 'K', 'L', 'M', 'N', 'O', 'P', 'Q',
        'R', 'S', 'T', 'U', 'V', 'W', 'X', 'Y', 'Z', 'a', 'b', 'c', 'd', 'e', 'f', 'g', 'h',
        'i', 'j', 'k', 'l', 'm', 'n', 'o', 'p', 'q', 'r', 's', 't', 'u', 'v', 'w', 'x', 'y',
        'z', '0', '1', '2', '3', '4', '5', '6', '7', '8', '9', '-', '_',
    ]
}

/// Base64 encoding without padding characters, over the given alphabet.
pub open spec fn b64_enc_nopad(alpha: Seq<char>, s: Seq<u8>) -> Seq<char>
    decreases s.len(),
{
    if s.len() == 0 {
        Seq::<char>::empty()
    } else if s.len() == 1 {
        seq![alpha[s[0] as int / 4], alpha[(s[0] as int % 4) * 16]]
    } else if s.len() == 2 {
        seq![
            alpha[s[0] as int / 4],
            alpha[(s[0] as int % 4) * 16 + s[1] as int / 16],
            alpha[(s[1] as int % 16) * 4],
        ]
    } else {
        seq![
            alpha[s[0] as int / 4],
            alpha[(s[0] as int % 4) * 16 + s[1] as int / 16],
            alpha[(s[1] as int % 16) * 4 + s[2] as int / 64],
            alpha[s[2] as int % 64],
        ] + b64_enc_nopad(alpha, s.skip(3))
    }
}

/// URL-safe base64 without padding, as the `base64` crate's
/// `URL_SAFE_NO_PAD` engine writes it.
pub open spec fn b64url_enc(s: Seq<u8>) -> Seq<char> {
    b64_enc_nopad(b64_alpha_url(), s)
}

/// Standard base64 with `=` padding, as the `base64` crate's `STANDARD`
/// engine writes it.
pub open spec fn b64std_enc(s: Seq<u8>) -> Seq<char> {
    b64_enc_nopad(b64_alpha_std(), s) + if s.len() % 3 == 1 {
        seq!['=', '=']
    } else if s.len() % 3 == 2 {
        seq!['=']
    } else {
        Seq::<char>::empty()
    }
}

/// Whether a string is the canonical URL-safe encoding of some bytes.
pub open spec fn b64url_decodable(s: Seq<char>) -> bool {
    exists|b: Seq<u8>| s == #[trigger] b64url_enc(b)
}

/// The bytes a canonical URL-safe encoding denotes.
pub open spec fn b64url_bytes(s: Seq<char>) -> Seq<u8> {
    choose|b: Seq<u8>| s == #[trigger] b64url_enc(b)
}

/// Whether a string is the canonical padded standard encoding of some bytes.
pub open spec fn b64std_decodable(s: Seq<char>) -> bool {
    exists|b: Seq<u8>| s == #[trigger] b64std_enc(b)
}

/// The bytes a canonical padded standard encoding denotes.
pub open spec fn b64std_bytes(s: Seq<char>) -> Seq<u8> {
    choose|b: Seq<u8>| s == #[trigger] b64std_enc(b)
}

/// Relies on the `base64` crate's `URL_SAFE_NO_PAD` engine, whose default
/// configuration rejects padding and non-zero trailing bits, so it accepts
/// exactly the canonical encodings and, the encoding being injective,
/// inverts them.
#[verifier::external_body]
pub(crate) fn b64url_decode(s: &str) -> (r: Option<Vec<u8>>)
    ensures
        (r is Some) == b64url_decodable(s@),
        r matches Some(b) ==> s@ == b64url_enc(b@) && b@ == b64url_bytes(s@),
{
    match base64::engine::general_purpose::URL_SAFE_NO_PAD.decode(s) {
        Ok(v) => Some(v),
        Err(_) => None,
    }
}

/// Relies on the `base64` crate's `STANDARD` engine, whose default
/// configuration demands canonical padding and zero trailing bits, so it
/// accepts exactly the canonical encodings and, the encoding being
/// injective, inverts them.
#[verifier::external_body]
pub(crate) fn b64std_decode(s: &str) -> (r: Option<Vec<u8>>)
    ensures
        (r is Some) == b64std_decodable(s@),
        r matches Some(b) ==> s@ == b64std_enc(b@) && b@ == b64std_bytes(s@),
{
    match base64::engine::general_purpose::STANDARD.decode(s) {
        Ok(v) => Some(v),
        Err(_) => None,
    }
}

/// Relies on the `base64` crate's `STANDARD` engine encoder; the encoding
/// being injective, the result denotes exactly the input bytes.
#[verifier::external_body]
pub(crate) fn b64std_encode(b: &Vec<u8>) -> (r: String)
    ensures
        r@ == b64std_enc(b@),
        b64std_decodable(r@),
        b64std_bytes(r@) == b@,
{
    base64::engine::general_purpose::STANDARD.encode(&b[..])
}

// ------------------------------------------------------------------
// Decimal and hexadecimal integer strings.
// ------------------------------------------------------------------

pub open spec fn is_dec_digit(b: u8) -> bool {
    48 <= b && b <= 57
}

/// Value of a decimal digit string, most significant digit first.
pub open spec fn dec_val(s: Seq<u8>) -> int
    decreases s.len(),
{
    if s.len() == 0 {
        0
    } else {
        10 * dec_val(s.drop_last()) + (s.last() - 48)
    }
}

pub open spec fn dec_valid(s: Seq<u8>) -> bool {
    s.len() > 0 && (forall|i: int| 0 <= i < s.len() ==> is_dec_digit(s[i]))
}

pub open spec fn is_hex_digit_byte(b: u8) -> bool {
    (48 <= b && b <= 57) || (97 <= b && b <= 102) || (65 <= b && b <= 70)
}

pub open spec fn hex_digit_byte_val(b: u8) -> int {
    if 48 <= b && b <= 57 {
        b - 48
    } else if 97 <= b && b <= 102 {
        b - 87
    } else if 65 <= b && b <= 70 {
        b - 55
    } else {
        0
    }
}

/// Value of a hexadecimal digit string, most significant digit first.
pub open spec fn hexstr_val(s: Seq<u8>) -> int
    decreases s.len(),
{
    if s.len() == 0 {
        0
    } else {
        16 * hexstr_val(s.drop_last()) + hex_digit_byte_val(s.last())
    }
}

pub open spec fn hexstr_valid(s: Seq<u8>) -> bool {
    s.len() > 0 && (forall|i: int| 0 <= i < s.len() ==> is_hex_digit_byte(s[i]))
}

/// Relies on `num_bigint::BigUint::parse_bytes` (base 10) and
/// `BigUint::to_bytes_be`: on a non-empty all-digit input the parse succeeds
/// and the big-endian bytes carry the parsed value.
#[verifier::external_body]
pub(crate) fn dec_to_be_bytes(digits: &[u8]) -> (r: Vec<u8>)
    requires
        dec_valid(digits@),
    ensures
        be_val(r@) == dec_val(digits@),
{
    num_bigint::BigUint::parse_bytes(digits, 10).unwrap().to_bytes_be()
}

/// Relies on `num_bigint::BigUint::parse_bytes` (base 16) and
/// `BigUint::to_bytes_be`: on a non-empty all-hex-digit input the parse
/// succeeds and the big-endian bytes carry the parsed value.
#[verifier::external_body]
pub(crate) fn hex_to_be_bytes(digits: &[u8]) -> (r: Vec<u8>)
    requires
        hexstr_valid(digits@),
    ensures
        be_val(r@) == hexstr_val(digits@),
{
    num_bigint::BigUint::parse_bytes(digits, 16).unwrap().to_bytes_be()
}

// ------------------------------------------------------------------
// Small executable helpers over byte vectors.
// ------------------------------------------------------------------

/// Append a copy of `src` to `dst`.
pub(crate) fn append_bytes(dst: &mut Vec<u8>, src: &Vec<u8>)
    ensures
        final(dst)@ == old(dst)@ + src@,
{
    let mut i: usize = 0;
    while i < src.len()
        invariant
            0 <= i <= src@.len(),
            dst@ == old(dst)@ + src@.take(i as int),
        decreases src@.len() - i,
    {
        let b = src[i];
        dst.push(b);
        proof {
            assert(src@.take(i + 1) =~= src@.take(i as int).push(src@[i as int]));
            assert(old(dst)@ + src@.take(i + 1) =~= (old(dst)@ + src@.take(i as int)).push(
                src@[i as int],
            ));
        }
        i = i + 1;
    }
    proof {
        assert(src@.take(src@.len() as int) =~= src@);
    }
}

/// Copy a byte vector.
pub(crate) fn copy_bytes(src: &Vec<u8>) -> (r: Vec<u8>)
    ensures
        r@ == src@,
{
    let mut out: Vec<u8> = Vec::new();
    append_bytes(&mut out, src);
    proof {
        assert(Seq::<u8>::empty() + src@ =~= src@);
    }
    out
}

} // verus!
