//! Base64 as the legacy wire protocol uses it, and small string primitives.
//!
//! The legacy protocol encodes its query payload with the standard, non
//! URL-safe base64 alphabet, padded with `=`. That choice is a pinned
//! compatibility decision: the payload travels inside a URL query parameter
//! even though `+` and `/` are not URL-safe there. The encoding is specified
//! here in full so that the round-trip properties of the parameter can be
//! stated and proved.

use vstd::prelude::*;

verus! {

/// Character of the standard base64 alphabet for sextet value `v`.
pub open spec fn b64_char(v: u8) -> char
    recommends
        v < 64,
{
    if v < 26 {
        ((65 + v) as u8) as char
    } else if v < 52 {
        ((97 + (v - 26)) as u8) as char
    } else if v < 62 {
        ((48 + (v - 52)) as u8) as char
    } else if v == 62 {
        '+'
    } else {
        '/'
    }
}

/// Sextet value of a character under the standard alphabet, if any.
pub open spec fn b64_val(c: char) -> Option<u8> {
    let v = c as u32;
    if 65 <= v <= 90 {
        Some((v - 65) as u8)
    } else if 97 <= v <= 122 {
        Some((26 + (v - 97)) as u8)
    } else if 48 <= v <= 57 {
        Some((52 + (v - 48)) as u8)
    } else if c == '+' {
        Some(62u8)
    } else if c == '/' {
        Some(63u8)
    } else {
        None
    }
}

/// Sextet value of a character under the URL-safe alphabet, if any.
/// It differs from the standard alphabet exactly at values 62 and 63.
pub open spec fn b64_val_url(c: char) -> Option<u8> {
    let v = c as u32;
    if 65 <= v <= 90 {
        Some((v - 65) as u8)
    } else if 97 <= v <= 122 {
        Some((26 + (v - 97)) as u8)
    } else if 48 <= v <= 57 {
        Some((52 + (v - 48)) as u8)
    } else if c == '-' {
        Some(62u8)
    } else if c == '_' {
        Some(63u8)
    } else {
        None
    }
}

/// Sextet value under one of the two alphabets.
pub open spec fn sextet_val(c: char, urlsafe: bool) -> Option<u8> {
    if urlsafe {
        b64_val_url(c)
    } else {
        b64_val(c)
    }
}

/// The four characters encoding a full three-byte group.
pub open spec fn enc_group(a: u8, b: u8, c: u8) -> Seq<char> {
    seq![
        b64_char(a >> 2),
        b64_char((a & 3) << 4 | b >> 4),
        b64_char((b & 15) << 2 | c >> 6),
        b64_char(c & 63),
    ]
}

/// The four characters encoding a trailing two-byte group.
pub open spec fn enc_tail2(a: u8, b: u8) -> Seq<char> {
    seq![b64_char(a >> 2), b64_char((a & 3) << 4 | b >> 4), b64_char((b & 15) << 2), '=']
}

/// The four characters encoding a trailing one-byte group.
pub open spec fn enc_tail1(a: u8) -> Seq<char> {
    seq![b64_char(a >> 2), b64_char((a & 3) << 4), '=', '=']
}

/// Standard base64 encoding with `=` padding.
pub open spec fn b64_encode(bytes: Seq<u8>) -> Seq<char>
    decreases bytes.len(),
{
    if bytes.len() == 0 {
        Seq::empty()
    } else if bytes.len() == 1 {
        enc_tail1(bytes[0])
    } else if bytes.len() == 2 {
        enc_tail2(bytes[0], bytes[1])
    } else {
        enc_group(bytes[0], bytes[1], bytes[2]) + b64_encode(bytes.skip(3))
    }
}

/// Strict base64 decoding under the standard (`urlsafe == false`) or
/// URL-safe (`urlsafe == true`) alphabet: the length must be a multiple of
/// four, padding may only close the final group, and bits left over by the
/// padding must be zero.
pub open spec fn b64_decode_with(s: Seq<char>, urlsafe: bool) -> Option<Seq<u8>>
    decreases s.len(),
{
    if s.len() == 0 {
        Some(Seq::empty())
    } else if s.len() < 4 {
        None
    } else {
        match (sextet_val(s[0], urlsafe), sextet_val(s[1], urlsafe)) {
            (Some(v0), Some(v1)) => {
                if s.len() == 4 && s[2] == '=' && s[3] == '=' {
                    if v1 & 15 == 0 {
                        Some(seq![v0 << 2 | v1 >> 4])
                    } else {
                        None
                    }
                } else if s.len() == 4 && s[3] == '=' {
                    match sextet_val(s[2], urlsafe) {
                        Some(v2) => if v2 & 3 == 0 {
                            Some(seq![v0 << 2 | v1 >> 4, (v1 & 15) << 4 | v2 >> 2])
                        } else {
                            None
                        },
                        None => None,
                    }
                } else {
                    match (sextet_val(s[2], urlsafe), sextet_val(s[3], urlsafe)) {
                        (Some(v2), Some(v3)) => match b64_decode_with(s.skip(4), urlsafe) {
                            Some(rest) => Some(
                                seq![v0 << 2 | v1 >> 4, (v1 & 15) << 4 | v2 >> 2, (v2 & 3) << 6
                                    | v3] + rest,
                            ),
                            None => None,
                        },
                        _ => None,
                    }
                }
            },
            _ => None,
        }
    }
}

/// Decoding with the standard alphabet.
pub open spec fn b64_decode(s: Seq<char>) -> Option<Seq<u8>> {
    b64_decode_with(s, false)
}

/// Decoding with the URL-safe alphabet.
pub open spec fn b64_decode_url(s: Seq<char>) -> Option<Seq<u8>> {
    b64_decode_with(s, true)
}

/// The standard alphabet is read back exactly by `b64_val`, and never
/// produces a padding character; under the URL-safe alphabet only the
/// values below 62 are read back.
pub proof fn lemma_b64_char_val(v: u8)
    requires
        v < 64,
    ensures
        b64_val(b64_char(v)) == Some(v),
        b64_char(v) != '=',
        v < 62 ==> b64_val_url(b64_char(v)) == Some(v),
        v == 62 ==> b64_char(v) == '+',
        v == 63 ==> b64_char(v) == '/',
{
}

/// Decoding an encoded byte sequence with the standard alphabet always
/// succeeds and gives back exactly the bytes that were encoded.
pub proof fn lemma_b64_round_trip(bytes: Seq<u8>)
    ensures
        b64_decode(b64_encode(bytes)) == Some(bytes),
    decreases bytes.len(),
{
    if bytes.len() == 0 {
        assert(Some(Seq::<u8>::empty()) == Some(bytes)) by {
            assert(Seq::<u8>::empty() =~= bytes);
        }
    } else if bytes.len() == 1 {
        let a = bytes[0];
        assert((a >> 2) < 64 && ((a & 3) << 4) < 64) by (bit_vector);
        lemma_b64_char_val(a >> 2);
        lemma_b64_char_val((a & 3) << 4);
        assert(((a & 3) << 4) & 15 == 0) by (bit_vector);
        assert((a >> 2) << 2 | ((a & 3) << 4) >> 4 == a) by (bit_vector);
        assert(seq![a] =~= bytes);
    } else if bytes.len() == 2 {
        let a = bytes[0];
        let b = bytes[1];
        let v0 = a >> 2;
        let v1 = (a & 3) << 4 | b >> 4;
        let v2 = (b & 15) << 2;
        assert(a >> 2 < 64 && ((a & 3) << 4 | b >> 4) < 64 && (b & 15) << 2 < 64) by (bit_vector);
        lemma_b64_char_val(v0);
        lemma_b64_char_val(v1);
        lemma_b64_char_val(v2);
        assert(((b & 15) << 2) & 3 == 0) by (bit_vector);
        assert((a >> 2) << 2 | ((a & 3) << 4 | b >> 4) >> 4 == a) by (bit_vector);
        assert((((a & 3) << 4 | b >> 4) & 15) << 4 | ((b & 15) << 2) >> 2 == b) by (bit_vector);
        assert(seq![a, b] =~= bytes);
    } else {
        let a = bytes[0];
        let b = bytes[1];
        let c = bytes[2];
        let v0 = a >> 2;
        let v1 = (a & 3) << 4 | b >> 4;
        let v2 = (b & 15) << 2 | c >> 6;
        let v3 = c & 63;
        assert(a >> 2 < 64 && ((a & 3) << 4 | b >> 4) < 64 && ((b & 15) << 2 | c >> 6) < 64 && (c
            & 63) < 64) by (bit_vector);
        lemma_b64_char_val(v0);
        lemma_b64_char_val(v1);
        lemma_b64_char_val(v2);
        lemma_b64_char_val(v3);
        let s = b64_encode(bytes);
        let rest = b64_encode(bytes.skip(3));
        assert(s == enc_group(a, b, c) + rest);
        assert(s.len() == 4 + rest.len());
        assert(s[0] == b64_char(v0) && s[1] == b64_char(v1) && s[2] == b64_char(v2) && s[3]
            == b64_char(v3));
        assert(s.skip(4) =~= rest);
        lemma_b64_round_trip(bytes.skip(3));
        assert((a >> 2) << 2 | ((a & 3) << 4 | b >> 4) >> 4 == a) by (bit_vector);
        assert((((a & 3) << 4 | b >> 4) & 15) << 4 | ((b & 15) << 2 | c >> 6) >> 2 == b)
            by (bit_vector);
        assert(((((b & 15) << 2 | c >> 6) & 3) << 6) | (c & 63) == c) by (bit_vector);
        assert(seq![a, b, c] + bytes.skip(3) =~= bytes);
    }
}

/// A URL-safe decoder rejects any string in which `+` or `/` occurs:
/// neither is a character of its alphabet, nor padding.
pub proof fn lemma_urlsafe_rejects(s: Seq<char>, i: int)
    requires
        0 <= i < s.len(),
        s[i] == '+' || s[i] == '/',
    ensures
        b64_decode_url(s) is None,
    decreases s.len(),
{
    if s.len() < 4 {
        // a non-empty string shorter than a group is rejected outright
    } else if i >= 4 {
        lemma_urlsafe_rejects(s.skip(4), i - 4);
    }
}

/// Relies on `base64::encode`: base64 with the standard alphabet and `=`
/// padding, four characters for every group of up to three input bytes.
#[verifier::external_body]
pub(crate) fn to_base64(bytes: &[u8]) -> (r: String)
    ensures
        r@ == b64_encode(bytes@),
{
    base64::encode(bytes)
}

/// Relies on `str`'s `PartialEq`: two string slices are equal exactly when
/// their character contents are.
#[verifier::external_body]
pub(crate) fn str_eq(a: &str, b: &str) -> (r: bool)
    ensures
        r == (a@ == b@),
{
    a == b
}

/// Relies on `String::push`: appends exactly the given character.
#[verifier::external_body]
pub(crate) fn push_char(s: &mut String, c: char)
    ensures
        final(s)@ == old(s)@.push(c),
{
    s.push(c)
}

} // verus!
