//! Percent-encoding and -decoding of path bytes.
//!
//! The specification functions state the exact byte-level behaviour;
//! the executable functions call the `urlencoding` crate and are
//! trusted against its source.

use vstd::prelude::*;

verus! {

/// Is `b` the code of an ASCII hex digit?
pub open spec fn is_hex_digit(b: u8) -> bool {
    (48 <= b <= 57) || (65 <= b <= 70) || (97 <= b <= 102)
}

/// The value of an ASCII hex digit.
pub open spec fn hex_val(b: u8) -> u8 {
    if 48 <= b <= 57 {
        (b - 48) as u8
    } else if 65 <= b <= 70 {
        (b - 55) as u8
    } else {
        (b - 87) as u8
    }
}

/// Percent-decoding of a byte string: each `%` followed by two hex
/// digits becomes one byte; a `%` followed by one hex digit and a
/// non-digit keeps the `%` and the digit; any other `%` stays literal.
/// A `+` is not touched.
pub open spec fn percent_decode_spec(s: Seq<u8>) -> Seq<u8>
    decreases s.len(),
{
    if s.len() == 0 {
        s
    } else if s[0] != 37 {
        seq![s[0]] + percent_decode_spec(s.skip(1))
    } else if s.len() >= 3 && is_hex_digit(s[1]) && is_hex_digit(s[2]) {
        seq![(hex_val(s[1]) * 16 + hex_val(s[2])) as u8] + percent_decode_spec(s.skip(3))
    } else if s.len() >= 2 && is_hex_digit(s[1]) {
        seq![37u8, s[1]] + percent_decode_spec(s.skip(2))
    } else if s.len() >= 2 {
        seq![37u8] + percent_decode_spec(s.skip(1))
    } else {
        seq![37u8]
    }
}

/// Bytes that percent-encoding leaves as they are: ASCII alphanumerics
/// and `-`, `.`, `_`, `~`.
pub open spec fn is_unreserved(b: u8) -> bool {
    (48 <= b <= 57) || (65 <= b <= 90) || (97 <= b <= 122) || b == 45 || b == 46 || b == 95
        || b == 126
}

/// The character of a hex digit value, upper case.
pub open spec fn hex_char(d: u8) -> char {
    if d < 10 {
        ((d + 48) as u8) as char
    } else {
        ((d + 55) as u8) as char
    }
}

/// Percent-encoding of a byte string: every byte that is not
/// unreserved becomes `%` and two upper case hex digits.
pub open spec fn percent_encode_spec(s: Seq<u8>) -> Seq<char>
    decreases s.len(),
{
    if s.len() == 0 {
        Seq::empty()
    } else if is_unreserved(s[0]) {
        seq![s[0] as char] + percent_encode_spec(s.skip(1))
    } else {
        seq!['%', hex_char(s[0] / 16), hex_char(s[0] % 16)] + percent_encode_spec(s.skip(1))
    }
}

/// Relies on `urlencoding::decode_binary`: decodes `%XX` hex escapes,
/// keeps a malformed escape literally (the `%` and, if present, one
/// leading hex digit), and preserves `+`.
#[verifier::external_body]
pub fn percent_decode(b: &[u8]) -> (r: Vec<u8>)
    ensures
        r@ == percent_decode_spec(b@),
{
    urlencoding::decode_binary(b).into_owned()
}

/// Relies on `urlencoding::encode_binary`: percent-encodes every byte
/// except ASCII alphanumerics and `-`, `.`, `_`, `~`, with upper case
/// hex digits.
#[verifier::external_body]
pub fn percent_encode(b: &[u8]) -> (r: String)
    ensures
        r@ == percent_encode_spec(b@),
{
    urlencoding::encode_binary(b).into_owned()
}

} // verus!
