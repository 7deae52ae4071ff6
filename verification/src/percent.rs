//! Percent-encoding as URLs carry it (RFC 3986), done by the `urlencoding`
//! crate: what its `encode` and `decode` compute, stated over the UTF-8
//! bytes of the text.
use vstd::prelude::*;
use vstd::utf8::{decode_utf8, encode_utf8, valid_utf8};
use crate::iptv::opt_view;

verus! {

/// The value of an ASCII hexadecimal digit (either case), if it is one.
pub open spec fn hex_value(b: u8) -> Option<int> {
    if 0x30 <= b <= 0x39 {
        Some(b - 0x30)
    } else if 0x41 <= b <= 0x46 {
        Some(b - 0x41 + 10)
    } else if 0x61 <= b <= 0x66 {
        Some(b - 0x61 + 10)
    } else {
        None
    }
}

/// Percent-decoding of bytes: each `%` followed by two hexadecimal digits
/// stands for the byte they spell; every other byte, `+` and a `%` that
/// is not followed by two digits included, stands for itself.
pub open spec fn pct_decode(b: Seq<u8>) -> Seq<u8>
    decreases b.len(),
{
    if b.len() == 0 {
        seq![]
    } else if b[0] == 0x25u8 && b.len() >= 3 && hex_value(b[1]) is Some && hex_value(b[2]) is Some {
        seq![(hex_value(b[1])->0 * 16 + hex_value(b[2])->0) as u8] + pct_decode(b.subrange(3, b.len() as int))
    } else {
        seq![b[0]] + pct_decode(b.drop_first())
    }
}

/// `urlencoding::decode`: the text whose UTF-8 encoding is the
/// percent-decoding of the bytes of `s`; `None` when those bytes are not
/// valid UTF-8.
pub open spec fn url_decoded(s: Seq<char>) -> Option<Seq<char>> {
    let b = pct_decode(encode_utf8(s));
    if valid_utf8(b) {
        Some(decode_utf8(b))
    } else {
        None
    }
}

/// The bytes that percent-encoding leaves as they are.
pub open spec fn unreserved(b: u8) -> bool {
    ||| 0x30 <= b <= 0x39
    ||| 0x41 <= b <= 0x5a
    ||| 0x61 <= b <= 0x7a
    ||| b == 0x2d
    ||| b == 0x2e
    ||| b == 0x5f
    ||| b == 0x7e
}

/// An upper-case hexadecimal digit.
pub open spec fn hex_digit(d: int) -> char {
    if d < 10 {
        (0x30 + d) as char
    } else {
        (0x41 + d - 10) as char
    }
}

/// Percent-encoding of one byte.
pub open spec fn pct_encode_byte(b: u8) -> Seq<char> {
    if unreserved(b) {
        seq![b as char]
    } else {
        seq!['%', hex_digit((b / 16) as int), hex_digit((b % 16) as int)]
    }
}

pub open spec fn pct_encode(b: Seq<u8>) -> Seq<char>
    decreases b.len(),
{
    if b.len() == 0 {
        seq![]
    } else {
        pct_encode_byte(b[0]) + pct_encode(b.drop_first())
    }
}

/// `urlencoding::encode`: every UTF-8 byte of `s` but the unreserved ones
/// written as `%` and two upper-case hexadecimal digits.
pub open spec fn url_encoded(s: Seq<char>) -> Seq<char> {
    pct_encode(encode_utf8(s))
}

/// Calls `urlencoding::decode`, which percent-decodes the bytes of `s` and
/// reads the result as UTF-8, failing only when it is not valid UTF-8.
#[verifier::external_body]
pub(crate) fn url_decode(s: &str) -> (r: Option<String>)
    ensures
        opt_view(r) == url_decoded(s@),
{
    match urlencoding::decode(s) {
        Ok(d) => Some(d.into_owned()),
        Err(_) => None,
    }
}

/// Calls `urlencoding::encode`, which percent-encodes every byte of the
/// UTF-8 encoding of `s` outside `A-Z a-z 0-9 - . _ ~`, with upper-case
/// hexadecimal digits.
#[verifier::external_body]
pub(crate) fn url_encode(s: &str) -> (r: String)
    ensures
        r@ == url_encoded(s@),
{
    urlencoding::encode(s).into_owned()
}

} // verus!
