//! Percent-encoding, through the `urlencoding` crate.
use vstd::prelude::*;

verus! {

pub open spec fn hex_value(c: u8) -> Option<u8> {
    if 48 <= c <= 57 {
        Some((c - 48) as u8)
    } else if 65 <= c <= 70 {
        Some((c - 55) as u8)
    } else if 97 <= c <= 102 {
        Some((c - 87) as u8)
    } else {
        None
    }
}

/// `%XX` with two hex digits becomes the byte they spell; every other byte,
/// a lone `%` included, stays as it is.
pub open spec fn url_decoded(s: Seq<u8>) -> Seq<u8>
    decreases s.len(),
{
    if s.len() == 0 {
        Seq::empty()
    } else if s[0] == 37 && s.len() >= 3 && hex_value(s[1]) is Some && hex_value(s[2]) is Some {
        seq![(hex_value(s[1])->0 * 16 + hex_value(s[2])->0) as u8] + url_decoded(s.skip(3))
    } else {
        seq![s[0]] + url_decoded(s.skip(1))
    }
}

pub open spec fn unreserved(c: u8) -> bool {
    (48 <= c <= 57) || (65 <= c <= 90) || (97 <= c <= 122) || c == 45 || c == 46 || c == 95
        || c == 126
}

pub open spec fn hex_digit_upper(d: int) -> u8 {
    if d < 10 {
        (48 + d) as u8
    } else {
        (55 + d) as u8
    }
}

/// Every byte but ASCII letters, digits and `-._~` becomes `%XX`, in
/// upper-case hex.
pub open spec fn url_encoded(s: Seq<u8>) -> Seq<u8>
    decreases s.len(),
{
    if s.len() == 0 {
        Seq::empty()
    } else if unreserved(s[0]) {
        seq![s[0]] + url_encoded(s.skip(1))
    } else {
        seq![37u8, hex_digit_upper((s[0] / 16) as int), hex_digit_upper((s[0] % 16) as int)] + url_encoded(
            s.skip(1),
        )
    }
}

/// Relies on `urlencoding::decode_binary`: it replaces each `%` followed by
/// two hex digits with the byte they spell and keeps every other byte.
#[verifier::external_body]
pub fn percent_decode(s: &[u8]) -> (r: Vec<u8>)
    ensures
        r@ == url_decoded(s@),
{
    urlencoding::decode_binary(s).into_owned()
}

/// Relies on `urlencoding::encode_binary`: it percent-encodes every byte
/// except ASCII alphanumerics and `-`, `.`, `_`, `~`, with upper-case hex.
#[verifier::external_body]
pub fn percent_encode(s: &[u8]) -> (r: Vec<u8>)
    ensures
        r@ == url_encoded(s@),
{
    urlencoding::encode_binary(s).into_owned().into_bytes()
}

} // verus!
