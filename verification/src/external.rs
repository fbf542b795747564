//! Calls into chrono, base64 and urlencoding, with what the library relies on.
use vstd::prelude::*;
use crate::models::opt_str;

verus! {

/// The RFC 3339 text that chrono prints for the UTC instant `ms` milliseconds after
/// the Unix epoch, or `None` when chrono cannot represent that instant.
pub uninterp spec fn rfc3339_of_millis(ms: int) -> Option<Seq<char>>;

/// The character of a six-bit value in the standard base64 alphabet
/// (`A`-`Z`, `a`-`z`, `0`-`9`, `+`, `/`).
pub open spec fn base64_digit(v: int) -> char {
    if v < 26 {
        (65 + v) as char
    } else if v < 52 {
        (71 + v) as char
    } else if v < 62 {
        (v - 4) as char
    } else if v == 62 {
        '+'
    } else {
        '/'
    }
}

/// The standard base64 encoding of `bytes`: each group of three bytes gives four
/// characters; a last group of one or two bytes gives two or three, padded with `=`.
pub open spec fn base64_standard(bytes: Seq<u8>) -> Seq<char>
    decreases bytes.len(),
{
    if bytes.len() == 0 {
        Seq::empty()
    } else if bytes.len() == 1 {
        let b0 = bytes[0] as int;
        seq![base64_digit(b0 / 4), base64_digit((b0 % 4) * 16), '=', '=']
    } else if bytes.len() == 2 {
        let (b0, b1) = (bytes[0] as int, bytes[1] as int);
        seq![base64_digit(b0 / 4), base64_digit((b0 % 4) * 16 + b1 / 16), base64_digit((b1 % 16) * 4), '=']
    } else {
        let (b0, b1, b2) = (bytes[0] as int, bytes[1] as int, bytes[2] as int);
        seq![
            base64_digit(b0 / 4),
            base64_digit((b0 % 4) * 16 + b1 / 16),
            base64_digit((b1 % 16) * 4 + b2 / 64),
            base64_digit(b2 % 64),
        ] + base64_standard(bytes.subrange(3, bytes.len() as int))
    }
}

/// The value of an ASCII hexadecimal digit byte.
pub open spec fn hex_value(b: u8) -> Option<u8> {
    if 48 <= b <= 57 {
        Some((b - 48) as u8)
    } else if 65 <= b <= 70 {
        Some((b - 55) as u8)
    } else if 97 <= b <= 102 {
        Some((b - 87) as u8)
    } else {
        None
    }
}

/// Percent-decoding of bytes: each `%` followed by two hexadecimal digits becomes the
/// byte they spell; every other byte, and every other `%`, is kept as it is.
pub open spec fn percent_decode_bytes(b: Seq<u8>) -> Seq<u8>
    decreases b.len(),
{
    if b.len() == 0 {
        Seq::empty()
    } else if b[0] == 37 && b.len() >= 3 && hex_value(b[1]) is Some && hex_value(b[2]) is Some {
        seq![(hex_value(b[1]).unwrap() * 16 + hex_value(b[2]).unwrap()) as u8]
            + percent_decode_bytes(b.subrange(3, b.len() as int))
    } else {
        seq![b[0]] + percent_decode_bytes(b.drop_first())
    }
}

/// Percent-decoding of a path: the `%XX` escapes of its UTF-8 bytes are decoded, and
/// the path is kept as it is when the decoded bytes are not UTF-8.
pub open spec fn decoded_path(s: Seq<char>) -> Seq<char> {
    let d = percent_decode_bytes(vstd::utf8::encode_utf8(s));
    if vstd::utf8::valid_utf8(d) { vstd::utf8::decode_utf8(d) } else { s }
}

/// chrono `Utc.timestamp_millis_opt(ms).single()` printed with `to_rfc3339`: the text is
/// a function of `ms` alone, and absent exactly when chrono cannot represent the instant.
#[verifier::external_body]
pub(crate) fn millis_to_rfc3339(ms: i64) -> (r: Option<String>)
    ensures
        opt_str(r) == rfc3339_of_millis(ms as int),
{
    match chrono::TimeZone::timestamp_millis_opt(&chrono::Utc, ms).single() {
        Some(dt) => Some(dt.to_rfc3339()),
        None => None,
    }
}

/// base64 `STANDARD.encode(bytes)`.
#[verifier::external_body]
pub(crate) fn encode_base64(bytes: &Vec<u8>) -> (r: String)
    ensures
        r@ == base64_standard(bytes@),
{
    base64::Engine::encode(&base64::engine::general_purpose::STANDARD, bytes)
}

/// `urlencoding::decode`: percent-decodes the UTF-8 bytes of `s` (a `%` not followed by
/// two hex digits stays literal) and returns the text when the result is valid UTF-8.
#[verifier::external_body]
pub(crate) fn url_decode(s: &str) -> (r: Option<String>)
    ensures
        r is Some <==> vstd::utf8::valid_utf8(percent_decode_bytes(vstd::utf8::encode_utf8(s@))),
        r matches Some(d) ==> d@ == vstd::utf8::decode_utf8(percent_decode_bytes(vstd::utf8::encode_utf8(s@))),
{
    urlencoding::decode(s).ok().map(|d| d.into_owned())
}

} // verus!
