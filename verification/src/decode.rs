//! From the path of a request URI to the path that routes are matched against.

use crate::error::RouteError;
use percent_encoding::percent_decode_str;
use vstd::prelude::*;

verus! {

/// Whether `byte` is an ASCII hexadecimal digit.
pub open spec fn is_hex_digit(byte: u8) -> bool {
    ||| 0x30 <= byte <= 0x39
    ||| 0x41 <= byte <= 0x46
    ||| 0x61 <= byte <= 0x66
}

/// The value of an ASCII hexadecimal digit.
pub open spec fn hex_value(byte: u8) -> int {
    if byte <= 0x39 {
        byte - 0x30
    } else if byte <= 0x46 {
        byte - 0x41 + 10
    } else {
        byte - 0x61 + 10
    }
}

/// `bytes` with each `%` that two hexadecimal digits follow replaced, together
/// with them, by the byte that they spell.
pub open spec fn percent_decoded(bytes: Seq<u8>) -> Seq<u8>
    decreases bytes.len(),
{
    if bytes.len() == 0 {
        Seq::empty()
    } else if bytes[0] == 0x25 && bytes.len() >= 3 && is_hex_digit(bytes[1]) && is_hex_digit(
        bytes[2],
    ) {
        seq![(hex_value(bytes[1]) * 16 + hex_value(bytes[2])) as u8] + percent_decoded(
            bytes.subrange(3, bytes.len() as int),
        )
    } else {
        seq![bytes[0]] + percent_decoded(bytes.drop_first())
    }
}

/// The text that a percent-encoded text stands for; `None` where the bytes that
/// it spells are not UTF-8.
pub open spec fn decoded(val: Seq<char>) -> Option<Seq<char>> {
    let bytes = percent_decoded(vstd::utf8::encode_utf8(val));
    if vstd::utf8::valid_utf8(bytes) {
        Some(vstd::utf8::decode_utf8(bytes))
    } else {
        None
    }
}

/// The path that a request is routed by: the decoded path of its URI, or `/`
/// where that is empty.
pub open spec fn request_path(uri_path: Seq<char>) -> Option<Seq<char>> {
    match decoded(uri_path) {
        Some(path) => Some(
            if path.len() == 0 {
                "/"@
            } else {
                path
            },
        ),
        None => None,
    }
}

/// What `decode_utf8` reports of a percent-encoded text that does not decode.
pub uninterp spec fn decode_error(val: Seq<char>) -> std::str::Utf8Error;

/// Calls `percent_decode_str` and then `decode_utf8` on what it returns: the
/// first decodes the bytes of `val`, the second fails just where the outcome is
/// not UTF-8, with an error that depends on the outcome alone.
#[verifier::external_body]
fn percent_decode_utf8(val: &str) -> (r: Result<String, std::str::Utf8Error>)
    ensures
        match r {
            Ok(path) => decoded(val@) == Some(path@),
            Err(err) => decoded(val@) is None && err == decode_error(val@),
        },
{
    percent_decode_str(val).decode_utf8().map(|path| path.into_owned())
}

/// Decodes the path of a request URI.
pub fn percent_decode_request_path(val: &str) -> (r: Result<String, RouteError>)
    ensures
        match r {
            Ok(path) => decoded(val@) == Some(path@),
            Err(err) => decoded(val@) is None && err == RouteError::InvalidPath(
                decode_error(val@),
            ),
        },
{
    match percent_decode_utf8(val) {
        Ok(path) => Ok(path),
        Err(err) => Err(RouteError::InvalidPath(err)),
    }
}

} // verus!
