//! UTF-8 helpers for raw path bytes.
//!
//! A path as the operating system stores it is a byte string; these helpers
//! decide how it reads as text. Never round-trip a path through lossy UTF-8
//! for filesystem operations.

use vstd::prelude::*;
use vstd::utf8::{valid_utf8, decode_utf8};
use crate::error::{PathError, PathErrorSpec};
use unicode_normalization::UnicodeNormalization;

verus! {

/// Decodes bytes as UTF-8 with `std::str::from_utf8`.
///
/// Claims what the documentation states: decoding succeeds exactly when the
/// bytes are valid UTF-8, and then yields the characters they encode.
#[verifier::external_body]
fn decode_strict(bytes: &[u8]) -> (r: Option<String>)
    ensures
        match r {
            Some(s) => valid_utf8(bytes@) && s@ == decode_utf8(bytes@),
            None => !valid_utf8(bytes@),
        },
{
    match std::str::from_utf8(bytes) {
        Ok(s) => Some(s.to_owned()),
        Err(_) => None,
    }
}

/// The text `String::from_utf8_lossy` makes of `bytes`: invalid sequences
/// replaced by U+FFFD.
pub uninterp spec fn utf8_lossy(bytes: Seq<u8>) -> Seq<char>;

/// Decodes bytes with `String::from_utf8_lossy`.
///
/// Claims: the result is [`utf8_lossy`] of the bytes, and for valid UTF-8 it
/// is exactly the decoded text, as the documentation states.
#[verifier::external_body]
fn decode_lossy(bytes: &[u8]) -> (r: String)
    ensures
        r@ == utf8_lossy(bytes@),
        valid_utf8(bytes@) ==> r@ == decode_utf8(bytes@),
{
    String::from_utf8_lossy(bytes).into_owned()
}

/// Convert path bytes to UTF-8 text, or error if they are not valid UTF-8.
pub fn path_to_utf8(path: &[u8]) -> (r: Result<String, PathError>)
    ensures
        valid_utf8(path@) ==> (r matches Ok(s) && s@ == decode_utf8(path@)),
        !valid_utf8(path@) ==> (r matches Err(e) && e@ == PathErrorSpec::NotUtf8),
{
    match decode_strict(path) {
        Some(s) => Ok(s),
        None => Err(PathError::NotUtf8),
    }
}

/// Lossy UTF-8 conversion suitable for logs and UI only.
pub fn path_to_string_lossy(path: &[u8]) -> (r: String)
    ensures
        r@ == utf8_lossy(path@),
        valid_utf8(path@) ==> r@ == decode_utf8(path@),
{
    decode_lossy(path)
}

/// The Unicode canonical composition (NFC) of `s`.
pub uninterp spec fn nfc(s: Seq<char>) -> Seq<char>;

/// Composes text to NFC with `unicode_normalization::UnicodeNormalization::nfc`.
///
/// Claims: the result is [`nfc`] of the input.
#[verifier::external_body]
fn compose_nfc(s: &str) -> (r: String)
    ensures
        r@ == nfc(s@),
{
    s.nfc().collect::<String>()
}

/// A Unicode-normalized logical key for comparison purposes: the NFC form of
/// the path's lossy text. Never use it as a filesystem path.
pub fn logical_path_key(path: &[u8]) -> (r: String)
    ensures
        r@ == nfc(utf8_lossy(path@)),
{
    let text = decode_lossy(path);
    compose_nfc(text.as_str())
}

} // verus!
