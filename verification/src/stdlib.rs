//! Calls into the standard library that vstd gives no specification:
//! Unicode lowercasing, `Debug` quoting, UTF-8 decoding and the clock.

use vstd::prelude::*;
use vstd::utf8::*;

verus! {

/// `str::to_lowercase` of a string.
pub uninterp spec fn std_lowercase(s: Seq<char>) -> Seq<char>;

/// The `Debug` rendering of a `str` (quoted and escaped).
pub uninterp spec fn std_debug_str(s: Seq<char>) -> Seq<char>;

/// `String::from_utf8_lossy` of a byte sequence.
pub uninterp spec fn std_utf8_lossy(bytes: Seq<u8>) -> Seq<char>;

/// ASCII lowercasing of one character.
pub open spec fn ascii_lower(c: char) -> char {
    if 'A' <= c && c <= 'Z' {
        ((c as u32) + 32) as char
    } else {
        c
    }
}

/// A string with every ASCII letter lowercased (what
/// `eq_ignore_ascii_case` compares).
pub open spec fn ascii_folded(s: Seq<char>) -> Seq<char> {
    s.map_values(|c: char| ascii_lower(c))
}

/// Whether every character is ASCII.
pub open spec fn all_ascii(s: Seq<char>) -> bool {
    forall|i: int| 0 <= i < s.len() ==> (s[i] as u32) < 128
}

/// Calls `str::to_lowercase`. Claims that the result is `std_lowercase`
/// of `s`, and, as its documentation says (lowercase per the Unicode
/// `Lowercase` property), that an all-ASCII string is lowercased
/// character by character in the ASCII way.
#[verifier::external_body]
pub fn lowercase(s: &str) -> (r: String)
    ensures
        r@ == std_lowercase(s@),
        all_ascii(s@) ==> r@ == s@.map_values(|c: char| ascii_lower(c)),
{
    s.to_lowercase()
}

/// Formats `s` with `{:?}`. Claims only that the result is
/// `std_debug_str` of `s`.
#[verifier::external_body]
pub fn debug_quoted(s: &str) -> (r: String)
    ensures
        r@ == std_debug_str(s@),
{
    format!("{s:?}")
}

/// Calls `String::from_utf8`: the bytes decoded, exactly when they are
/// valid UTF-8.
#[verifier::external_body]
pub fn string_from_utf8(bytes: Vec<u8>) -> (r: Option<String>)
    ensures
        r is Some <==> valid_utf8(bytes@),
        r matches Some(s) ==> s@ == decode_utf8(bytes@),
{
    String::from_utf8(bytes).ok()
}

/// Calls `String::from_utf8_lossy`. Claims that the result is
/// `std_utf8_lossy` of the bytes, and that valid UTF-8 is decoded as is.
#[verifier::external_body]
pub fn utf8_lossy(bytes: &[u8]) -> (r: String)
    ensures
        r@ == std_utf8_lossy(bytes@),
        valid_utf8(bytes@) ==> r@ == decode_utf8(bytes@),
{
    String::from_utf8_lossy(bytes).into_owned()
}

/// A moment of the monotonic clock.
#[verifier::external_type_specification]
#[verifier::external_body]
pub struct ExInstant(std::time::Instant);

/// Calls `Instant::now`. Nothing is claimed of the result.
#[verifier::external_body]
pub fn instant_now() -> (r: std::time::Instant) {
    std::time::Instant::now()
}

/// Calls `Instant::elapsed` and reads it in whole milliseconds. Nothing
/// is claimed of the result.
#[verifier::external_body]
pub fn elapsed_millis(start: &std::time::Instant) -> (r: u128) {
    start.elapsed().as_millis()
}

} // verus!
