//! Calls that leave the library. The contracts here are believed, not proved.

use vstd::prelude::*;
use vstd::utf8::{decode_utf8, is_ascii_chars, valid_utf8};

verus! {

/// What `String::from_utf8_lossy` makes of `bytes`.
pub uninterp spec fn utf8_lossy(bytes: Seq<u8>) -> Seq<char>;

/// Calls `String::from_utf8_lossy`. The result depends on the bytes alone, and bytes that are
/// valid UTF-8 come back as the text they encode. How the replacement characters fall in other
/// input is left to the name.
#[verifier::external_body]
pub(crate) fn string_from_utf8_lossy(bytes: &[u8]) -> (text: String)
    ensures
        text@ == utf8_lossy(bytes@),
        valid_utf8(bytes@) ==> text@ == decode_utf8(bytes@),
{
    String::from_utf8_lossy(bytes).to_string()
}

/// The text that `raw` is read as: what it encodes, or a repaired text where it is not UTF-8.
pub open spec fn lossy_text(raw: Seq<u8>) -> Seq<char> {
    if valid_utf8(raw) {
        decode_utf8(raw)
    } else {
        utf8_lossy(raw)
    }
}

/// The text of the error that `String::from_utf8` gives for `bytes`.
pub uninterp spec fn utf8_fault(bytes: Seq<u8>) -> Seq<char>;

/// Calls `String::from_utf8`, which accepts exactly the bytes that are valid UTF-8 and returns
/// the text they encode. How the error tells the place in other input is left to the name.
#[verifier::external_body]
pub(crate) fn string_from_utf8(bytes: &[u8]) -> (text: Result<String, String>)
    ensures
        text is Ok == valid_utf8(bytes@),
        match text {
            Ok(t) => t@ == decode_utf8(bytes@),
            Err(e) => e@ == utf8_fault(bytes@),
        },
{
    String::from_utf8(bytes.to_vec()).map_err(|e| e.to_string())
}

/// Calls `String::push`, which appends one character.
pub assume_specification[ String::push ](text: &mut String, c: char)
    ensures
        final(text)@ == old(text)@.push(c),
;

/// Calls `rand::Rng::gen_range` on the thread's generator, which returns a number of the range
/// it is given. Which one is chance.
#[verifier::external_body]
pub(crate) fn random_below(bound: u64) -> (n: u64)
    requires
        bound > 0,
    ensures
        n < bound,
{
    rand::Rng::gen_range(&mut rand::thread_rng(), 0..bound)
}

/// What `str::to_uppercase` makes of a text.
pub uninterp spec fn uppercase(text: Seq<char>) -> Seq<char>;

/// An ASCII small letter as a capital; any other character as it is.
pub open spec fn upper_char(c: char) -> char {
    if 'a' <= c <= 'z' {
        (c as u8 - 32) as char
    } else {
        c
    }
}

/// Calls `str::to_uppercase`. The result depends on the text alone, and in ASCII text it is each
/// letter as a capital. What becomes of other letters is left to the name.
#[verifier::external_body]
pub(crate) fn to_uppercase(text: &str) -> (upper: String)
    ensures
        upper@ == uppercase(text@),
        is_ascii_chars(text@) ==> upper@ == text@.map_values(|c: char| upper_char(c)),
{
    text.to_uppercase()
}

} // verus!
