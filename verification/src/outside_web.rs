//! Encodings, digests, patterns and the clock. The contracts here are believed, not proved.

use crate::outside::{lossy_text, utf8_fault};
use crate::text::pairs_of;
use base64::Engine;
use md5::Digest;
use vstd::prelude::*;
use vstd::utf8::{decode_utf8, encode_utf8, valid_utf8};

verus! {

// ---------------------------------------------------------------------------
// Percent encoding
// ---------------------------------------------------------------------------

/// A byte that stands for itself.
pub open spec fn is_unreserved(byte: u8) -> bool {
    ||| '0' as u8 <= byte <= '9' as u8
    ||| 'A' as u8 <= byte <= 'Z' as u8
    ||| 'a' as u8 <= byte <= 'z' as u8
    ||| byte == '-' as u8 || byte == '.' as u8 || byte == '_' as u8 || byte == '~' as u8
}

/// A digit of sixteen, in capitals.
pub open spec fn hex_digit(d: int) -> char {
    if d < 10 {
        ('0' as u8 + d) as char
    } else {
        ('A' as u8 + d - 10) as char
    }
}

/// One byte, escaped where it does not stand for itself.
pub open spec fn escaped(byte: u8) -> Seq<char> {
    if is_unreserved(byte) {
        seq![byte as char]
    } else {
        seq!['%', hex_digit(byte as int / 16), hex_digit(byte as int % 16)]
    }
}

/// Bytes, each escaped where it does not stand for itself.
pub open spec fn percent_encoded(bytes: Seq<u8>) -> Seq<char>
    decreases bytes.len(),
{
    if bytes.len() == 0 {
        Seq::empty()
    } else {
        escaped(bytes[0]) + percent_encoded(bytes.skip(1))
    }
}

/// The value of a digit of sixteen.
pub open spec fn hex_value(byte: u8) -> Option<int> {
    if '0' as u8 <= byte <= '9' as u8 {
        Some(byte - '0' as u8)
    } else if 'A' as u8 <= byte <= 'F' as u8 {
        Some(byte - 'A' as u8 + 10)
    } else if 'a' as u8 <= byte <= 'f' as u8 {
        Some(byte - 'a' as u8 + 10)
    } else {
        None
    }
}

/// Bytes, each escape in its place; a mark without two digits behind it stands for itself.
pub open spec fn percent_decoded(bytes: Seq<u8>) -> Seq<u8>
    decreases bytes.len(),
{
    if bytes.len() == 0 {
        Seq::empty()
    } else if bytes.len() >= 3 && bytes[0] == '%' as u8 && hex_value(bytes[1]) is Some && hex_value(
        bytes[2],
    ) is Some {
        seq![(hex_value(bytes[1])->0 * 16 + hex_value(bytes[2])->0) as u8] + percent_decoded(
            bytes.skip(3),
        )
    } else {
        seq![bytes[0]] + percent_decoded(bytes.skip(1))
    }
}

/// Calls `urlencoding::encode`, which escapes every byte but letters, digits and `-._~`.
#[verifier::external_body]
pub(crate) fn percent_encode(text: &str) -> (encoded: String)
    ensures
        encoded@ == percent_encoded(encode_utf8(text@)),
{
    urlencoding::encode(text).into_owned()
}

/// Calls `urlencoding::decode`, which undoes the escapes and fails where what comes out is not
/// UTF-8, with the error of `String::from_utf8`.
#[verifier::external_body]
pub(crate) fn percent_decode(text: &str) -> (decoded: Result<String, String>)
    ensures
        decoded is Ok == valid_utf8(percent_decoded(encode_utf8(text@))),
        match decoded {
            Ok(t) => t@ == decode_utf8(percent_decoded(encode_utf8(text@))),
            Err(e) => e@ == utf8_fault(percent_decoded(encode_utf8(text@))),
        },
{
    match urlencoding::decode(text) {
        Ok(text) => Ok(text.into_owned()),
        Err(e) => Err(e.to_string()),
    }
}

// ---------------------------------------------------------------------------
// Queries, base64 and MD5
// ---------------------------------------------------------------------------

/// Where `byte` first stands, or the length where it does not.
pub open spec fn first_of(bytes: Seq<u8>, byte: u8) -> int
    decreases bytes.len(),
{
    if bytes.len() == 0 || bytes[0] == byte {
        0
    } else {
        1 + first_of(bytes.skip(1), byte)
    }
}

/// A part of a query as text: a plus is a space, escapes are undone, and what is then not UTF-8 is
/// repaired.
pub open spec fn query_text(part: Seq<u8>) -> Seq<char> {
    lossy_text(percent_decoded(part.map_values(|b: u8| if b == '+' as u8 { ' ' as u8 } else { b })))
}

/// A pair of a query: its name up to the first equals sign, and its value behind it.
pub open spec fn query_pair(part: Seq<u8>) -> (Seq<char>, Seq<char>) {
    let at = first_of(part, '=' as u8);
    (
        query_text(part.take(at)),
        if at < part.len() {
            query_text(part.skip(at + 1))
        } else {
            query_text(Seq::empty())
        },
    )
}

/// The pairs of a query, which stand between ampersands. Between two with nothing between them
/// there is no pair.
pub open spec fn query_pairs(bytes: Seq<u8>) -> Seq<(Seq<char>, Seq<char>)>
    decreases bytes.len(),
{
    let at = first_of(bytes, '&' as u8);
    let rest = if 0 <= at < bytes.len() {
        query_pairs(bytes.skip(at + 1))
    } else {
        Seq::empty()
    };
    if at == 0 {
        rest
    } else {
        seq![query_pair(bytes.take(at))] + rest
    }
}

/// Calls `serde_urlencoded::from_str` for the pairs of a query, in their order. For pairs of
/// texts it never fails: every part between ampersands is a pair.
#[verifier::external_body]
pub(crate) fn read_query(text: &str) -> (pairs: Result<Vec<(String, String)>, String>)
    ensures
        pairs is Ok,
        pairs_of(pairs->Ok_0@) == query_pairs(encode_utf8(text@)),
{
    serde_urlencoded::from_str::<Vec<(String, String)>>(text).map_err(|e| e.to_string())
}

/// What base64 decoding with the standard alphabet and padding makes of a text's bytes: the
/// bytes it encodes, or the error's text.
pub uninterp spec fn base64_read(bytes: Seq<u8>) -> Result<Seq<u8>, Seq<char>>;

/// Calls `Engine::decode` of `base64::engine::general_purpose::STANDARD`. The result depends on
/// the bytes alone. Which bytes are base64, and what they encode, is left to the name.
#[verifier::external_body]
pub(crate) fn base64_decode(bytes: &[u8]) -> (decoded: Result<Vec<u8>, String>)
    ensures
        match decoded {
            Ok(b) => base64_read(bytes@) == Ok::<Seq<u8>, Seq<char>>(b@),
            Err(e) => base64_read(bytes@) == Err::<Seq<u8>, Seq<char>>(e@),
        },
{
    base64::engine::general_purpose::STANDARD.decode(bytes).map_err(|e| e.to_string())
}

/// The MD5 digest of bytes, in lower-case hexadecimal.
pub uninterp spec fn md5_of(bytes: Seq<u8>) -> Seq<char>;

/// Calls `Md5::digest` and writes the digest in hexadecimal: 32 digits that depend on the bytes
/// alone. Which ones is left to the name.
#[verifier::external_body]
pub(crate) fn md5_digest(bytes: &[u8]) -> (digest: String)
    ensures
        digest@ == md5_of(bytes@),
        digest@.len() == 32,
        forall|i: int|
            0 <= i < 32 ==> '0' <= #[trigger] digest@[i] <= '9' || 'a' <= digest@[i] <= 'f',
{
    format!("{:x}", md5::Md5::digest(bytes))
}

// ---------------------------------------------------------------------------
// Patterns
// ---------------------------------------------------------------------------

/// Whether `Regex::is_match` finds `pattern` in `text`; nothing where it is no pattern.
pub uninterp spec fn pattern_found(pattern: Seq<char>, text: Seq<char>) -> Option<bool>;

/// Calls `Regex::is_match`. The result depends on the two texts alone. What a pattern matches is
/// left to the name.
#[verifier::external_body]
pub(crate) fn regex_is_match(pattern: &str, text: &str) -> (found: Option<bool>)
    ensures
        found == pattern_found(pattern@, text@),
{
    match regex::Regex::new(pattern) {
        Ok(re) => Some(re.is_match(text)),
        Err(_) => None,
    }
}

/// The text behind the first match that `Regex::find` finds; nothing where there is none or
/// `pattern` is no pattern.
pub uninterp spec fn behind_pattern(pattern: Seq<char>, text: Seq<char>) -> Option<Seq<char>>;

/// Calls `Regex::find` and returns what stands behind the match. The result depends on the two
/// texts alone, and is the text from some place on. What a pattern matches is left to the name.
#[verifier::external_body]
pub(crate) fn regex_rest(pattern: &str, text: &str) -> (rest: Option<String>)
    ensures
        match rest {
            Some(r) => behind_pattern(pattern@, text@) == Some(r@),
            None => behind_pattern(pattern@, text@) is None,
        },
        rest matches Some(r) ==> r@.len() <= text@.len() && r@ == text@.skip(
            text@.len() - r@.len(),
        ),
{
    match regex::Regex::new(pattern) {
        Ok(re) => re.find(text).map(|found| text[found.end()..].to_string()),
        Err(_) => None,
    }
}

/// The first group of the first match that `Regex::captures` finds; nothing where there is none
/// or `pattern` is no pattern.
pub uninterp spec fn captured(pattern: Seq<char>, text: Seq<char>) -> Option<Seq<char>>;

/// Calls `Regex::captures` and returns the first group. The result depends on the two texts
/// alone. What a pattern matches is left to the name.
#[verifier::external_body]
pub(crate) fn regex_capture(pattern: &str, text: &str) -> (group: Option<String>)
    ensures
        match group {
            Some(g) => captured(pattern@, text@) == Some(g@),
            None => captured(pattern@, text@) is None,
        },
{
    match regex::Regex::new(pattern) {
        Ok(re) => re.captures(text).and_then(|c| c.get(1)).map(|m| m.as_str().to_string()),
        Err(_) => None,
    }
}

// ---------------------------------------------------------------------------
// The clock
// ---------------------------------------------------------------------------

/// Calls `SystemTime::duration_since` on the present time and the Unix epoch. The result is the
/// nanoseconds between them, of which there are no more than a span can hold, or the text of an
/// error. Which one is the machine's clock.
#[verifier::external_body]
pub(crate) fn nanos_since_epoch() -> (nanos: Result<u128, String>)
    ensures
        nanos matches Ok(n) ==> n <= crate::time::MAX_DURATION_NANOS,
{
    match std::time::SystemTime::now().duration_since(std::time::UNIX_EPOCH) {
        Ok(span) => Ok(span.as_nanos()),
        Err(e) => Err(e.to_string()),
    }
}

} // verus!
