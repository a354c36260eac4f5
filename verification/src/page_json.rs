//! Finding JSON values in the text of a page.

use crate::json::{Json, JsonData};
use crate::live::{tells, LiveError};
use crate::outside_json::{json_read, read_json};
use crate::outside_web::{behind_pattern, regex_rest};
use crate::text::{chars_of, cut_at, find, find_from, find_is_first, string_of, trim, trimmed, up_to};
use vstd::prelude::*;
use vstd::slice::slice_subrange;
use vstd::utf8::{decode_utf8, encode_utf8, is_char_boundary, is_continuation_byte};

verus! {

// ---------------------------------------------------------------------------
// The end of a value
// ---------------------------------------------------------------------------

/// The white space of ASCII.
pub open spec fn is_space(byte: u8) -> bool {
    byte == 0x20 || byte == 0x09 || byte == 0x0a || byte == 0x0c || byte == 0x0d
}

/// The first place from `i` on that is no white space.
pub open spec fn behind_spaces(bytes: Seq<u8>, i: int) -> int
    decreases bytes.len() - i,
{
    if 0 <= i < bytes.len() && is_space(bytes[i]) {
        behind_spaces(bytes, i + 1)
    } else {
        i
    }
}

/// The bracket that closes what a bracket opens.
pub open spec fn closing_of(opening: u8) -> Option<u8> {
    if opening == 0x7b {
        Some(0x7d)
    } else if opening == 0x5b {
        Some(0x5d)
    } else {
        None
    }
}

/// Where a scan of a value stands: how many brackets are open, and whether it is in a string and
/// behind a backslash.
pub struct Scan {
    pub depth: nat,
    pub in_string: bool,
    pub escaped: bool,
}

/// The scan behind a byte in a string.
pub open spec fn in_string_after(scan: Scan, byte: u8) -> Scan {
    if scan.escaped {
        Scan { escaped: false, ..scan }
    } else if byte == 0x5c {
        Scan { escaped: true, ..scan }
    } else if byte == 0x22 {
        Scan { in_string: false, ..scan }
    } else {
        scan
    }
}

/// Where the value ends that a scan from `i` on is in: behind the `closing` bracket that leaves
/// none open. Brackets in strings do not count.
pub open spec fn scanned(bytes: Seq<u8>, i: int, scan: Scan, closing: u8) -> Option<int>
    decreases bytes.len() - i,
{
    if i < 0 || i >= bytes.len() {
        None
    } else if scan.in_string {
        scanned(bytes, i + 1, in_string_after(scan, bytes[i]), closing)
    } else if bytes[i] == 0x22 {
        scanned(bytes, i + 1, Scan { in_string: true, ..scan }, closing)
    } else if bytes[i] == 0x7b || bytes[i] == 0x5b {
        scanned(bytes, i + 1, Scan { depth: scan.depth + 1, ..scan }, closing)
    } else if bytes[i] == 0x7d || bytes[i] == 0x5d {
        if scan.depth == 0 {
            None
        } else if scan.depth == 1 && bytes[i] == closing {
            Some(i + 1)
        } else {
            scanned(bytes, i + 1, Scan { depth: (scan.depth - 1) as nat, ..scan }, closing)
        }
    } else {
        scanned(bytes, i + 1, scan, closing)
    }
}

/// A scan at the beginning of a value.
pub open spec fn fresh_scan() -> Scan {
    Scan { depth: 0, in_string: false, escaped: false }
}

/// Where the object or array ends that begins at `start`, white space aside.
pub open spec fn value_end(bytes: Seq<u8>, start: int) -> Option<int> {
    let i = behind_spaces(bytes, start);
    if i < 0 || i >= bytes.len() {
        None
    } else {
        match closing_of(bytes[i]) {
            Some(closing) => scanned(bytes, i, fresh_scan(), closing),
            None => None,
        }
    }
}

/// An end that was found lies right behind the closing bracket.
proof fn scanned_ends_at_bracket(bytes: Seq<u8>, i: int, scan: Scan, closing: u8)
    requires
        0 <= i,
    ensures
        scanned(bytes, i, scan, closing) matches Some(end) ==> i < end <= bytes.len() && bytes[end
            - 1] == closing,
    decreases bytes.len() - i,
{
    if i < bytes.len() {
        if scan.in_string {
            scanned_ends_at_bracket(bytes, i + 1, in_string_after(scan, bytes[i]), closing);
        } else if bytes[i] == 0x22 {
            scanned_ends_at_bracket(bytes, i + 1, Scan { in_string: true, ..scan }, closing);
        } else if bytes[i] == 0x7b || bytes[i] == 0x5b {
            scanned_ends_at_bracket(
                bytes,
                i + 1,
                Scan { depth: scan.depth + 1, ..scan },
                closing,
            );
        } else if bytes[i] == 0x7d || bytes[i] == 0x5d {
            if scan.depth > 0 && !(scan.depth == 1 && bytes[i] == closing) {
                scanned_ends_at_bracket(
                    bytes,
                    i + 1,
                    Scan { depth: (scan.depth - 1) as nat, ..scan },
                    closing,
                );
            }
        } else {
            scanned_ends_at_bracket(bytes, i + 1, scan, closing);
        }
    }
}

proof fn behind_spaces_bounds(bytes: Seq<u8>, i: int)
    requires
        0 <= i,
    ensures
        i <= behind_spaces(bytes, i),
    decreases bytes.len() - i,
{
    if i < bytes.len() && is_space(bytes[i]) {
        behind_spaces_bounds(bytes, i + 1);
    }
}

/// An end that was found lies behind a bracket, within the text.
pub proof fn value_ends_at_bracket(bytes: Seq<u8>, start: int)
    requires
        0 <= start,
    ensures
        value_end(bytes, start) matches Some(end) ==> start < end <= bytes.len() && (bytes[end - 1]
            == 0x7d || bytes[end - 1] == 0x5d),
{
    behind_spaces_bounds(bytes, start);
    let i = behind_spaces(bytes, start);
    if i < bytes.len() && closing_of(bytes[i]) is Some {
        scanned_ends_at_bracket(bytes, i, fresh_scan(), closing_of(bytes[i])->0);
    }
}

proof fn scanned_ignores_rest(
    bytes: Seq<u8>,
    rest: Seq<u8>,
    i: int,
    scan: Scan,
    closing: u8,
    end: int,
)
    requires
        0 <= i,
        scanned(bytes, i, scan, closing) == Some(end),
    ensures
        scanned(bytes.take(end) + rest, i, scan, closing) == Some(end),
    decreases bytes.len() - i,
{
    scanned_ends_at_bracket(bytes, i, scan, closing);
    let other = bytes.take(end) + rest;
    assert(other[i] == bytes[i]);
    if scan.in_string {
        scanned_ignores_rest(
            bytes,
            rest,
            i + 1,
            in_string_after(scan, bytes[i]),
            closing,
            end,
        );
    } else if bytes[i] == 0x22 {
        scanned_ignores_rest(
            bytes,
            rest,
            i + 1,
            Scan { in_string: true, ..scan },
            closing,
            end,
        );
    } else if bytes[i] == 0x7b || bytes[i] == 0x5b {
        scanned_ignores_rest(
            bytes,
            rest,
            i + 1,
            Scan { depth: scan.depth + 1, ..scan },
            closing,
            end,
        );
    } else if bytes[i] == 0x7d || bytes[i] == 0x5d {
        if !(scan.depth == 1 && bytes[i] == closing) {
            scanned_ignores_rest(
                bytes,
                rest,
                i + 1,
                Scan { depth: (scan.depth - 1) as nat, ..scan },
                closing,
                end,
            );
        }
    } else {
        scanned_ignores_rest(bytes, rest, i + 1, scan, closing, end);
    }
}

proof fn behind_spaces_ignores_rest(bytes: Seq<u8>, rest: Seq<u8>, i: int, end: int)
    requires
        0 <= i,
        behind_spaces(bytes, i) < end <= bytes.len(),
    ensures
        behind_spaces(bytes.take(end) + rest, i) == behind_spaces(bytes, i),
    decreases bytes.len() - i,
{
    behind_spaces_bounds(bytes, i);
    let other = bytes.take(end) + rest;
    assert(other[i] == bytes[i]);
    if is_space(bytes[i]) {
        behind_spaces_ignores_rest(bytes, rest, i + 1, end);
    }
}

/// Where a value ends does not depend on what follows it.
pub proof fn value_end_ignores_rest(bytes: Seq<u8>, rest: Seq<u8>, start: int, end: int)
    requires
        0 <= start,
        value_end(bytes, start) == Some(end),
    ensures
        value_end(bytes.take(end) + rest, start) == Some(end),
{
    let i = behind_spaces(bytes, start);
    behind_spaces_bounds(bytes, start);
    let closing = closing_of(bytes[i])->0;
    scanned_ends_at_bracket(bytes, i, fresh_scan(), closing);
    behind_spaces_ignores_rest(bytes, rest, start, end);
    assert((bytes.take(end) + rest)[i] == bytes[i]);
    scanned_ignores_rest(bytes, rest, i, fresh_scan(), closing, end);
}

/// Finds where the object or array ends that begins at `start`, white space aside.
pub fn find_json_value_end(input: &str, start: usize) -> (end: Option<usize>)
    ensures
        value_end(encode_utf8(input@), start as int) == match end {
            Some(n) => Some(n as int),
            None => None,
        },
{
    let bytes: &[u8] = input.as_bytes();
    let mut i: usize = start;
    while i < bytes.len() && (bytes[i] == 0x20 || bytes[i] == 0x09 || bytes[i] == 0x0a || bytes[i]
        == 0x0c || bytes[i] == 0x0d)
        invariant
            behind_spaces(bytes@, start as int) == behind_spaces(bytes@, i as int),
        decreases bytes.len() - i,
    {
        i += 1;
    }
    if i >= bytes.len() {
        return None;
    }
    let closing: u8 = match bytes[i] {
        0x7b => 0x7d,
        0x5b => 0x5d,
        _ => return None,
    };
    let mut depth: usize = 0;
    let mut in_string: bool = false;
    let mut escaped: bool = false;
    let ghost whole = scanned(bytes@, i as int, fresh_scan(), closing);
    while i < bytes.len()
        invariant
            i <= bytes.len(),
            depth <= i,
            bytes@ == encode_utf8(input@),
            whole == value_end(bytes@, start as int),
            whole == scanned(
                bytes@,
                i as int,
                Scan { depth: depth as nat, in_string, escaped },
                closing,
            ),
        decreases bytes.len() - i,
    {
        let byte: u8 = bytes[i];
        if in_string {
            if escaped {
                escaped = false;
            } else if byte == 0x5c {
                escaped = true;
            } else if byte == 0x22 {
                in_string = false;
            }
        } else if byte == 0x22 {
            in_string = true;
        } else if byte == 0x7b || byte == 0x5b {
            depth = depth + 1;
        } else if byte == 0x7d || byte == 0x5d {
            if depth == 0 {
                return None;
            }
            depth = depth - 1;
            if depth == 0 && byte == closing {
                return Some(i + 1);
            }
        }
        i += 1;
    }
    None
}

// ---------------------------------------------------------------------------
// Values in a page
// ---------------------------------------------------------------------------

/// A place right behind an ASCII byte is one where a text can be cut.
proof fn boundary_behind_ascii(bytes: Seq<u8>, end: int)
    requires
        vstd::utf8::valid_utf8(bytes),
        0 < end <= bytes.len(),
        bytes[end - 1] < 0x80,
    ensures
        is_char_boundary(bytes, end),
    decreases bytes.len(),
{
    if end == bytes.len() {
        vstd::utf8::is_char_boundary_start_end_of_seq(bytes);
    } else {
        let first = vstd::utf8::length_of_first_scalar(bytes);
        let rest = vstd::utf8::pop_first_scalar(bytes);
        if end > first {
            assert(rest[end - first - 1] == bytes[end - 1]);
            boundary_behind_ascii(rest, end - first);
        } else {
            assert(end == first) by {
                if end < first {
                    if end > 1 {
                        assert(is_continuation_byte(bytes[end - 1]));
                    }
                }
            }
            assert(is_char_boundary(rest, 0));
        }
    }
}

/// The text of the value that follows the mark `stream: `, by its bytes.
pub open spec fn is_stream_text(page: Seq<char>, text: Seq<char>) -> bool {
    find(page, "stream: "@, 0) matches Some(i) && {
        let rest = encode_utf8(page.skip(i + "stream: "@.len()));
        value_end(rest, 0) matches Some(end) && text == trimmed(decode_utf8(rest.take(end)))
    }
}

/// Cuts the value out of a page that follows the mark `stream: `.
pub fn cut_stream_text(page: &str) -> (text: Result<String, LiveError>)
    ensures
        match find(page@, "stream: "@, 0) {
            None => text is Err && tells(text->Err_0, "虎牙流数据不存在"@),
            Some(i) => if value_end(encode_utf8(page@.skip(i + "stream: "@.len())), 0) is None {
                text is Err && tells(text->Err_0, "虎牙流数据不完整"@)
            } else {
                text is Ok && is_stream_text(page@, text->Ok_0@)
            },
        },
{
    let chars: Vec<char> = chars_of(page);
    let mark: Vec<char> = chars_of("stream: ");
    proof {
        find_is_first(chars@, mark@, 0);
    }
    let at: usize = match find_from(chars.as_slice(), mark.as_slice(), 0) {
        Some(at) => at,
        None => return Err(LiveError::custom("虎牙流数据不存在")),
    };
    assert(at + mark.len() <= chars.len());
    let behind: usize = at + mark.len();
    let rest: String = string_of(slice_subrange(chars.as_slice(), behind, chars.len()));
    assert(rest@ =~= page@.skip(behind as int));
    let end: usize = match find_json_value_end(rest.as_str(), 0) {
        Some(end) => end,
        None => return Err(LiveError::custom("虎牙流数据不完整")),
    };
    let ghost bytes = encode_utf8(rest@);
    proof {
        vstd::utf8::encode_utf8_valid_utf8(rest@);
        value_ends_at_bracket(bytes, 0);
        boundary_behind_ascii(bytes, end as int);
    }
    let (front, _) = rest.as_str().split_at(end);
    let text: String = trim(front);
    proof {
        assert(encode_utf8(front@) =~= bytes.take(end as int));
        vstd::utf8::encode_utf8_decode_utf8(front@);
    }
    Ok(text)
}

/// The text between a pattern and the first `end` behind it.
pub open spec fn text_after(page: Seq<char>, pattern: Seq<char>, end: char) -> Option<
    Result<Seq<char>, ()>,
> {
    match behind_pattern(pattern, page) {
        None => None,
        Some(rest) => if rest.contains(end) {
            Some(Ok(trimmed(up_to(rest, end))))
        } else {
            Some(Err(()))
        },
    }
}

/// Cuts the text up to the first `end` out of what stands behind a match.
pub fn cut_value(rest: &str, end: char) -> (text: Result<String, LiveError>)
    ensures
        rest@.contains(end) ==> text is Ok && text->Ok_0@ == trimmed(up_to(rest@, end)),
        !rest@.contains(end) ==> text is Err && tells(text->Err_0, "虎牙房间数据不完整"@),
{
    let chars: Vec<char> = chars_of(rest);
    let mut i: usize = 0;
    while i < chars.len()
        invariant
            i <= chars.len(),
            chars@ == rest@,
            forall|k: int| 0 <= k < i ==> rest@[k] != end,
        decreases chars.len() - i,
    {
        if chars[i] == end {
            let front: String = cut_at(rest, end);
            return Ok(trim(front.as_str()));
        }
        i += 1;
    }
    Err(LiveError::custom("虎牙房间数据不完整"))
}

/// Cuts the text between a pattern and the first `end` behind it out of a page.
pub fn cut_text_after(page: &str, pattern: &str, end: char) -> (text: Result<String, LiveError>)
    ensures
        match text_after(page@, pattern@, end) {
            None => text is Err && tells(text->Err_0, "虎牙房间数据不存在"@),
            Some(Err(_)) => text is Err && tells(text->Err_0, "虎牙房间数据不完整"@),
            Some(Ok(value)) => text is Ok && text->Ok_0@ == value,
        },
{
    match regex_rest(pattern, page) {
        None => Err(LiveError::custom("虎牙房间数据不存在")),
        Some(rest) => cut_value(rest.as_str(), end),
    }
}

/// Reads the value between a pattern and the first `end` behind it out of a page.
pub fn extract_json_after(page: &str, pattern: &str, end: char) -> (value: Result<Json, LiveError>)
    ensures
        match text_after(page@, pattern@, end) {
            None => value is Err && tells(value->Err_0, "虎牙房间数据不存在"@),
            Some(Err(_)) => value is Err && tells(value->Err_0, "虎牙房间数据不完整"@),
            Some(Ok(text)) => match json_read(text) {
                Ok(v) => value is Ok && value->Ok_0@ == v,
                Err(e) => value is Err && tells(value->Err_0, "解析虎牙房间数据失败: "@ + e),
            },
        },
{
    let text: String = match cut_text_after(page, pattern, end) {
        Ok(text) => text,
        Err(error) => return Err(error),
    };
    match read_json(text.as_str()) {
        Ok(value) => Ok(value),
        Err(e) => Err(LiveError::because("解析虎牙房间数据失败: ", e.as_str())),
    }
}

/// What the value that follows the mark `stream: ` in a page is, or the text of the error.
pub open spec fn stream_value(page: Seq<char>) -> Result<JsonData, Seq<char>> {
    match find(page, "stream: "@, 0) {
        None => Err("虎牙流数据不存在"@),
        Some(i) => {
            let rest = encode_utf8(page.skip(i + "stream: "@.len()));
            match value_end(rest, 0) {
                None => Err("虎牙流数据不完整"@),
                Some(end) => match json_read(trimmed(decode_utf8(rest.take(end)))) {
                    Ok(value) => Ok(value),
                    Err(e) => Err("解析虎牙流数据失败: "@ + e),
                },
            }
        },
    }
}

/// Reads the value out of a page that follows the mark `stream: `.
pub fn extract_stream_json(page: &str) -> (value: Result<Json, LiveError>)
    ensures
        match stream_value(page@) {
            Ok(v) => value is Ok && value->Ok_0@ == v,
            Err(text) => value is Err && tells(value->Err_0, text),
        },
{
    let text: String = match cut_stream_text(page) {
        Ok(text) => text,
        Err(error) => return Err(error),
    };
    match read_json(text.as_str()) {
        Ok(value) => Ok(value),
        Err(e) => Err(LiveError::because("解析虎牙流数据失败: ", e.as_str())),
    }
}

} // verus!
