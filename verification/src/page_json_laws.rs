//! What holds of the values that are cut out of pages.

use crate::json::JsonData;
use crate::outside_json::json_read;
use crate::outside_web::behind_pattern;
use crate::page_json::{behind_spaces, closing_of, fresh_scan, in_string_after, is_space, scanned, stream_value, text_after, value_end, Scan};
use crate::text::{find, find_is_first, occurs_at, trimmed, up_to};
use crate::text_laws::up_to_stops_at_the_mark;
use vstd::prelude::*;
use vstd::utf8::encode_utf8;

verus! {

// ---------------------------------------------------------------------------
// The end of a value
// ---------------------------------------------------------------------------

/// One character of a string: itself, or what stands behind a backslash.
pub enum Unit {
    Itself(u8),
    Escaped(u8),
}

/// A part of the inside of an object or an array.
pub enum Piece {
    /// A byte that is neither a quote nor a bracket.
    Other(u8),
    /// A string, whatever it holds.
    Quoted(Seq<Unit>),
    /// An object within.
    Object(Seq<Piece>),
    /// An array within.
    Array(Seq<Piece>),
}

/// The bytes of the characters of a string.
pub open spec fn units_bytes(units: Seq<Unit>) -> Seq<u8>
    decreases units,
{
    if units.len() == 0 {
        Seq::empty()
    } else {
        (match units[0] {
            Unit::Itself(byte) => seq![byte],
            Unit::Escaped(byte) => seq!['\\' as u8, byte],
        }) + units_bytes(units.skip(1))
    }
}

/// Neither a quote nor a backslash stands for itself in a string.
pub open spec fn units_proper(units: Seq<Unit>) -> bool
    decreases units,
{
    units.len() > 0 ==> (units[0] matches Unit::Itself(byte) ==> byte != '"' as u8 && byte
        != '\\' as u8) && units_proper(units.skip(1))
}

/// The bytes of one part.
pub open spec fn piece_bytes(piece: Piece) -> Seq<u8>
    decreases piece,
{
    match piece {
        Piece::Other(byte) => seq![byte],
        Piece::Quoted(units) => seq!['"' as u8] + units_bytes(units) + seq!['"' as u8],
        Piece::Object(inner) => seq!['{' as u8] + pieces_bytes(inner) + seq!['}' as u8],
        Piece::Array(inner) => seq!['[' as u8] + pieces_bytes(inner) + seq![']' as u8],
    }
}

/// The bytes of parts, one behind the other.
pub open spec fn pieces_bytes(pieces: Seq<Piece>) -> Seq<u8>
    decreases pieces,
{
    if pieces.len() == 0 {
        Seq::empty()
    } else {
        piece_bytes(pieces[0]) + pieces_bytes(pieces.skip(1))
    }
}

/// A byte outside strings that is neither a quote nor a bracket.
pub open spec fn is_other(byte: u8) -> bool {
    &&& byte != '"' as u8
    &&& byte != '{' as u8 && byte != '}' as u8
    &&& byte != '[' as u8 && byte != ']' as u8
}

/// The part is what it says.
pub open spec fn piece_proper(piece: Piece) -> bool
    decreases piece,
{
    match piece {
        Piece::Other(byte) => is_other(byte),
        Piece::Quoted(units) => units_proper(units),
        Piece::Object(inner) => pieces_proper(inner),
        Piece::Array(inner) => pieces_proper(inner),
    }
}

/// Every part is what it says.
pub open spec fn pieces_proper(pieces: Seq<Piece>) -> bool
    decreases pieces,
{
    pieces.len() > 0 ==> piece_proper(pieces[0]) && pieces_proper(pieces.skip(1))
}

/// `part` stands in `bytes` at `i`.
spec fn stands(bytes: Seq<u8>, i: int, part: Seq<u8>) -> bool {
    &&& 0 <= i
    &&& i + part.len() <= bytes.len()
    &&& bytes.subrange(i, i + part.len()) == part
}

proof fn parts_stand(bytes: Seq<u8>, i: int, first: Seq<u8>, second: Seq<u8>)
    requires
        stands(bytes, i, first + second),
    ensures
        stands(bytes, i, first),
        stands(bytes, i + first.len(), second),
{
    let whole = bytes.subrange(i, i + (first + second).len());
    assert(whole.subrange(0, first.len() as int) =~= first);
    assert(whole.subrange(0, first.len() as int) =~= bytes.subrange(i, i + first.len()));
    assert(whole.skip(first.len() as int) =~= second);
    assert(whole.skip(first.len() as int) =~= bytes.subrange(
        i + first.len(),
        i + first.len() + second.len(),
    ));
}

proof fn units_are_passed(bytes: Seq<u8>, i: int, units: Seq<Unit>, depth: nat, closing: u8)
    requires
        stands(bytes, i, units_bytes(units)),
        units_proper(units),
    ensures
        scanned(bytes, i, Scan { depth, in_string: true, escaped: false }, closing) == scanned(
            bytes,
            i + units_bytes(units).len(),
            Scan { depth, in_string: true, escaped: false },
            closing,
        ),
    decreases units,
{
    if units.len() > 0 {
        let rest = units.skip(1);
        let scan = Scan { depth, in_string: true, escaped: false };
        match units[0] {
            Unit::Itself(byte) => {
                parts_stand(bytes, i, seq![byte], units_bytes(rest));
                assert(bytes.subrange(i, i + 1)[0] == bytes[i]);
                assert(in_string_after(scan, bytes[i]) == scan);
                units_are_passed(bytes, i + 1, rest, depth, closing);
            },
            Unit::Escaped(byte) => {
                parts_stand(bytes, i, seq!['\\' as u8, byte], units_bytes(rest));
                let two = bytes.subrange(i, i + 2);
                assert(two[0] == bytes[i] && two[1] == bytes[i + 1]);
                let behind = Scan { escaped: true, ..scan };
                assert(in_string_after(scan, bytes[i]) == behind);
                assert(in_string_after(behind, bytes[i + 1]) == scan);
                assert(scanned(bytes, i, scan, closing) == scanned(bytes, i + 1, behind, closing));
                assert(scanned(bytes, i + 1, behind, closing) == scanned(
                    bytes,
                    i + 2,
                    scan,
                    closing,
                ));
                units_are_passed(bytes, i + 2, rest, depth, closing);
            },
        }
    }
}

proof fn piece_is_passed(bytes: Seq<u8>, i: int, piece: Piece, depth: nat, closing: u8)
    requires
        stands(bytes, i, piece_bytes(piece)),
        piece_proper(piece),
        depth >= 1,
    ensures
        scanned(bytes, i, Scan { depth, in_string: false, escaped: false }, closing) == scanned(
            bytes,
            i + piece_bytes(piece).len(),
            Scan { depth, in_string: false, escaped: false },
            closing,
        ),
    decreases piece, 0nat,
{
    let scan = Scan { depth, in_string: false, escaped: false };
    let part = piece_bytes(piece);
    assert(bytes.subrange(i, i + part.len())[0] == bytes[i]);
    match piece {
        Piece::Other(byte) => {},
        Piece::Quoted(units) => {
            let inner = units_bytes(units);
            parts_stand(bytes, i, seq!['"' as u8] + inner, seq!['"' as u8]);
            parts_stand(bytes, i, seq!['"' as u8], inner);
            units_are_passed(bytes, i + 1, units, depth, closing);
            let end = i + 1 + inner.len();
            assert(bytes.subrange(end, end + 1)[0] == bytes[end]);
            let within = Scan { in_string: true, ..scan };
            assert(in_string_after(within, bytes[end]) == scan);
            assert(scanned(bytes, end, within, closing) == scanned(bytes, end + 1, scan, closing));
        },
        Piece::Object(inner) => {
            nest_is_passed(bytes, i, inner, '{' as u8, '}' as u8, depth, closing);
        },
        Piece::Array(inner) => {
            nest_is_passed(bytes, i, inner, '[' as u8, ']' as u8, depth, closing);
        },
    }
}

proof fn nest_is_passed(
    bytes: Seq<u8>,
    i: int,
    inner: Seq<Piece>,
    open: u8,
    close: u8,
    depth: nat,
    closing: u8,
)
    requires
        stands(bytes, i, seq![open] + pieces_bytes(inner) + seq![close]),
        pieces_proper(inner),
        depth >= 1,
        open == '{' as u8 && close == '}' as u8 || open == '[' as u8 && close == ']' as u8,
    ensures
        scanned(bytes, i, Scan { depth, in_string: false, escaped: false }, closing) == scanned(
            bytes,
            i + 2 + pieces_bytes(inner).len(),
            Scan { depth, in_string: false, escaped: false },
            closing,
        ),
    decreases inner, 1nat,
{
    let scan = Scan { depth, in_string: false, escaped: false };
    let deeper = Scan { depth: depth + 1, ..scan };
    let part = pieces_bytes(inner);
    parts_stand(bytes, i, seq![open] + part, seq![close]);
    parts_stand(bytes, i, seq![open], part);
    assert(bytes.subrange(i, i + 1)[0] == bytes[i]);
    assert(scanned(bytes, i, scan, closing) == scanned(bytes, i + 1, deeper, closing));
    pieces_are_passed(bytes, i + 1, inner, depth + 1, closing);
    let end = i + 1 + part.len();
    assert(bytes.subrange(end, end + 1)[0] == bytes[end]);
    assert(scanned(bytes, end, deeper, closing) == scanned(bytes, end + 1, scan, closing));
}

proof fn pieces_are_passed(bytes: Seq<u8>, i: int, pieces: Seq<Piece>, depth: nat, closing: u8)
    requires
        stands(bytes, i, pieces_bytes(pieces)),
        pieces_proper(pieces),
        depth >= 1,
    ensures
        scanned(bytes, i, Scan { depth, in_string: false, escaped: false }, closing) == scanned(
            bytes,
            i + pieces_bytes(pieces).len(),
            Scan { depth, in_string: false, escaped: false },
            closing,
        ),
    decreases pieces, 0nat,
{
    if pieces.len() > 0 {
        let first = piece_bytes(pieces[0]);
        parts_stand(bytes, i, first, pieces_bytes(pieces.skip(1)));
        piece_is_passed(bytes, i, pieces[0], depth, closing);
        pieces_are_passed(bytes, i + first.len(), pieces.skip(1), depth, closing);
    }
}

proof fn spaces_are_passed(bytes: Seq<u8>, i: int, n: int)
    requires
        0 <= i <= n < bytes.len(),
        forall|k: int| i <= k < n ==> is_space(#[trigger] bytes[k]),
        !is_space(bytes[n]),
    ensures
        behind_spaces(bytes, i) == n,
    decreases n - i,
{
    if i < n {
        assert(is_space(bytes[i]));
        spaces_are_passed(bytes, i + 1, n);
    }
}

/// Blanks, tabs and line ends are the white space before a value.
pub open spec fn is_white(byte: u8) -> bool {
    byte == 32 || byte == 9 || byte == 10 || byte == 12 || byte == 13
}

/// The end that is found for an object or an array is its end, whatever stands within it, brackets
/// and quotes in strings included, and whatever follows.
pub proof fn values_end_where_they_end(before: Seq<u8>, value: Piece, after: Seq<u8>)
    requires
        forall|k: int| 0 <= k < before.len() ==> is_white(#[trigger] before[k]),
        value is Object || value is Array,
        piece_proper(value),
    ensures
        value_end(before + piece_bytes(value) + after, 0) == Some(
            (before.len() + piece_bytes(value).len()) as int,
        ),
{
    let bytes = before + piece_bytes(value) + after;
    let n = before.len() as int;
    let part = piece_bytes(value);
    assert(bytes.subrange(n, n + part.len()) =~= part);
    assert(stands(bytes, n, part));
    assert(part[0] == bytes[n]);
    assert forall|k: int| 0 <= k < n implies is_space(#[trigger] bytes[k]) by {
        assert(before[k] == bytes[k]);
    }
    spaces_are_passed(bytes, 0, n);
    let (inner, open, close) = match value {
        Piece::Object(inner) => (inner, '{' as u8, '}' as u8),
        Piece::Array(inner) => (inner, '[' as u8, ']' as u8),
        _ => (Seq::empty(), 0u8, 0u8),
    };
    assert(closing_of(bytes[n]) == Some(close));
    let content = pieces_bytes(inner);
    parts_stand(bytes, n, seq![open] + content, seq![close]);
    parts_stand(bytes, n, seq![open], content);
    let deeper = Scan { depth: 1, in_string: false, escaped: false };
    assert(scanned(bytes, n, fresh_scan(), close) == scanned(bytes, n + 1, deeper, close));
    pieces_are_passed(bytes, n + 1, inner, 1, close);
    let end = n + 1 + content.len();
    assert(bytes.subrange(end, end + 1)[0] == bytes[end]);
    assert(scanned(bytes, end, deeper, close) == Some(end + 1));
}

/// Nothing else is a value: neither a text that ends before it, nor one that begins with another
/// byte than an opening bracket.
pub proof fn other_texts_are_no_values(bytes: Seq<u8>)
    ensures
        bytes.len() == 0 ==> value_end(bytes, 0) is None,
        bytes.len() > 0 && !is_white(bytes[0]) && bytes[0] != '{' as u8 && bytes[0] != '[' as u8
            ==> value_end(bytes, 0) is None,
{
}

// ---------------------------------------------------------------------------
// Values in pages
// ---------------------------------------------------------------------------

proof fn encoded_behind(first: Seq<char>, second: Seq<char>)
    ensures
        encode_utf8(first + second) == encode_utf8(first) + encode_utf8(second),
    decreases first.len(),
{
    let whole = first + second;
    if first.len() == 0 {
        assert(whole =~= second);
        assert(encode_utf8(first) =~= Seq::<u8>::empty());
        assert(encode_utf8(first) + encode_utf8(second) =~= encode_utf8(second));
    } else {
        encoded_behind(first.drop_first(), second);
        assert(whole.drop_first() =~= first.drop_first() + second);
        assert(encode_utf8(whole) =~= encode_utf8(first) + encode_utf8(second));
    }
}

/// The streams of a room are read out of the object or array that stands behind the first mark
/// `stream: ` of its page, whatever follows it.
pub proof fn streams_stand_behind_their_mark(
    before: Seq<char>,
    text: Seq<char>,
    value: Piece,
    after: Seq<char>,
)
    requires
        find(before + "stream: "@ + text + after, "stream: "@, 0) == Some(before.len() as int),
        value is Object || value is Array,
        piece_proper(value),
        encode_utf8(text) == piece_bytes(value),
    ensures
        match json_read(trimmed(text)) {
            Ok(data) => stream_value(before + "stream: "@ + text + after) == Ok::<
                JsonData,
                Seq<char>,
            >(data),
            Err(e) => stream_value(before + "stream: "@ + text + after) == Err::<
                JsonData,
                Seq<char>,
            >("解析虎牙流数据失败: "@ + e),
        },
{
    let page = before + "stream: "@ + text + after;
    let rest = page.skip(before.len() as int + "stream: "@.len());
    assert(rest =~= text + after);
    encoded_behind(text, after);
    let bytes = encode_utf8(rest);
    let none = Seq::<u8>::empty();
    values_end_where_they_end(none, value, encode_utf8(after));
    assert(none + piece_bytes(value) + encode_utf8(after) =~= bytes);
    assert(bytes.take(piece_bytes(value).len() as int) =~= encode_utf8(text));
    vstd::utf8::encode_utf8_decode_utf8(text);
}

/// A page without the mark has no streams.
pub proof fn streams_need_their_mark(page: Seq<char>)
    requires
        forall|i: int| !#[trigger] occurs_at(page, "stream: "@, i),
    ensures
        stream_value(page) == Err::<JsonData, Seq<char>>("虎牙流数据不存在"@),
{
    find_is_first(page, "stream: "@, 0);
}

/// The data of a room are what stands between the pattern and the first end mark behind it,
/// without the blanks around it; without an end mark they are incomplete.
pub proof fn rooms_stand_before_their_end(
    page: Seq<char>,
    pattern: Seq<char>,
    text: Seq<char>,
    rest: Seq<char>,
    end: char,
)
    requires
        !text.contains(end),
    ensures
        behind_pattern(pattern, page) == Some(text + seq![end] + rest) ==> text_after(
            page,
            pattern,
            end,
        ) == Some(Ok::<Seq<char>, ()>(trimmed(text))),
        behind_pattern(pattern, page) == Some(text) ==> text_after(page, pattern, end) == Some(
            Err::<Seq<char>, ()>(()),
        ),
        behind_pattern(pattern, page) is None ==> text_after(page, pattern, end) is None,
{
    let whole = text + seq![end] + rest;
    let n = text.len() as int;
    assert(whole[n] == end);
    assert(whole.contains(end));
    up_to_stops_at_the_mark(whole, end);
    let front = up_to(whole, end);
    let m = front.len() as int;
    if m < n {
        assert(whole[m] == text[m]);
        assert(text.contains(end));
    }
    if m > n {
        assert(front[n] == whole.take(m)[n]);
    }
    assert(front =~= text);
}

} // verus!
