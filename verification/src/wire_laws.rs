//! How things stand on the wire, byte by byte: TARS fields, FLV tag headers, requests for tokens
//! and registrations for comments.

use crate::danmaku::{command, heartbeat_bytes, user_agent_text, user_info};
use crate::flv::{first_frame, header_bytes, header_of, media_tag, tag_class, tag_type_of, three_bytes, BodyFault, Error, Needed, TagClass, TagHeader, TagType};
use crate::flv_frames::{frame_size, frame_step, FrameOrder, Progress};
use crate::httpflv::{tells_fault, Tag};
use crate::tars::{byte_entries, byte_map_field, bytes_field, head_bytes, int_field, string_field, text_entries, text_map_field, type_of, TarsType};
use crate::tars_input::{head_at, int_body};
use crate::text::decimal;
use crate::wup::{agent_text, framed, is_agent, service_url, wup_request};
use vstd::prelude::*;
use vstd::utf8::encode_utf8;

verus! {

/// The number that bytes write, the highest first.
pub open spec fn value(bytes: Seq<u8>) -> int
    decreases bytes.len(),
{
    if bytes.len() == 0 {
        0
    } else {
        value(bytes.drop_last()) * 256 + bytes.last()
    }
}

proof fn value_of_two(bytes: Seq<u8>)
    requires
        bytes.len() == 2,
    ensures
        value(bytes) == bytes[0] * 256 + bytes[1],
{
    let a = bytes.drop_last();
    let b = a.drop_last();
    assert(b.len() == 0);
    assert(value(b) == 0);
    assert(value(a) == bytes[0]);
}

proof fn value_behind(first: Seq<u8>, second: Seq<u8>)
    ensures
        second.len() == 2 ==> value(first + second) == value(first) * 0x1_0000 + value(second),
        second.len() == 4 ==> value(first + second) == value(first) * 0x1_0000_0000 + value(second),
{
    if second.len() == 2 {
        pushed(first, second);
    }
    if second.len() == 4 {
        let a = second.take(2);
        let b = second.skip(2);
        assert(second =~= a + b);
        assert(first + second =~= (first + a) + b);
        pushed(first, a);
        pushed(first + a, b);
        pushed(a, b);
    }
}

proof fn pushed(first: Seq<u8>, second: Seq<u8>)
    requires
        second.len() == 2,
    ensures
        value(first + second) == value(first) * 0x1_0000 + value(second),
{
    let whole = first + second;
    assert(whole.drop_last() =~= first.push(second[0]));
    assert(first.push(second[0]).drop_last() =~= first);
    assert(value(first.push(second[0])) == value(first) * 256 + second[0]);
    value_of_two(second);
}

// ---------------------------------------------------------------------------
// TARS
// ---------------------------------------------------------------------------

/// The code of a type.
pub open spec fn wire_code(t: TarsType) -> int {
    match t {
        TarsType::Int8 => 0,
        TarsType::Int16 => 1,
        TarsType::Int32 => 2,
        TarsType::Int64 => 3,
        TarsType::String1 => 6,
        TarsType::String4 => 7,
        TarsType::Mapping => 8,
        TarsType::List => 9,
        TarsType::StructBegin => 10,
        TarsType::StructEnd => 11,
        TarsType::Zero => 12,
        TarsType::Bytes => 13,
    }
}

/// A head is one byte, the tag in its high half and the type in its low half; a tag from fifteen
/// on stands in a byte of its own behind it.
pub proof fn heads_on_the_wire(tag: u8, t: TarsType)
    ensures
        tag < 15 ==> head_bytes(tag, t).len() == 1 && head_bytes(tag, t)[0] == tag * 16 + wire_code(
            t,
        ),
        tag >= 15 ==> head_bytes(tag, t).len() == 2 && head_bytes(tag, t)[0] == 240 + wire_code(t)
            && head_bytes(tag, t)[1] == tag,
        type_of(wire_code(t) as u8) == Some(t),
{
}

/// A head is read by its halves. Nothing else is a type.
pub proof fn heads_are_read_by_halves(data: Seq<u8>, pos: int)
    requires
        0 <= pos,
        pos + 1 < data.len(),
    ensures
        ({
            let low = data[pos] as int % 16;
            let high = data[pos] as int / 16;
            let (head, end) = head_at(data, pos);
            &&& (low == 4 || low == 5 || low >= 14) ==> head is None
            &&& !(low == 4 || low == 5 || low >= 14) ==> (head matches Some((tag, t)) && wire_code(
                t,
            ) == low && tag == if high < 15 {
                high
            } else {
                data[pos + 1] as int
            })
            &&& end == pos + if high < 15 {
                1int
            } else {
                2int
            }
        }),
{
}

/// How many bytes an integer takes.
pub open spec fn width(v: int) -> int {
    if v == 0 {
        0
    } else if -128 <= v <= 127 {
        1
    } else if -32768 <= v <= 32767 {
        2
    } else if -2147483648 <= v <= 2147483647 {
        4
    } else {
        8
    }
}

/// Two to the power of eight times the width.
pub open spec fn span(width: int) -> int {
    if width == 0 {
        1
    } else if width == 1 {
        0x100
    } else if width == 2 {
        0x1_0000
    } else if width == 4 {
        0x1_0000_0000
    } else {
        0x1_0000_0000_0000_0000
    }
}

proof fn two_bytes_value(n: int)
    requires
        0 <= n < 0x1_0000,
    ensures
        value(crate::tars::be16(n)) == n,
        crate::tars::be16(n).len() == 2,
{
    value_of_two(crate::tars::be16(n));
}

proof fn four_bytes_value(n: int)
    requires
        0 <= n < 0x1_0000_0000,
    ensures
        value(crate::tars::be32(n)) == n,
        crate::tars::be32(n).len() == 4,
{
    two_bytes_value(n / 0x1_0000);
    two_bytes_value(n % 0x1_0000);
    value_behind(crate::tars::be16(n / 0x1_0000), crate::tars::be16(n % 0x1_0000));
}

proof fn eight_bytes_value(n: int)
    requires
        0 <= n < 0x1_0000_0000_0000_0000,
    ensures
        value(crate::tars::be64(n)) == n,
        crate::tars::be64(n).len() == 8,
{
    four_bytes_value(n / 0x1_0000_0000);
    four_bytes_value(n % 0x1_0000_0000);
    value_behind(crate::tars::be32(n / 0x1_0000_0000), crate::tars::be32(n % 0x1_0000_0000));
}

/// An integer takes no more bytes than it needs, zero none: none, one, two, four or eight. They
/// stand behind the head, the highest first, and a negative number stands as its complement.
pub proof fn integers_on_the_wire(tag: u8, v: i64)
    requires
        tag < 15,
    ensures
        ({
            let bytes = int_field(tag, v as int);
            let n = width(v as int);
            let kind = if n == 0 {
                12int
            } else if n == 1 {
                0
            } else if n == 2 {
                1
            } else if n == 4 {
                2
            } else {
                3
            };
            &&& bytes.len() == 1 + n
            &&& bytes[0] == tag * 16 + kind
            &&& value(bytes.skip(1)) == v as int % span(n)
        }),
{
    let w = v as int;
    let bytes = int_field(tag, w);
    if w == 0 {
        assert(value(bytes.skip(1)) == 0);
    } else if -128 <= w <= 127 {
        let rest = seq![(w % 0x100) as u8];
        assert(bytes.skip(1) =~= rest);
        assert(rest.drop_last().len() == 0);
        assert(value(rest.drop_last()) == 0);
    } else if -32768 <= w <= 32767 {
        two_bytes_value(w % 0x1_0000);
        assert(bytes.skip(1) =~= crate::tars::be16(w % 0x1_0000));
    } else if -2147483648 <= w <= 2147483647 {
        four_bytes_value(w % 0x1_0000_0000);
        assert(bytes.skip(1) =~= crate::tars::be32(w % 0x1_0000_0000));
    } else {
        eight_bytes_value(w % 0x1_0000_0000_0000_0000);
        assert(bytes.skip(1) =~= crate::tars::be64(w % 0x1_0000_0000_0000_0000));
    }
}

/// The integer behind a head is the number that its bytes write, less the span of its width where
/// the highest bit is set; it is missing where bytes are.
pub proof fn integers_are_read(data: Seq<u8>, pos: int, t: TarsType, n: int)
    requires
        0 <= pos,
        (t == TarsType::Int8 && n == 1) || (t == TarsType::Int16 && n == 2) || (t == TarsType::Int32
            && n == 4) || (t == TarsType::Int64 && n == 8),
    ensures
        pos + n > data.len() ==> int_body(data, pos, t).0 is None,
        pos + n <= data.len() ==> {
            let raw = value(data.subrange(pos, pos + n));
            int_body(data, pos, t) == (
                Some(
                    if raw * 2 >= span(n) {
                        raw - span(n)
                    } else {
                        raw
                    },
                ),
                pos + n,
            )
        },
        int_body(data, pos, TarsType::Zero) == (Some(0int), pos),
{
    if pos + n <= data.len() {
        let bytes = data.subrange(pos, pos + n);
        if n == 1 {
            assert(bytes.drop_last().len() == 0);
            assert(value(bytes.drop_last()) == 0);
        } else if n == 2 {
            value_of_two(bytes);
        } else if n == 4 {
            four_read(data, pos);
        } else {
            four_read(data, pos);
            four_read(data, pos + 4);
            let a = data.subrange(pos, pos + 4);
            let b = data.subrange(pos + 4, pos + 8);
            assert(bytes =~= a + b);
            value_behind(a, b);
        }
    }
}

proof fn four_read(data: Seq<u8>, pos: int)
    requires
        0 <= pos,
        pos + 4 <= data.len(),
    ensures
        value(data.subrange(pos, pos + 4)) == crate::tars_input::u32_at(data, pos),
{
    let a = data.subrange(pos, pos + 2);
    let b = data.subrange(pos + 2, pos + 4);
    assert(data.subrange(pos, pos + 4) =~= a + b);
    value_of_two(a);
    value_of_two(b);
    value_behind(a, b);
}

/// A text is its UTF-8 behind its length: one byte up to 255, else four.
pub proof fn texts_on_the_wire(tag: u8, text: Seq<char>)
    requires
        tag < 15,
        encode_utf8(text).len() < 0x1_0000_0000,
    ensures
        ({
            let raw = encode_utf8(text);
            let bytes = string_field(tag, text);
            &&& raw.len() <= 255 ==> bytes.len() == 2 + raw.len() && bytes[0] == tag * 16 + 6
                && bytes[1] == raw.len() && bytes.skip(2) == raw
            &&& raw.len() > 255 ==> bytes.len() == 5 + raw.len() && bytes[0] == tag * 16 + 7
                && value(bytes.subrange(1, 5)) == raw.len() && bytes.skip(5) == raw
        }),
{
    let raw = encode_utf8(text);
    let bytes = string_field(tag, text);
    if raw.len() <= 255 {
        assert(bytes.skip(2) =~= raw);
    } else {
        let n = raw.len() as int;
        four_bytes_value(n);
        assert(n % 0x1_0000_0000 == n);
        assert(bytes.subrange(1, 5) =~= crate::tars::be32(n));
        assert(bytes.skip(5) =~= raw);
    }
}

/// Raw bytes stand behind the head, a zero byte, and their length as an integer of tag zero.
pub proof fn bytes_on_the_wire(tag: u8, raw: Seq<u8>)
    requires
        tag < 15,
        raw.len() <= i32::MAX,
    ensures
        bytes_field(tag, raw) == seq![(tag * 16 + 13) as u8, 0u8] + int_field(0, raw.len() as int)
            + raw,
{
    assert(bytes_field(tag, raw) =~= seq![(tag * 16 + 13) as u8, 0u8] + int_field(
        0,
        raw.len() as int,
    ) + raw);
}

proof fn map_head(tag: u8)
    requires
        tag < 15,
    ensures
        head_bytes(tag, TarsType::Mapping) == seq![(tag * 16 + 8) as u8],
{
}

proof fn kept_count(n: nat)
    requires
        n <= i32::MAX,
    ensures
        crate::tars::wrap_i32(n as int) == n,
{
}

/// A map from text to bytes stands as the number of its entries, an integer of tag zero, and the
/// entries one behind the other, the key under tag zero and the value under tag one.
pub proof fn byte_maps_on_the_wire(
    tag: u8,
    pairs: Seq<(Seq<char>, Seq<u8>)>,
    key: Seq<char>,
    raw: Seq<u8>,
)
    requires
        tag < 15,
        pairs.len() <= i32::MAX,
    ensures
        byte_map_field(tag, pairs) == seq![(tag * 16 + 8) as u8] + int_field(0, pairs.len() as int)
            + byte_entries(pairs),
        byte_entries(Seq::empty()).len() == 0,
        byte_entries(pairs.push((key, raw))) == byte_entries(pairs) + string_field(0, key)
            + bytes_field(1, raw),
{
    map_head(tag);
    kept_count(pairs.len());
    assert(pairs.push((key, raw)).drop_last() =~= pairs);
}

/// A map from text to text stands in the same way.
pub proof fn text_maps_on_the_wire(
    tag: u8,
    pairs: Seq<(Seq<char>, Seq<char>)>,
    key: Seq<char>,
    text: Seq<char>,
)
    requires
        tag < 15,
        pairs.len() <= i32::MAX,
    ensures
        text_map_field(tag, pairs) == seq![(tag * 16 + 8) as u8] + int_field(0, pairs.len() as int)
            + text_entries(pairs),
        text_entries(Seq::empty()).len() == 0,
        text_entries(pairs.push((key, text))) == text_entries(pairs) + string_field(0, key)
            + string_field(1, text),
{
    map_head(tag);
    kept_count(pairs.len());
    assert(pairs.push((key, text)).drop_last() =~= pairs);
}

// ---------------------------------------------------------------------------
// FLV
// ---------------------------------------------------------------------------

proof fn three_value(n: u32)
    ensures
        three_bytes(n).len() == 3,
        three_bytes(n)[0] * 0x1_0000 + three_bytes(n)[1] * 0x100 + three_bytes(n)[2] == n as int
            % 0x100_0000,
{
    let (a, b, c) = (n / 0x1_0000 % 0x100, n / 0x100 % 0x100, n % 0x100);
    assert((n / 0x1_0000 % 0x100) * 0x1_0000 + (n / 0x100 % 0x100) * 0x100 + n % 0x100 == n
        % 0x100_0000) by (bit_vector);
    assert(three_bytes(n)[0] == a && three_bytes(n)[1] == b && three_bytes(n)[2] == c);
}

/// Where the numbers of a header stand.
proof fn header_places(header: TagHeader)
    ensures
        ({
            let bytes = header_bytes(header);
            let size = three_bytes(header.data_size);
            let time = three_bytes(header.timestamp);
            let stream = three_bytes(header.stream_id);
            &&& bytes.len() == 11
            &&& bytes[0] == match header.tag_type {
                TagType::Audio => 8u8,
                TagType::Video => 9u8,
                TagType::Script => 18u8,
            }
            &&& bytes[1] == size[0] && bytes[2] == size[1] && bytes[3] == size[2]
            &&& bytes[4] == time[0] && bytes[5] == time[1] && bytes[6] == time[2]
            &&& bytes[7] == (header.timestamp / 0x100_0000) as u8
            &&& bytes[8] == stream[0] && bytes[9] == stream[1] && bytes[10] == stream[2]
        }),
{
}

proof fn high_byte(n: u32)
    ensures
        (n / 0x100_0000) as u8 * 0x100_0000 + n as int % 0x100_0000 == n,
{
    assert(n / 0x100_0000 < 256);
}

proof fn small_rest(n: u32)
    requires
        n < 0x100_0000,
    ensures
        n as int % 0x100_0000 == n,
{
}

/// A tag header is eleven bytes: the type, three bytes of size, three of time and a fourth that is
/// its highest, and three of the stream. The numbers stand highest byte first.
pub proof fn tag_headers_on_the_wire(header: TagHeader)
    requires
        header.data_size < 0x100_0000,
        header.stream_id < 0x100_0000,
    ensures
        ({
            let bytes = header_bytes(header);
            &&& bytes.len() == 11
            &&& bytes[0] == match header.tag_type {
                TagType::Audio => 8u8,
                TagType::Video => 9u8,
                TagType::Script => 18u8,
            }
            &&& bytes[1] * 0x1_0000 + bytes[2] * 0x100 + bytes[3] == header.data_size
            &&& bytes[7] * 0x100_0000 + bytes[4] * 0x1_0000 + bytes[5] * 0x100 + bytes[6]
                == header.timestamp
            &&& bytes[8] * 0x1_0000 + bytes[9] * 0x100 + bytes[10] == header.stream_id
        }),
{
    header_places(header);
    three_value(header.data_size);
    three_value(header.timestamp);
    three_value(header.stream_id);
    high_byte(header.timestamp);
    small_rest(header.data_size);
    small_rest(header.stream_id);
}

/// A tag header is read from the same places.
pub proof fn tag_headers_are_read(data: Seq<u8>)
    requires
        data.len() >= 11,
    ensures
        (tag_type_of(data[0]) is Some) == (data[0] == 8 || data[0] == 9 || data[0] == 18),
        data[0] == 8 ==> header_of(data).tag_type == TagType::Audio,
        data[0] == 9 ==> header_of(data).tag_type == TagType::Video,
        data[0] == 18 ==> header_of(data).tag_type == TagType::Script,
        header_of(data).data_size == data[1] * 0x1_0000 + data[2] * 0x100 + data[3],
        header_of(data).timestamp == data[7] * 0x100_0000 + data[4] * 0x1_0000 + data[5] * 0x100
            + data[6],
        header_of(data).stream_id == data[8] * 0x1_0000 + data[9] * 0x100 + data[10],
{
}

/// The parts of a stream: four bytes in front of the first tag, then per tag eleven of header, as
/// many of body as the header says, and four behind it. A stream ends where a header should begin.
pub proof fn frames_on_the_wire(header: TagHeader, body: Seq<u8>, frame: Seq<u8>)
    ensures
        frame_size(FrameOrder::<Seq<u8>>::Lead) == 4,
        frame_size(FrameOrder::<Seq<u8>>::Header) == 11,
        frame_size(FrameOrder::<Seq<u8>>::Body(header)) == header.data_size,
        frame_size(FrameOrder::Trailer(header, body)) == 4,
        frame_step(FrameOrder::Lead, frame) == Some(Progress::<Seq<u8>>::Part(FrameOrder::Header)),
        frame_step(FrameOrder::Body(header), frame) == Some(
            Progress::Part(FrameOrder::Trailer(header, frame)),
        ),
        frame_step(FrameOrder::Trailer(header, body), frame) == Some(
            Progress::Whole(Tag { header, body, previous_size: frame }, FrameOrder::Header),
        ),
        frame.len() == 0 ==> frame_step(FrameOrder::Header, frame) == Some(
            Progress::<Seq<u8>>::End,
        ),
        0 < frame.len() < 11 ==> frame_step(FrameOrder::Header, frame) is None,
        frame.len() == 11 && (frame[0] == 8 || frame[0] == 9 || frame[0] == 18) ==> frame_step(
            FrameOrder::Header,
            frame,
        ) == Some(Progress::<Seq<u8>>::Part(FrameOrder::Body(header_of(frame)))),
        frame.len() == 11 && !(frame[0] == 8 || frame[0] == 9 || frame[0] == 18) ==> frame_step(
            FrameOrder::Header,
            frame,
        ) is None,
{
}

/// A frame of a size is taken off the front as soon as that many bytes wait, and not before; what
/// is taken and what stays make up what waited.
pub proof fn frames_are_taken_off_the_front(waiting: Seq<u8>, size: int)
    requires
        0 <= size,
    ensures
        (first_frame(waiting, size) is Some) == (waiting.len() >= size),
        first_frame(waiting, size) matches Some((frame, rest)) ==> frame.len() == size && frame
            + rest == waiting,
{
    if let Some((frame, rest)) = first_frame(waiting, size) {
        assert(frame + rest =~= waiting);
    }
}

/// Metadata and decoder configurations stand outside the media time axis: an AAC body, format ten
/// in the high half of its first byte, and an AVC body, codec seven in the low half, that have a
/// zero behind it. All else is media.
pub proof fn what_is_media(body: Seq<u8>, rest: Seq<u8>)
    requires
        body.len() >= 2,
    ensures
        !media_tag(TagType::Script, rest),
        media_tag(TagType::Audio, body) == !(160 <= body[0] <= 175 && body[1] == 0),
        media_tag(TagType::Video, body) == !(body[0] as int % 16 == 7 && body[1] == 0),
        rest.len() < 2 ==> media_tag(TagType::Audio, rest) && media_tag(TagType::Video, rest),
{
}

/// A picture is a key frame where the high half of its first byte is one; a decoder configuration
/// of AVC or AAC has a zero behind its first byte; a script is metadata whatever it holds.
pub proof fn what_a_tag_is(header: TagHeader, body: Seq<u8>)
    requires
        header.data_size == body.len(),
        body.len() >= 5,
    ensures
        header.tag_type == TagType::Script ==> tag_class(header, body) == Ok::<TagClass, BodyFault>(
            TagClass::Script,
        ),
        header.tag_type == TagType::Video ==> {
            let frame = body[0] as int / 16;
            let codec = body[0] as int % 16;
            &&& 1 <= frame <= 5 && 1 <= codec < 7 ==> tag_class(header, body) == Ok::<
                TagClass,
                BodyFault,
            >(TagClass::Video { key: frame == 1, sequence_header: false })
            &&& 1 <= frame <= 5 && codec == 7 && body[1] <= 2 ==> tag_class(header, body) == Ok::<
                TagClass,
                BodyFault,
            >(TagClass::Video { key: frame == 1, sequence_header: body[1] == 0 })
            &&& 1 <= frame <= 5 && codec == 7 && body[1] > 2 ==> tag_class(header, body) == Err::<
                TagClass,
                BodyFault,
            >(BodyFault::AvcHeader)
            &&& !(1 <= frame <= 5 && 1 <= codec <= 7) ==> tag_class(header, body) == Err::<
                TagClass,
                BodyFault,
            >(BodyFault::Format)
        },
        header.tag_type == TagType::Audio ==> {
            let format = body[0] as int / 16;
            &&& format == 10 && body[1] <= 1 ==> tag_class(header, body) == Ok::<
                TagClass,
                BodyFault,
            >(TagClass::Audio { sequence_header: body[1] == 0 })
            &&& format == 10 && body[1] > 1 ==> tag_class(header, body) == Err::<
                TagClass,
                BodyFault,
            >(BodyFault::AacHeader)
            &&& format <= 8 || format == 11 || format >= 14 ==> tag_class(header, body) == Ok::<
                TagClass,
                BodyFault,
            >(TagClass::Audio { sequence_header: false })
            &&& format == 9 || format == 12 || format == 13 ==> tag_class(header, body) == Err::<
                TagClass,
                BodyFault,
            >(BodyFault::Format)
        },
{
    assert(body.take(header.data_size as int) =~= body);
}

/// An AVC body needs five bytes and an AAC body two, or its packet header is missing; an empty body
/// has no class at all.
pub proof fn short_packets_have_no_header(header: TagHeader, body: Seq<u8>)
    requires
        header.data_size == body.len(),
    ensures
        header.tag_type == TagType::Video && 0 < body.len() < 5 && body[0] as int % 16 == 7 && 1
            <= body[0] as int / 16 <= 5 ==> tag_class(header, body) == Err::<TagClass, BodyFault>(
            BodyFault::AvcHeader,
        ),
        header.tag_type == TagType::Video && body.len() > 0 && 1 <= body[0] as int % 16 < 7 && 1
            <= body[0] as int / 16 <= 5 ==> tag_class(header, body) == Ok::<TagClass, BodyFault>(
            TagClass::Video { key: body[0] as int / 16 == 1, sequence_header: false },
        ),
        header.tag_type == TagType::Audio && body.len() == 1 && body[0] as int / 16 == 10
            ==> tag_class(header, body) == Err::<TagClass, BodyFault>(BodyFault::AacHeader),
        header.tag_type == TagType::Audio && body.len() >= 2 && body[0] as int / 16 == 10 && body[1]
            <= 1 ==> tag_class(header, body) == Ok::<TagClass, BodyFault>(
            TagClass::Audio { sequence_header: body[1] == 0 },
        ),
        header.tag_type != TagType::Script && body.len() == 0 ==> tag_class(header, body) == Err::<
            TagClass,
            BodyFault,
        >(BodyFault::Short(1)),
{
    assert(body.take(header.data_size as int) =~= body);
}

/// What stands behind a body does not change what its tag is.
pub proof fn only_the_body_tells_the_class(header: TagHeader, body: Seq<u8>, rest: Seq<u8>)
    requires
        header.data_size == body.len(),
    ensures
        tag_class(header, body + rest) == tag_class(header, body),
{
    assert(body.take(header.data_size as int) =~= body);
    assert((body + rest).take(header.data_size as int) =~= body);
}

/// A body that is shorter than its header says has no class, unless it is a script.
pub proof fn short_bodies_have_no_class(header: TagHeader, body: Seq<u8>)
    requires
        header.tag_type != TagType::Script,
        body.len() < header.data_size,
    ensures
        tag_class(header, body) == Err::<TagClass, BodyFault>(
            BodyFault::Short(header.data_size as usize),
        ),
{
}

/// A fault in a body is told as what it is: bytes that are missing with their number, a packet
/// header that is missing with its codec, anything else as an unknown format.
pub proof fn faults_are_told(error: Error, fault: BodyFault)
    requires
        tells_fault(error, fault),
    ensures
        fault matches BodyFault::Short(n) ==> (error matches Error::NomIncomplete(text, needed)
            && text@ == "tag data"@ && needed == Needed::Size(n)),
        fault is Format ==> (error matches Error::Custom(text) && text@ == "parse "@ + "tag data"@
            + " err: "@ + "unknown body format"@),
        fault is AacHeader ==> error is AacHeader,
        fault is AvcHeader ==> error is AvcHeader,
{
}

// ---------------------------------------------------------------------------
// Requests for tokens
// ---------------------------------------------------------------------------

/// A packet stands behind its length in four bytes, which counts itself.
pub proof fn packets_count_their_length(packet: Seq<u8>)
    requires
        packet.len() + 4 < 0x1_0000_0000,
    ensures
        framed(packet).len() == packet.len() + 4,
        value(framed(packet).take(4)) == framed(packet).len(),
        framed(packet).skip(4) == packet,
{
    let n = 4 + packet.len() as int;
    four_bytes_value(n);
    assert(n % 0x1_0000_0000 == n);
    assert(framed(packet).take(4) =~= crate::tars::be32(n));
    assert(framed(packet).skip(4) =~= packet);
}

/// A request is a packet of version three for the function of the service that hands out tokens.
/// It asks for the stream by name, under the agent, in the one structure that it carries.
pub proof fn requests_ask_for_one_token(stream_name: Seq<char>, agent: Seq<char>, request_id: int)
    ensures
        ({
            let user = head_bytes(3, TarsType::StructBegin) + int_field(0, 0) + string_field(1, ""@)
                + string_field(2, ""@) + string_field(3, agent) + string_field(4, ""@) + int_field(
                5,
                0,
            ) + string_field(6, ""@) + string_field(7, ""@) + head_bytes(0, TarsType::StructEnd);
            let asked = head_bytes(0, TarsType::StructBegin) + string_field(0, ""@) + string_field(
                1,
                stream_name,
            ) + int_field(2, 0) + user + int_field(4, 66) + head_bytes(0, TarsType::StructEnd);
            let buffer = byte_map_field(0, seq![("tReq"@, asked)]);
            let none = Seq::<(Seq<char>, Seq<char>)>::empty();
            wup_request(stream_name, agent, request_id) == framed(
                int_field(1, 3) + int_field(2, 0) + int_field(3, 0) + int_field(4, request_id)
                    + string_field(5, "liveui"@) + string_field(6, "getCdnTokenInfoEx"@)
                    + bytes_field(7, buffer) + int_field(8, 0) + text_map_field(9, none)
                    + text_map_field(10, none),
            )
        }),
{
}

/// Requests go to one of two hosts; on the second the path names the function.
pub proof fn requests_go_to_two_hosts(use_yst: bool)
    ensures
        !use_yst ==> service_url(use_yst) == "https://wup.huya.com"@,
        use_yst ==> service_url(use_yst) == "https://snmhuya.yst.aisee.tv"@ + "/"@ + "liveui"@
            + "/"@ + "getCdnTokenInfoEx"@,
{
}

/// An agent names its client and version. Those of Android and of the television carry a build
/// and an API level too.
pub proof fn agents_name_their_client(build: int, level: int)
    ensures
        agent_text(0, build, level) == "adr"@ + "&"@ + "13.1.0"@ + "."@ + decimal(build as nat)
            + "&official&"@ + decimal(level as nat),
        agent_text(1, build, level) == "ios"@ + "&"@ + "13.1.0"@ + "&official"@,
        agent_text(2, build, level) == "nftv"@ + "&"@ + "2.6.10"@ + "."@ + decimal(build as nat)
            + "&official&"@ + decimal(level as nat),
        agent_text(3, build, level) == "pc_exe"@ + "&"@ + "7000000"@ + "&official"@,
        3000 <= build <= 5000 && 28 <= level <= 36 ==> is_agent(agent_text(0, build, level)),
{
}

// ---------------------------------------------------------------------------
// Registrations for comments
// ---------------------------------------------------------------------------

/// A listener registers for the presenter, named twice, with a group of three and nothing else
/// known of the user.
pub proof fn registrations_on_the_wire(uid: int)
    ensures
        user_info(uid) == int_field(0, uid) + int_field(1, 0) + string_field(2, ""@) + string_field(
            3,
            ""@,
        ) + int_field(4, 0) + int_field(5, 0) + int_field(6, uid) + int_field(7, 3),
        command(1, user_info(uid)) == int_field(0, 1) + bytes_field(1, user_info(uid)),
{
}

/// What keeps a connection alive is a command of kind three around a packet of version three,
/// which counts its own length and calls the heartbeat function of the online service. A blank
/// stands behind it.
pub proof fn heartbeats_on_the_wire()
    ensures
        ({
            let all = heartbeat_bytes();
            let packet = all.subrange(6, 111);
            let call = int_field(1, 3) + int_field(2, 0) + int_field(3, 0) + int_field(4, 0)
                + string_field(5, "onlineui"@) + string_field(6, "OnUserHeartBeat"@);
            &&& all == command(3, packet) + seq![0x20u8]
            &&& value(packet.take(4)) == packet.len()
            &&& packet.subrange(4, 4int + call.len()) == call
        }),
{
    let all = heartbeat_bytes();
    let packet = all.subrange(6, 111);
    assert(packet.len() == 105);
    assert(command(3, packet) + seq![0x20u8] =~= all) by {
        assert(int_field(0, 3) =~= seq![0x00u8, 0x03]);
        assert(int_field(0, 105) =~= seq![0x00u8, 0x69]);
        bytes_on_the_wire(1, packet);
        assert(bytes_field(1, packet) =~= seq![0x1du8, 0x00, 0x00, 0x69] + packet);
    }
    let four = packet.take(4);
    let three = four.drop_last();
    let two = three.drop_last();
    let one = two.drop_last();
    assert(one.drop_last().len() == 0);
    assert(value(one.drop_last()) == 0);
    assert(value(one) == 0 && value(two) == 0 && value(three) == 0);
    reveal_strlit("onlineui");
    reveal_strlit("OnUserHeartBeat");
    vstd::utf8::is_ascii_chars_encode_utf8("onlineui"@);
    vstd::utf8::is_ascii_chars_encode_utf8("OnUserHeartBeat"@);
    let first = string_field(5, "onlineui"@);
    let second = string_field(6, "OnUserHeartBeat"@);
    assert(first =~= seq![0x56u8, 0x08, 0x6f, 0x6e, 0x6c, 0x69, 0x6e, 0x65, 0x75, 0x69]);
    assert(second =~= seq![
        0x66u8, 0x0f, 0x4f, 0x6e, 0x55, 0x73, 0x65, 0x72, 0x48, 0x65, 0x61, 0x72, 0x74, 0x42, 0x65,
        0x61, 0x74,
    ]);
    let front = int_field(1, 3) + int_field(2, 0) + int_field(3, 0) + int_field(4, 0);
    assert(front =~= seq![0x10u8, 0x03, 0x2c, 0x3c, 0x4c]);
    let call = front + first + second;
    assert(packet.subrange(4, 4int + call.len()) =~= call);
}

/// The browser that pages are asked with differs only by its version.
pub proof fn browsers_differ_by_version(version: int)
    ensures
        user_agent_text(version)
            == "Mozilla/5.0 (Windows NT 10.0; Win64; x64) AppleWebKit/537.36 (KHTML, like Gecko) Chrome/"@
            + decimal(version as nat) + ".0.0.0 Safari/537.36"@,
{
}

} // verus!
