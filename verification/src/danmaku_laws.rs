//! What is registered is read, and what a room sends is told.

use crate::danmaku::{as_signed64, command, comment_in, is_comment, presenter_of, room_of, struct_number, struct_text, told_by, user_info, utf8_in, Comment, DanmakuEvent, REGISTER_REQ};
use crate::outside_web::captured;
use crate::tars::{bytes_field, head_bytes, int_field, string_field, TarsType};
use crate::tars_input::{bytes_field_at, int32_field_at, int64_field_at, skipped_struct, sought, string_field_at, struct_at};
use crate::tars_laws::{bytes_round_trip, head_round_trip, int_round_trip, string_round_trip, written, written_parts};
use crate::text::{decimal, signed_decimal};
use crate::web_laws::written_numbers_read;
use vstd::prelude::*;
use vstd::utf8::encode_utf8;

verus! {

/// Two parts that make up the whole stand one behind the other.
proof fn halves(data: Seq<u8>, first: Seq<u8>, second: Seq<u8>)
    requires
        data == first + second,
    ensures
        written(data, 0, first),
        written(data, first.len() as int, second),
{
    assert(data.subrange(0, data.len() as int) =~= data);
    assert(written(data, 0, first + second));
    written_parts(data, 0, first, second);
}

/// A number that comes first is read.
proof fn leading_number_reads(data: Seq<u8>, tag: u8, value: i64, rest: Seq<u8>)
    requires
        data == int_field(tag, value as int) + rest,
    ensures
        int64_field_at(data, 0, tag) == (Some(value as int), int_field(tag, value as int).len() as int),
{
    halves(data, int_field(tag, value as int), rest);
    int_round_trip(data, 0, tag, value);
    assert(sought(data, 0, tag) == (true, 0int));
}

/// Bytes are read where they stand.
proof fn bytes_read(data: Seq<u8>, pos: int, tag: u8, body: Seq<u8>)
    requires
        written(data, pos, bytes_field(tag, body)),
        body.len() <= i32::MAX,
    ensures
        bytes_field_at(data, pos, tag).0 == Some(body),
{
    bytes_round_trip(data, pos, tag, body);
    assert(sought(data, pos, tag) == (true, pos));
}

/// The user stands first in what a listener sends.
proof fn user_comes_first(uid: int)
    ensures
        user_info(uid) == int_field(0, uid) + user_info(uid).skip(int_field(0, uid).len() as int),
{
    let first = int_field(0, uid);
    let rest = int_field(1, 0) + string_field(2, ""@) + string_field(3, ""@) + int_field(4, 0)
        + int_field(5, 0) + int_field(6, uid) + int_field(7, 3);
    assert(user_info(uid) =~= first + rest);
    assert((first + rest).skip(first.len() as int) =~= rest);
}

/// A command is read as its kind and what it carries.
proof fn command_reads(kind: i32, data: Seq<u8>)
    requires
        data.len() <= i32::MAX,
    ensures
        ({
            let packet = command(kind as int, data);
            let (read, p) = int32_field_at(packet, 0, 0);
            &&& read == Some(kind as int)
            &&& bytes_field_at(packet, p, 1).0 == Some(data)
        }),
{
    let packet = command(kind as int, data);
    let first = int_field(0, kind as int);
    let second = bytes_field(1, data);
    halves(packet, first, second);
    int_round_trip(packet, 0, 0, kind as i64);
    assert(sought(packet, 0, 0) == (true, 0int));
    bytes_read(packet, first.len() as int, 1, data);
}

/// The packet that registers a listener is a registration, and it names the user.
pub proof fn registration_names_user(uid: u64)
    requires
        user_info(as_signed64(uid)).len() <= i32::MAX,
    ensures
        ({
            let packet = command(REGISTER_REQ as int, user_info(as_signed64(uid)));
            let (kind, p) = int32_field_at(packet, 0, 0);
            &&& kind == Some(1int)
            &&& bytes_field_at(packet, p, 1).0 matches Some(info) && int64_field_at(
                info,
                0,
                0,
            ).0 == Some(as_signed64(uid))
        }),
{
    let info = user_info(as_signed64(uid));
    command_reads(REGISTER_REQ, info);
    user_comes_first(as_signed64(uid));
    leading_number_reads(
        info,
        0,
        as_signed64(uid) as i64,
        info.skip(int_field(0, as_signed64(uid)).len() as int),
    );
}

/// A message of another kind than a push tells nothing.
pub proof fn other_commands_tell_nothing(kind: i32, data: Seq<u8>)
    requires
        data.len() <= i32::MAX,
        kind != 7,
    ensures
        told_by(command(kind as int, data)) == Ok::<Option<Comment>, Seq<char>>(None),
{
    command_reads(kind, data);
}

/// A push of one kind of message.
pub open spec fn push_of(kind: int, body: Seq<u8>) -> Seq<u8> {
    command(7, int_field(1, kind) + bytes_field(2, body))
}

/// A push tells what its body holds, if it is a comment, and else nothing.
pub proof fn pushes_tell_their_comment(kind: i64, body: Seq<u8>)
    requires
        (int_field(1, kind as int) + bytes_field(2, body)).len() <= i32::MAX,
    ensures
        told_by(push_of(kind as int, body)) == if kind == 1400 {
            comment_in(body)
        } else {
            Ok(None)
        },
{
    let inner = int_field(1, kind as int) + bytes_field(2, body);
    command_reads(7, inner);
    let first = int_field(1, kind as int);
    let second = bytes_field(2, body);
    leading_number_reads(inner, 1, kind, second);
    halves(inner, first, second);
    assert(body.len() <= second.len());
    bytes_read(inner, first.len() as int, 2, body);
    assert(bytes_field_at(inner, int64_field_at(inner, 0, 1).1, 2).0 == Some(body));
}

/// The body of a comment, as a room writes it.
pub open spec fn comment_body(name: Seq<char>, content: Seq<char>, color: int) -> Seq<u8> {
    head_bytes(0, TarsType::StructBegin) + string_field(2, name) + head_bytes(0, TarsType::StructEnd)
        + string_field(3, content) + head_bytes(6, TarsType::StructBegin) + int_field(0, color)
        + head_bytes(0, TarsType::StructEnd)
}

/// A text field as it is read, where it stands.
proof fn text_reads(data: Seq<u8>, pos: int, tag: u8, text: Seq<char>)
    requires
        written(data, pos, string_field(tag, text)),
        encode_utf8(text).len() < 0x1_0000_0000,
    ensures
        utf8_in(data, pos, tag) == Some(text),
        string_field_at(data, pos, tag).1 == pos + string_field(tag, text).len(),
{
    string_round_trip(data, pos, tag, text);
    assert(sought(data, pos, tag) == (true, pos));
    vstd::utf8::encode_utf8_valid_utf8(text);
    vstd::utf8::encode_utf8_decode_utf8(text);
}

/// The end of a structure, where it stands.
proof fn end_reads(data: Seq<u8>, pos: int)
    requires
        written(data, pos, head_bytes(0, TarsType::StructEnd)),
    ensures
        skipped_struct(data, pos) == (true, pos + 1),
{
    head_round_trip(data, pos, 0, TarsType::StructEnd);
}

/// The beginning of a structure, where it stands.
proof fn begin_reads(data: Seq<u8>, pos: int, tag: u8)
    requires
        written(data, pos, head_bytes(tag, TarsType::StructBegin)),
        tag < 15,
    ensures
        struct_at(data, pos, tag) == (true, pos + 1),
{
    head_round_trip(data, pos, tag, TarsType::StructBegin);
    assert(sought(data, pos, tag) == (true, pos));
}

/// The parts of a comment's body stand where they should.
proof fn body_parts(
    data: Seq<u8>,
    a: Seq<u8>,
    b: Seq<u8>,
    c: Seq<u8>,
    d: Seq<u8>,
    e: Seq<u8>,
    f: Seq<u8>,
    g: Seq<u8>,
)
    requires
        data == a + b + c + d + e + f + g,
    ensures
        written(data, 0, a),
        written(data, a.len() as int, b),
        written(data, (a.len() + b.len()) as int, c),
        written(data, (a.len() + b.len() + c.len()) as int, d),
        written(data, (a.len() + b.len() + c.len() + d.len()) as int, e),
        written(data, (a.len() + b.len() + c.len() + d.len() + e.len()) as int, f),
        written(data, (a.len() + b.len() + c.len() + d.len() + e.len() + f.len()) as int, g),
{
    assert(data.subrange(0, data.len() as int) =~= data);
    assert(written(data, 0, data));
    written_parts(data, 0, a + b + c + d + e + f, g);
    written_parts(data, 0, a + b + c + d + e, f);
    written_parts(data, 0, a + b + c + d, e);
    written_parts(data, 0, a + b + c, d);
    written_parts(data, 0, a + b, c);
    written_parts(data, 0, a, b);
}

/// A text in a structure is read where it stands.
proof fn inner_text_reads(data: Seq<u8>, pos: int, outer: u8, tag: u8, text: Seq<char>)
    requires
        outer < 15,
        written(data, pos, head_bytes(outer, TarsType::StructBegin)),
        written(data, pos + 1, string_field(tag, text)),
        written(data, pos + 1 + string_field(tag, text).len(), head_bytes(0, TarsType::StructEnd)),
        encode_utf8(text).len() < 0x1_0000_0000,
    ensures
        struct_text(data, pos, outer, tag) == (
            Some(text),
            pos + string_field(tag, text).len() + 2,
        ),
{
    begin_reads(data, pos, outer);
    text_reads(data, pos + 1, tag, text);
    end_reads(data, pos + 1 + string_field(tag, text).len());
}

/// A number in a structure is read where it stands.
proof fn inner_number_reads(data: Seq<u8>, pos: int, outer: u8, tag: u8, value: i32)
    requires
        outer < 15,
        written(data, pos, head_bytes(outer, TarsType::StructBegin)),
        written(data, pos + 1, int_field(tag, value as int)),
        written(data, pos + 1 + int_field(tag, value as int).len(), head_bytes(0, TarsType::StructEnd)),
    ensures
        struct_number(data, pos, outer, tag).0 == Some(value as int),
{
    begin_reads(data, pos, outer);
    int_round_trip(data, pos + 1, tag, value as i64);
    assert(sought(data, pos + 1, tag) == (true, pos + 1));
    end_reads(data, pos + 1 + int_field(tag, value as int).len());
}

/// A text field is longer than its text.
proof fn text_field_len(tag: u8, text: Seq<char>)
    ensures
        encode_utf8(text).len() < string_field(tag, text).len(),
{
}

/// What is read of the three parts of a body is what is told.
proof fn parts_tell(
    data: Seq<u8>,
    name: Seq<char>,
    content: Seq<char>,
    color: i32,
    told: int,
    colored: int,
)
    requires
        color >= -1,
        struct_text(data, 0, 0, 2) == (Some(name), told),
        utf8_in(data, told, 3) == Some(content),
        string_field_at(data, told, 3).1 == colored,
        struct_number(data, colored, 6, 0).0 == Some(color as int),
    ensures
        comment_in(data) == Ok::<Option<Comment>, Seq<char>>(
            if name.len() == 0 {
                None
            } else {
                Some(
                    Comment {
                        name,
                        content,
                        color: if color == -1 {
                            0xff_ffffu32
                        } else {
                            color as u32
                        },
                    },
                )
            },
        ),
{
}

/// The parts of a comment's body are read as they were written.
proof fn body_is_read(name: Seq<char>, content: Seq<char>, color: i32) -> (ends: (int, int))
    requires
        comment_body(name, content, color as int).len() <= i32::MAX,
    ensures
        ({
            let data = comment_body(name, content, color as int);
            &&& struct_text(data, 0, 0, 2) == (Some(name), ends.0)
            &&& utf8_in(data, ends.0, 3) == Some(content)
            &&& string_field_at(data, ends.0, 3).1 == ends.1
            &&& struct_number(data, ends.1, 6, 0).0 == Some(color as int)
        }),
{
    let a = head_bytes(0, TarsType::StructBegin);
    let b = string_field(2, name);
    let c = head_bytes(0, TarsType::StructEnd);
    let d = string_field(3, content);
    let e = head_bytes(6, TarsType::StructBegin);
    let f = int_field(0, color as int);
    let g = head_bytes(0, TarsType::StructEnd);
    let data = comment_body(name, content, color as int);
    body_parts(data, a, b, c, d, e, f, g);
    text_field_len(2, name);
    text_field_len(3, content);
    assert(a.len() == 1 && c.len() == 1 && e.len() == 1);
    let told = 2 + b.len() as int;
    inner_text_reads(data, 0, 0, 2, name);
    text_reads(data, told, 3, content);
    inner_number_reads(data, told + d.len(), 6, 0, color);
    (told, told + d.len())
}

/// A comment is told as it was written: its name, its text and its colour, which is white where
/// it is written as minus one. A comment of an empty name is not told.
pub proof fn comments_are_told(name: Seq<char>, content: Seq<char>, color: i32)
    requires
        comment_body(name, content, color as int).len() <= i32::MAX,
        color >= -1,
    ensures
        comment_in(comment_body(name, content, color as int)) == Ok::<Option<Comment>, Seq<char>>(
            if name.len() == 0 {
                None
            } else {
                Some(
                    Comment {
                        name,
                        content,
                        color: if color == -1 {
                            0xff_ffffu32
                        } else {
                            color as u32
                        },
                    },
                )
            },
        ),
{
    let (told, colored) = body_is_read(name, content, color);
    parts_tell(
        comment_body(name, content, color as int),
        name,
        content,
        color,
        told,
        colored,
    );
}

/// A comment of a colour below minus one is refused, and the error names the colour.
pub proof fn negative_colors_are_refused(name: Seq<char>, content: Seq<char>, color: i32)
    requires
        comment_body(name, content, color as int).len() <= i32::MAX,
        color < -1,
    ensures
        comment_in(comment_body(name, content, color as int)) == Err::<Option<Comment>, Seq<char>>(
            "Huya danmaku color is invalid: "@ + signed_decimal(color as int),
        ),
{
    let (told, colored) = body_is_read(name, content, color);
}

/// A comment without a name, without a text or without a colour is refused, and the error names
/// what is missing first.
pub proof fn incomplete_comments_are_refused(data: Seq<u8>)
    ensures
        struct_text(data, 0, 0, 2).0 is None ==> comment_in(data) == Err::<
            Option<Comment>,
            Seq<char>,
        >("Huya danmaku user name is missing or invalid"@),
        struct_text(data, 0, 0, 2).0 is Some && utf8_in(data, struct_text(data, 0, 0, 2).1, 3) is None
            ==> comment_in(data) == Err::<Option<Comment>, Seq<char>>(
            "Huya danmaku content is missing or invalid"@,
        ),
        struct_text(data, 0, 0, 2).0 is Some && utf8_in(data, struct_text(data, 0, 0, 2).1, 3) is Some
            && struct_number(
            data,
            string_field_at(data, struct_text(data, 0, 0, 2).1, 3).1,
            6,
            0,
        ).0 is None ==> comment_in(data) == Err::<Option<Comment>, Seq<char>>(
            "Huya danmaku color is missing or invalid"@,
        ),
{
}

/// A push without data is refused, and so is a comment without a body; a push of another kind
/// tells nothing, body or not.
pub proof fn incomplete_pushes_are_refused(data: Seq<u8>, p: int, inner: Seq<u8>, kind: int, q: int)
    requires
        int32_field_at(data, 0, 0) == (Some(7int), p),
    ensures
        bytes_field_at(data, p, 1).0 is None ==> told_by(data) == Err::<Option<Comment>, Seq<char>>(
            "Huya push command is missing vData"@,
        ),
        bytes_field_at(data, p, 1).0 == Some(inner) && int64_field_at(inner, 0, 1) == (
            Some(1400int),
            q,
        ) && bytes_field_at(inner, q, 2).0 is None ==> told_by(data) == Err::<
            Option<Comment>,
            Seq<char>,
        >("Huya danmaku push is missing message body"@),
        bytes_field_at(data, p, 1).0 == Some(inner) && int64_field_at(inner, 0, 1) == (
            Some(kind),
            q,
        ) && kind != 1400 ==> told_by(data) == Ok::<Option<Comment>, Seq<char>>(None),
{
}

/// A user number of 64 bits without a sign goes on the wire as the signed one of the same bits.
pub proof fn users_keep_their_bits(uid: u64)
    ensures
        i64::MIN <= as_signed64(uid) <= i64::MAX,
        as_signed64(uid) % 0x1_0000_0000_0000_0000 == uid as int,
        uid <= i64::MAX ==> as_signed64(uid) == uid,
{
}

/// A room that is given is listened to; else the one that the address names, if it names one.
pub proof fn given_rooms_come_first(id: Seq<char>, url: Seq<char>)
    ensures
        room_of(Some(id), url) == Some(id),
        room_of(None, url) == captured(r"huya\.com/([^/?]+)"@, url),
{
}

/// What stands in a structure behind what is read of it is passed over, up to its end; without an
/// end, and without what is sought, nothing is read.
pub proof fn structures_are_passed_over(data: Seq<u8>, pos: int, tag: u8, inner: u8, p: int, text: Seq<char>, number: int)
    requires
        struct_at(data, pos, tag) == (true, p),
    ensures
        ({
            let (closed, end) = skipped_struct(data, string_field_at(data, p, inner).1);
            &&& utf8_in(data, p, inner) == Some(text) && closed ==> struct_text(data, pos, tag, inner)
                == (Some(text), end)
            &&& utf8_in(data, p, inner) is None || !closed ==> struct_text(
                data,
                pos,
                tag,
                inner,
            ).0 is None
        }),
        ({
            let (closed, end) = skipped_struct(data, int32_field_at(data, p, inner).1);
            &&& int32_field_at(data, p, inner).0 == Some(number) && closed ==> struct_number(
                data,
                pos,
                tag,
                inner,
            ) == (Some(number), end)
            &&& int32_field_at(data, p, inner).0 is None || !closed ==> struct_number(
                data,
                pos,
                tag,
                inner,
            ).0 is None
        }),
{
}

/// The presenter of a page is the decimal number that stands behind the word for the user.
pub proof fn presenters_are_decimal_numbers(page: Seq<char>, n: u64)
    ensures
        captured(r#"uid['\"]*:\s*['\"]*(\d+)['\"]*"#@, page) == Some(decimal(n as nat))
            ==> presenter_of(page) == Some(n as int),
        captured(r#"uid['\"]*:\s*['\"]*(\d+)['\"]*"#@, page) is None ==> presenter_of(page) is None,
{
    written_numbers_read(n, 10);
}

/// A comment is told by its name, its text and its colour, and without a user.
pub proof fn comments_are_told_without_a_user(event: DanmakuEvent, comment: Comment)
    requires
        is_comment(event, comment),
    ensures
        event matches DanmakuEvent::Chat(chat) && (chat.name matches Some(name) && name@
            == comment.name) && chat.content@ == comment.content && chat.color == comment.color
            && chat.uid is None,
{
}

} // verus!
