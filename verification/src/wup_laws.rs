//! What a request asks is what a server reads, and what it answers is what comes back.

use crate::outside::lossy_text;
use crate::string_map::{has_key, map_of, value_is_at};
use crate::tars::{byte_entries, bytes_field, head_bytes, int_field, string_field, text_map_field, TarsType};
use crate::tars_input::{byte_map_at, bytes_field_at, head_at, sought, string_field_at, struct_at};
use crate::tars_laws::{bytes_round_trip, encoded_text, entries_fit, head_round_trip, map_round_trip, sought_past_int, sought_past_string, string_round_trip, written, written_parts};
use crate::wup::{answered_token, attributes, framed, no_texts, packet_attributes, packet_bytes, reply_token, response_token, token_request_struct, user_id_struct, wup_request, WupError, FUNC, SERVANT};
use vstd::prelude::*;
use vstd::utf8::encode_utf8;

verus! {

/// Parts that make up the data stand in it one behind the other.
proof fn seven_parts(
    data: Seq<u8>,
    f1: Seq<u8>,
    f2: Seq<u8>,
    f3: Seq<u8>,
    f4: Seq<u8>,
    f5: Seq<u8>,
    f6: Seq<u8>,
    f7: Seq<u8>,
    rest: Seq<u8>,
)
    requires
        data == f1 + f2 + f3 + f4 + f5 + f6 + f7 + rest,
    ensures
        written(data, 0, f1),
        written(data, f1.len() as int, f2),
        written(data, (f1.len() + f2.len()) as int, f3),
        written(data, (f1.len() + f2.len() + f3.len()) as int, f4),
        written(data, (f1.len() + f2.len() + f3.len() + f4.len()) as int, f5),
        written(data, (f1.len() + f2.len() + f3.len() + f4.len() + f5.len()) as int, f6),
        written(
            data,
            (f1.len() + f2.len() + f3.len() + f4.len() + f5.len() + f6.len()) as int,
            f7,
        ),
{
    assert(data.subrange(0, data.len() as int) =~= data);
    assert(written(data, 0, data));
    written_parts(data, 0, f1 + f2 + f3 + f4 + f5 + f6 + f7, rest);
    written_parts(data, 0, f1 + f2 + f3 + f4 + f5 + f6, f7);
    written_parts(data, 0, f1 + f2 + f3 + f4 + f5, f6);
    written_parts(data, 0, f1 + f2 + f3 + f4, f5);
    written_parts(data, 0, f1 + f2 + f3, f4);
    written_parts(data, 0, f1 + f2, f3);
    written_parts(data, 0, f1, f2);
}

/// A text field is longer than its text.
proof fn string_field_len(tag: u8, text: Seq<char>)
    ensures
        encode_utf8(text).len() < string_field(tag, text).len(),
{
}

/// A field of bytes is longer than its bytes.
proof fn bytes_field_len(tag: u8, bytes: Seq<u8>)
    ensures
        bytes.len() < bytes_field(tag, bytes).len(),
{
}

/// The buffer of a packet is found in it, and is shorter than it.
proof fn packet_buffer(
    data: Seq<u8>,
    version: i16,
    request_id: i32,
    servant: Seq<char>,
    func: Seq<char>,
    buffer: Seq<u8>,
)
    requires
        data == packet_bytes(version as int, request_id as int, servant, func, buffer),
        data.len() <= i32::MAX,
    ensures
        bytes_field_at(data, 0, 7).0 == Some(buffer),
        buffer.len() < data.len(),
{
    let f1 = int_field(1, version as int);
    let f2 = int_field(2, 0);
    let f3 = int_field(3, 0);
    let f4 = int_field(4, request_id as int);
    let f5 = string_field(5, servant);
    let f6 = string_field(6, func);
    let f7 = bytes_field(7, buffer);
    let f8 = int_field(8, 0);
    let f9 = text_map_field(9, no_texts());
    let f10 = text_map_field(10, no_texts());
    same_parts(f1 + f2 + f3 + f4 + f5 + f6 + f7, f8, f9, f10);
    seven_parts(data, f1, f2, f3, f4, f5, f6, f7, f8 + f9 + f10);
    let p1 = f1.len() as int;
    let p2 = p1 + f2.len();
    let p3 = p2 + f3.len();
    let p4 = p3 + f4.len();
    let p5 = p4 + f5.len();
    let p6 = p5 + f6.len();
    string_field_len(5, servant);
    string_field_len(6, func);
    bytes_field_len(7, buffer);
    assert(sought(data, 0, 7) == sought(data, p4, 7)) by {
        sought_past_int(data, 0, 1, version as i64, 7);
        sought_past_int(data, p1, 2, 0, 7);
        sought_past_int(data, p2, 3, 0, 7);
        sought_past_int(data, p3, 4, request_id as i64, 7);
    }
    assert(sought(data, p4, 7) == sought(data, p6, 7)) by {
        sought_past_string(data, p4, 5, servant, 7);
        sought_past_string(data, p5, 6, func, 7);
    }
    bytes_round_trip(data, p6, 7, buffer);
    assert(sought(data, p6, 7) == (true, p6));
}

/// A packet stands behind its length.
proof fn framed_packet(packet: Seq<u8>)
    ensures
        framed(packet).len() == 4 + packet.len(),
        framed(packet).skip(4) == packet,
{
    assert(framed(packet).skip(4) =~= packet);
}

proof fn same_parts(a: Seq<u8>, b: Seq<u8>, c: Seq<u8>, d: Seq<u8>)
    ensures
        a + b + c + d == a + (b + c + d),
{
    assert(a + b + c + d =~= a + (b + c + d));
}

/// Attributes are read as the one structure that they were written with.
proof fn attributes_read(name: Seq<char>, body: Seq<u8>)
    requires
        attributes(name, body).len() <= i32::MAX,
    ensures
        byte_map_at(attributes(name, body), 0, 0).0 == Some(
            Map::<Seq<char>, Seq<u8>>::empty().insert(name, body),
        ),
        body.len() < attributes(name, body).len(),
{
    let buffer = attributes(name, body);
    let pairs = seq![(name, body)];
    assert(buffer.subrange(0, buffer.len() as int) =~= buffer);
    assert(pairs.drop_last() =~= Seq::<(Seq<char>, Seq<u8>)>::empty());
    assert(byte_entries(pairs.drop_last()) == Seq::<u8>::empty());
    assert(pairs.last() == (name, body));
    assert(byte_entries(pairs) =~= string_field(0, name) + bytes_field(1, body));
    string_field_len(0, name);
    bytes_field_len(1, body);
    assert(byte_entries(pairs).len() <= buffer.len());
    assert(entries_fit(pairs));
    map_round_trip(buffer, 0, 0, pairs);
    value_is_at(pairs, 0);
    assert(map_of(pairs) =~= Map::<Seq<char>, Seq<u8>>::empty().insert(name, body)) by {
        assert forall|key: Seq<char>| #[trigger] has_key(pairs, key) implies key == name by {
            let k = choose|k: int| 0 <= k < pairs.len() && (#[trigger] pairs[k]).0 == key;
        }
    }
}

/// The attributes of a packet are read as the one structure that they were written with.
pub proof fn attributes_round_trip(
    version: i16,
    request_id: i32,
    servant: Seq<char>,
    func: Seq<char>,
    name: Seq<char>,
    body: Seq<u8>,
)
    requires
        packet_bytes(
            version as int,
            request_id as int,
            servant,
            func,
            attributes(name, body),
        ).len() <= i32::MAX,
    ensures
        packet_attributes(
            framed(
                packet_bytes(
                    version as int,
                    request_id as int,
                    servant,
                    func,
                    attributes(name, body),
                ),
            ),
        ) == Ok::<Map<Seq<char>, Seq<u8>>, WupError>(
            Map::<Seq<char>, Seq<u8>>::empty().insert(name, body),
        ),
        body.len() < i32::MAX,
{
    let buffer = attributes(name, body);
    let packet = packet_bytes(version as int, request_id as int, servant, func, buffer);
    framed_packet(packet);
    packet_buffer(packet, version, request_id, servant, func, buffer);
    attributes_read(name, body);
}

/// The structure that a request carries names the stream that was asked for.
proof fn request_struct_names_stream(stream_name: Seq<char>, agent: Seq<char>)
    requires
        token_request_struct(0, stream_name, agent).len() <= i32::MAX,
    ensures
        ({
            let body = token_request_struct(0, stream_name, agent);
            let (entered, p) = struct_at(body, 0, 0);
            &&& entered
            &&& string_field_at(body, p, 1).0 == Some(encode_utf8(stream_name))
        }),
{
    let body = token_request_struct(0, stream_name, agent);
    let begin = head_bytes(0, TarsType::StructBegin);
    let f0 = string_field(0, ""@);
    let f1 = string_field(1, stream_name);
    let f2 = int_field(2, 0);
    let f3 = user_id_struct(3, agent);
    let f4 = int_field(4, 66);
    let end = head_bytes(0, TarsType::StructEnd);
    assert(body.subrange(0, body.len() as int) =~= body);
    assert(written(body, 0, body));
    written_parts(body, 0, begin + f0 + f1 + f2 + f3 + f4, end);
    written_parts(body, 0, begin + f0 + f1 + f2 + f3, f4);
    written_parts(body, 0, begin + f0 + f1 + f2, f3);
    written_parts(body, 0, begin + f0 + f1, f2);
    written_parts(body, 0, begin + f0, f1);
    written_parts(body, 0, begin, f0);
    head_round_trip(body, 0, 0, TarsType::StructBegin);
    assert(sought(body, 0, 0) == (true, 0int));
    let p = begin.len() as int;
    sought_past_string(body, p, 0, ""@, 1);
    string_round_trip(body, p + f0.len(), 1, stream_name);
    assert(sought(body, p + f0.len(), 1) == (true, p + f0.len()));
}

/// The stream that a request asks for, as a server reads it.
pub open spec fn requested_stream(request: Seq<u8>) -> Option<Seq<char>> {
    match packet_attributes(request) {
        Err(_) => None,
        Ok(map) => if map.contains_key("tReq"@) {
            let (entered, p) = struct_at(map["tReq"@], 0, 0);
            match string_field_at(map["tReq"@], p, 1).0 {
                Some(raw) if entered => Some(lossy_text(raw)),
                _ => None,
            }
        } else {
            None
        },
    }
}

/// A stream that the structure of a request names is the one that is asked for.
proof fn structure_tells_stream(request: Seq<u8>, body: Seq<u8>, stream_name: Seq<char>)
    requires
        packet_attributes(request) == Ok::<Map<Seq<char>, Seq<u8>>, WupError>(
            Map::<Seq<char>, Seq<u8>>::empty().insert("tReq"@, body),
        ),
        struct_at(body, 0, 0).0,
        string_field_at(body, struct_at(body, 0, 0).1, 1).0 == Some(encode_utf8(stream_name)),
    ensures
        requested_stream(request) == Some(stream_name),
{
    encoded_text(stream_name);
}

/// A server reads out of a request the name of the stream that it was made for.
pub proof fn request_names_stream(stream_name: Seq<char>, agent: Seq<char>, request_id: i32)
    requires
        wup_request(stream_name, agent, request_id as int).len() <= i32::MAX,
    ensures
        requested_stream(wup_request(stream_name, agent, request_id as int)) == Some(stream_name),
{
    let body = token_request_struct(0, stream_name, agent);
    let buffer = attributes("tReq"@, body);
    attributes_round_trip(
        3,
        request_id,
        SERVANT@,
        FUNC@,
        "tReq"@,
        body,
    );
    let packet = packet_bytes(
        3,
        request_id as int,
        SERVANT@,
        FUNC@,
        buffer,
    );
    let request = wup_request(stream_name, agent, request_id as int);
    assert(request == framed(packet));
    request_struct_names_stream(stream_name, agent);
    structure_tells_stream(request, body, stream_name);
}

/// An answer is read as the token that it begins with.
proof fn answer_read(token: Seq<char>, rest: Seq<u8>)
    requires
        (head_bytes(0, TarsType::StructBegin) + string_field(0, token) + rest).len() <= i32::MAX,
    ensures
        answered_token(head_bytes(0, TarsType::StructBegin) + string_field(0, token) + rest) == Ok::<
            Seq<char>,
            WupError,
        >(token),
{
    let begin = head_bytes(0, TarsType::StructBegin);
    let text = string_field(0, token);
    let body = begin + text + rest;
    assert(body.subrange(0, body.len() as int) =~= body);
    assert(written(body, 0, body));
    written_parts(body, 0, begin + text, rest);
    written_parts(body, 0, begin, text);
    head_round_trip(body, 0, 0, TarsType::StructBegin);
    assert(sought(body, 0, 0) == (true, 0int));
    let p = begin.len() as int;
    string_field_len(0, token);
    string_round_trip(body, p, 0, token);
    assert(sought(body, p, 0) == (true, p));
    encoded_text(token);
}

/// A token that the answer of a response holds is the token of the response.
proof fn answer_tells_token(response: Seq<u8>, body: Seq<u8>, token: Seq<char>)
    requires
        packet_attributes(response) == Ok::<Map<Seq<char>, Seq<u8>>, WupError>(
            Map::<Seq<char>, Seq<u8>>::empty().insert("tRsp"@, body),
        ),
        answered_token(body) == Ok::<Seq<char>, WupError>(token),
    ensures
        response_token(response) == Ok::<Seq<char>, WupError>(token),
{
}

/// A response whose answer holds a token is read as that token, whatever stands behind it in
/// the answer.
pub proof fn answered_token_comes_back(
    version: i16,
    request_id: i32,
    servant: Seq<char>,
    func: Seq<char>,
    token: Seq<char>,
    rest: Seq<u8>,
)
    requires
        packet_bytes(
            version as int,
            request_id as int,
            servant,
            func,
            attributes(
                "tRsp"@,
                head_bytes(0, TarsType::StructBegin) + string_field(0, token) + rest,
            ),
        ).len() <= i32::MAX,
    ensures
        response_token(
            framed(
                packet_bytes(
                    version as int,
                    request_id as int,
                    servant,
                    func,
                    attributes(
                        "tRsp"@,
                        head_bytes(0, TarsType::StructBegin) + string_field(0, token) + rest,
                    ),
                ),
            ),
        ) == Ok::<Seq<char>, WupError>(token),
{
    let body = head_bytes(0, TarsType::StructBegin) + string_field(0, token) + rest;
    let response = framed(
        packet_bytes(
            version as int,
            request_id as int,
            servant,
            func,
            attributes("tRsp"@, body),
        ),
    );
    attributes_round_trip(version, request_id, servant, func, "tRsp"@, body);
    answer_read(token, rest);
    answer_tells_token(response, body, token);
}

/// A response is refused at the first thing that is wrong with it: too few bytes for its length,
/// no buffer under tag seven, no attributes in it, no answer among them.
pub proof fn broken_responses_are_refused(response: Seq<u8>)
    ensures
        response.len() < 4 ==> response_token(response) == Err::<Seq<char>, WupError>(
            WupError::TooShort,
        ),
        response.len() >= 4 && bytes_field_at(response.skip(4), 0, 7).0 is None ==> response_token(
            response,
        ) == Err::<Seq<char>, WupError>(WupError::MissingBuffer),
        response.len() >= 4 ==> (bytes_field_at(response.skip(4), 0, 7).0 matches Some(buffer)
            ==> (byte_map_at(buffer, 0, 0).0 is None ==> response_token(response) == Err::<
            Seq<char>,
            WupError,
        >(WupError::BadAttributes))),
        response.len() >= 4 ==> (bytes_field_at(response.skip(4), 0, 7).0 matches Some(buffer)
            ==> (byte_map_at(buffer, 0, 0).0 matches Some(map) ==> (!map.contains_key("tRsp"@)
            ==> response_token(response) == Err::<Seq<char>, WupError>(
            WupError::MissingResponse,
        )))),
{
}

/// An answer is refused where it has no structure under tag zero, or the structure no text under
/// tag zero.
pub proof fn broken_answers_are_refused(answer: Seq<u8>)
    ensures
        !sought(answer, 0, 0).0 ==> answered_token(answer) == Err::<Seq<char>, WupError>(
            WupError::BadToken,
        ),
        struct_at(answer, 0, 0).0 && string_field_at(answer, struct_at(answer, 0, 0).1, 0).0 is None
            ==> answered_token(answer) == Err::<Seq<char>, WupError>(WupError::MissingToken),
        sought(answer, 0, 0).0 && head_at(answer, sought(answer, 0, 0).1).0 is Some && !struct_at(
            answer,
            0,
            0,
        ).0 ==> answered_token(answer) == Err::<Seq<char>, WupError>(WupError::NotAStruct),
{
}

/// Each error says what is wrong.
pub proof fn errors_say_what_is_wrong(error: WupError)
    ensures
        error is TooShort ==> error.text() == "虎牙 WUP 响应过短"@,
        error is MissingBuffer ==> error.text() == "虎牙 WUP 响应缺少 sBuffer"@,
        error is BadAttributes ==> error.text() == "虎牙 WUP 响应属性解析失败"@,
        error is MissingResponse ==> error.text() == "虎牙 WUP 响应缺少 tRsp"@,
        error is BadToken ==> error.text() == "虎牙 WUP token 结构无效"@,
        error is NotAStruct ==> error.text() == "虎牙 WUP token 不是结构体"@,
        error is MissingToken ==> error.text() == "虎牙 WUP sFlvToken 为空"@,
{
}

/// A reply of success gives the token of its body, or what is wrong with it; any other gives its
/// status.
pub proof fn replies_give_their_token(status: Seq<char>, body: Seq<u8>)
    ensures
        reply_token(false, status, body) == Err::<Seq<char>, Seq<char>>(
            "虎牙 WUP 请求失败: HTTP "@ + status,
        ),
        response_token(body) matches Ok(token) ==> reply_token(true, status, body) == Ok::<
            Seq<char>,
            Seq<char>,
        >(token),
        response_token(body) matches Err(e) ==> reply_token(true, status, body) == Err::<
            Seq<char>,
            Seq<char>,
        >(e.text()),
{
}

} // verus!
