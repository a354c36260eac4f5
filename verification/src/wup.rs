//! The getCdnTokenInfoEx call of the Huya WUP service: its request and its response.

use crate::live::{tells, LiveError};
use crate::outside::{lossy_text, random_below};
use crate::string_map::{single_pair, StringMap};
use crate::tars::{be32, byte_map_field, bytes_field, head_bytes, int_field, string_field, low_u32, text_map_field, TarsOutputStream, TarsType};
use crate::tars_input::{byte_map_at, bytes_field_at, head_at, sought, string_field_at, TarsInputStream};
use crate::text::{decimal, push_decimal};
use vstd::prelude::*;
use vstd::slice::slice_subrange;

verus! {

pub const HUYA_WUP_BASE_URL: &'static str = "https://wup.huya.com";

pub const HUYA_WUP_YST_URL: &'static str = "https://snmhuya.yst.aisee.tv";

pub const HUYA_WEB_BASE_URL: &'static str = "https://www.huya.com";

pub const WUP_UA: &'static str =
    "HYSDK(Windows,30000002)_APP(pc_exe&7030003&official)_SDK(trans&2.29.0.5493)";

/// The number that requests carry.
pub const DEFAULT_REQUEST_ID: i32 = 1;

pub const SERVANT: &'static str = "liveui";

pub const FUNC: &'static str = "getCdnTokenInfoEx";

// ---------------------------------------------------------------------------
// The request
// ---------------------------------------------------------------------------

/// No entries at all.
pub open spec fn no_texts() -> Seq<(Seq<char>, Seq<char>)> {
    Seq::empty()
}

/// The user of a request, of whom only the agent is known.
pub open spec fn user_id_struct(tag: u8, agent: Seq<char>) -> Seq<u8> {
    head_bytes(tag, TarsType::StructBegin) + int_field(0, 0) + string_field(1, ""@)
        + string_field(2, ""@) + string_field(3, agent) + string_field(4, ""@) + int_field(5, 0)
        + string_field(6, ""@) + string_field(7, ""@) + head_bytes(0, TarsType::StructEnd)
}

/// What is asked: the token of one stream.
pub open spec fn token_request_struct(
    tag: u8,
    stream_name: Seq<char>,
    agent: Seq<char>,
) -> Seq<u8> {
    head_bytes(tag, TarsType::StructBegin) + string_field(0, ""@) + string_field(1, stream_name)
        + int_field(2, 0) + user_id_struct(3, agent) + int_field(4, 66) + head_bytes(
        0,
        TarsType::StructEnd,
    )
}

/// The packet around `buffer`.
pub open spec fn packet_bytes(
    version: int,
    request_id: int,
    servant: Seq<char>,
    func: Seq<char>,
    buffer: Seq<u8>,
) -> Seq<u8> {
    int_field(1, version) + int_field(2, 0) + int_field(3, 0) + int_field(4, request_id)
        + string_field(5, servant) + string_field(6, func) + bytes_field(7, buffer) + int_field(
        8,
        0,
    ) + text_map_field(9, no_texts()) + text_map_field(10, no_texts())
}

/// A packet behind its length, which counts itself.
pub open spec fn framed(packet: Seq<u8>) -> Seq<u8> {
    be32((4 + packet.len() as int) % 0x1_0000_0000) + packet
}

/// The attributes of a packet: one structure under one name.
pub open spec fn attributes(name: Seq<char>, body: Seq<u8>) -> Seq<u8> {
    byte_map_field(0, seq![(name, body)])
}

/// A whole request.
pub open spec fn wup_request(
    stream_name: Seq<char>,
    agent: Seq<char>,
    request_id: int,
) -> Seq<u8> {
    framed(
        packet_bytes(
            3,
            request_id,
            SERVANT@,
            FUNC@,
            attributes("tReq"@, token_request_struct(0, stream_name, agent)),
        ),
    )
}

impl TarsOutputStream {
    pub fn write_user_id(&mut self, tag: u8, s_huya_ua: &str)
        ensures
            final(self)@ == old(self)@ + user_id_struct(tag, s_huya_ua@),
    {
        self.write_struct_begin(tag);
        self.write_int64(0, 0);
        self.write_string(1, "");
        self.write_string(2, "");
        self.write_string(3, s_huya_ua);
        self.write_string(4, "");
        self.write_int32(5, 0);
        self.write_string(6, "");
        self.write_string(7, "");
        self.write_struct_end();
        assert(self@ =~= old(self)@ + user_id_struct(tag, s_huya_ua@));
    }

    pub fn write_cdn_token_ex_req(&mut self, tag: u8, stream_name: &str, s_huya_ua: &str)
        ensures
            final(self)@ == old(self)@ + token_request_struct(tag, stream_name@, s_huya_ua@),
    {
        self.write_struct_begin(tag);
        self.write_string(0, "");
        self.write_string(1, stream_name);
        self.write_int32(2, 0);
        self.write_user_id(3, s_huya_ua);
        self.write_int32(4, 66);
        self.write_struct_end();
        assert(self@ =~= old(self)@ + token_request_struct(tag, stream_name@, s_huya_ua@));
    }

    pub fn write_request_packet(
        &mut self,
        version: i16,
        request_id: i32,
        servant: &str,
        func: &str,
        s_buffer: &[u8],
    )
        ensures
            final(self)@ == old(self)@ + packet_bytes(
                version as int,
                request_id as int,
                servant@,
                func@,
                s_buffer@,
            ),
    {
        self.write_int16(1, version);
        self.write_int8(2, 0);
        self.write_int32(3, 0);
        self.write_int32(4, request_id);
        self.write_string(5, servant);
        self.write_string(6, func);
        self.write_bytes(7, s_buffer);
        self.write_int32(8, 0);
        let none: StringMap<String> = StringMap::new();
        self.write_map_string_string(9, &none);
        self.write_map_string_string(10, &none);
        assert(self@ =~= old(self)@ + packet_bytes(
            version as int,
            request_id as int,
            servant@,
            func@,
            s_buffer@,
        ));
    }
}

/// Puts the length before a packet.
pub fn frame_packet(packet: &[u8]) -> (bytes: Vec<u8>)
    ensures
        bytes@ == framed(packet@),
{
    let low: u32 = low_u32(packet.len());
    let length: u32 = ((low as u64 + 4) % 0x1_0000_0000) as u32;
    proof {
        vstd::arithmetic::div_mod::lemma_add_mod_noop_right(
            4,
            packet@.len() as int,
            0x1_0000_0000,
        );
    }
    assert(length == (4 + packet@.len() as int) % 0x1_0000_0000);
    let mut out = TarsOutputStream::new();
    out.push_be32(length);
    out.push_slice(packet);
    assert(out@ =~= framed(packet@));
    out.into_buffer()
}

/// The request for the token of `stream_name`.
pub fn encode_wup_request(stream_name: &str, s_huya_ua: &str, request_id: i32) -> (bytes: Vec<u8>)
    ensures
        bytes@ == wup_request(stream_name@, s_huya_ua@, request_id as int),
{
    let mut req_body = TarsOutputStream::new();
    req_body.write_cdn_token_ex_req(0, stream_name, s_huya_ua);
    let body: Vec<u8> = req_body.into_buffer();
    let ghost body_bytes = body@;
    let mut attrs: StringMap<Vec<u8>> = StringMap::new();
    attrs.insert("tReq".to_owned(), body);
    proof {
        single_pair(attrs.pairs(), "tReq"@, body_bytes);
    }
    let mut attr_stream = TarsOutputStream::new();
    attr_stream.write_map_string_bytes(0, &attrs);
    let mut packet = TarsOutputStream::new();
    packet.write_request_packet(3, request_id, SERVANT, FUNC, attr_stream.get_buffer());
    let packet_bytes: Vec<u8> = packet.into_buffer();
    frame_packet(packet_bytes.as_slice())
}

// ---------------------------------------------------------------------------
// The response
// ---------------------------------------------------------------------------

/// Why a response holds no token.
#[derive(Debug, Clone, Copy, PartialEq, Eq, Structural)]
pub enum WupError {
    /// It is shorter than its length field.
    TooShort,
    /// The packet has no buffer.
    MissingBuffer,
    /// The buffer holds no attributes.
    BadAttributes,
    /// The attributes hold no answer.
    MissingResponse,
    /// The answer has no field at its start.
    BadToken,
    /// The answer is not a structure.
    NotAStruct,
    /// The structure holds no token.
    MissingToken,
}

impl WupError {
    pub open spec fn text(self) -> Seq<char> {
        match self {
            WupError::TooShort => "虎牙 WUP 响应过短"@,
            WupError::MissingBuffer => "虎牙 WUP 响应缺少 sBuffer"@,
            WupError::BadAttributes => "虎牙 WUP 响应属性解析失败"@,
            WupError::MissingResponse => "虎牙 WUP 响应缺少 tRsp"@,
            WupError::BadToken => "虎牙 WUP token 结构无效"@,
            WupError::NotAStruct => "虎牙 WUP token 不是结构体"@,
            WupError::MissingToken => "虎牙 WUP sFlvToken 为空"@,
        }
    }

    pub fn message(self) -> (text: String)
        ensures
            text@ == self.text(),
    {
        match self {
            WupError::TooShort => "虎牙 WUP 响应过短".to_owned(),
            WupError::MissingBuffer => "虎牙 WUP 响应缺少 sBuffer".to_owned(),
            WupError::BadAttributes => "虎牙 WUP 响应属性解析失败".to_owned(),
            WupError::MissingResponse => "虎牙 WUP 响应缺少 tRsp".to_owned(),
            WupError::BadToken => "虎牙 WUP token 结构无效".to_owned(),
            WupError::NotAStruct => "虎牙 WUP token 不是结构体".to_owned(),
            WupError::MissingToken => "虎牙 WUP sFlvToken 为空".to_owned(),
        }
    }
}

/// The token of an answer: the text of tag 0 in the structure of tag 0.
pub open spec fn answered_token(answer: Seq<u8>) -> Result<Seq<char>, WupError> {
    match sought(answer, 0, 0) {
        (false, _) => Err(WupError::BadToken),
        (true, p) => match head_at(answer, p) {
            (None, _) => Err(WupError::BadToken),
            (Some((_, t)), q) => if t != TarsType::StructBegin {
                Err(WupError::NotAStruct)
            } else {
                match string_field_at(answer, q, 0).0 {
                    Some(raw) => Ok(lossy_text(raw)),
                    None => Err(WupError::MissingToken),
                }
            },
        },
    }
}

/// The attributes of a framed packet.
pub open spec fn packet_attributes(response: Seq<u8>) -> Result<
    Map<Seq<char>, Seq<u8>>,
    WupError,
> {
    if response.len() < 4 {
        Err(WupError::TooShort)
    } else {
        match bytes_field_at(response.skip(4), 0, 7).0 {
            None => Err(WupError::MissingBuffer),
            Some(buffer) => match byte_map_at(buffer, 0, 0).0 {
                None => Err(WupError::BadAttributes),
                Some(map) => Ok(map),
            },
        }
    }
}

/// The token of a response.
pub open spec fn response_token(response: Seq<u8>) -> Result<Seq<char>, WupError> {
    match packet_attributes(response) {
        Err(e) => Err(e),
        Ok(map) => if map.contains_key("tRsp"@) {
            answered_token(map["tRsp"@])
        } else {
            Err(WupError::MissingResponse)
        },
    }
}

/// Takes the token out of a response.
pub fn decode_wup_flv_token(buf: &[u8]) -> (token: Result<String, WupError>)
    ensures
        match response_token(buf@) {
            Ok(text) => token is Ok && token->Ok_0@ == text,
            Err(e) => token == Err::<String, WupError>(e),
        },
{
    if buf.len() < 4 {
        return Err(WupError::TooShort);
    }
    let packet: &[u8] = slice_subrange(buf, 4, buf.len());
    assert(packet@ =~= buf@.skip(4));
    let mut packet_stream = TarsInputStream::new(packet);
    let s_buffer: Vec<u8> = match packet_stream.read_bytes_at(7) {
        Some(bytes) => bytes,
        None => return Err(WupError::MissingBuffer),
    };
    let mut attr_stream = TarsInputStream::new(s_buffer.as_slice());
    let attrs: StringMap<Vec<u8>> = match attr_stream.read_map_string_bytes_at(0) {
        Some(map) => map,
        None => return Err(WupError::BadAttributes),
    };
    let rsp_bytes: &Vec<u8> = match attrs.get("tRsp") {
        Some(bytes) => bytes,
        None => return Err(WupError::MissingResponse),
    };
    let mut rsp_stream = TarsInputStream::new(rsp_bytes.as_slice());
    if !rsp_stream.skip_to_tag(0) {
        return Err(WupError::BadToken);
    }
    match rsp_stream.read_head() {
        None => Err(WupError::BadToken),
        Some((_, t)) => {
            if t != TarsType::StructBegin {
                return Err(WupError::NotAStruct);
            }
            match rsp_stream.read_string_at(0) {
                Some(token) => Ok(token),
                None => Err(WupError::MissingToken),
            }
        },
    }
}

// ---------------------------------------------------------------------------
// Sending
// ---------------------------------------------------------------------------

/// The agents that a request may name: platform, version, and whether a build and an API level
/// follow.
pub open spec fn agent_kind(kind: int) -> (Seq<char>, Seq<char>, bool) {
    if kind == 0 {
        ("adr"@, "13.1.0"@, true)
    } else if kind == 1 {
        ("ios"@, "13.1.0"@, false)
    } else if kind == 2 {
        ("nftv"@, "2.6.10"@, true)
    } else {
        ("pc_exe"@, "7000000"@, false)
    }
}

/// The agent of a kind, with the build and the API level that it may carry.
pub open spec fn agent_text(kind: int, build: int, level: int) -> Seq<char> {
    let (platform, version, android_like) = agent_kind(kind);
    if android_like {
        platform + "&"@ + version + "."@ + decimal(build as nat) + "&official&"@ + decimal(
            level as nat,
        )
    } else {
        platform + "&"@ + version + "&official"@
    }
}

/// Writes an agent.
pub fn hyapp_ua(kind: u64, build: u64, level: u64) -> (ua: String)
    ensures
        ua@ == agent_text(kind as int, build as int, level as int),
{
    let mut ua = String::new();
    let android_like: bool = kind == 0 || kind == 2;
    if kind == 0 {
        ua.append("adr");
    } else if kind == 1 {
        ua.append("ios");
    } else if kind == 2 {
        ua.append("nftv");
    } else {
        ua.append("pc_exe");
    }
    ua.append("&");
    if kind == 0 || kind == 1 {
        ua.append("13.1.0");
    } else if kind == 2 {
        ua.append("2.6.10");
    } else {
        ua.append("7000000");
    }
    if android_like {
        ua.append(".");
        push_decimal(&mut ua, build);
        ua.append("&official&");
        push_decimal(&mut ua, level);
    } else {
        ua.append("&official");
    }
    assert(ua@ =~= agent_text(kind as int, build as int, level as int));
    ua
}

/// An agent as requests name it: any kind, builds 3000 to 5000, levels 28 to 36.
pub open spec fn is_agent(ua: Seq<char>) -> bool {
    exists|kind: int, build: int, level: int|
        0 <= kind < 4 && 3000 <= build <= 5000 && 28 <= level <= 36 && ua
            == #[trigger] agent_text(kind, build, level)
}

/// Draws an agent.
pub fn random_hyapp_ua() -> (ua: String)
    ensures
        is_agent(ua@),
{
    let kind: u64 = random_below(4);
    let build: u64 = 3000 + random_below(2001);
    let level: u64 = 28 + random_below(9);
    hyapp_ua(kind, build, level)
}

/// Where a request goes.
pub open spec fn service_url(use_yst: bool) -> Seq<char> {
    if use_yst {
        HUYA_WUP_YST_URL@ + "/"@ + SERVANT@ + "/"@ + FUNC@
    } else {
        HUYA_WUP_BASE_URL@
    }
}

/// The address of the service, on one of its two hosts.
pub fn wup_url(use_yst: bool) -> (url: String)
    ensures
        url@ == service_url(use_yst),
{
    let mut url = String::new();
    if use_yst {
        url.append(HUYA_WUP_YST_URL);
        url.append("/");
        url.append(SERVANT);
        url.append("/");
        url.append(FUNC);
    } else {
        url.append(HUYA_WUP_BASE_URL);
    }
    assert(url@ =~= service_url(use_yst));
    url
}

/// A request ready to be sent.
#[derive(Debug)]
pub struct WupCall {
    pub url: String,
    pub body: Vec<u8>,
}

/// Prepares the request for the token of `stream_name`, on a host and under an agent that are
/// drawn.
pub fn prepare_cdn_token_call(stream_name: &str) -> (call: WupCall)
    ensures
        call.url@ == service_url(true) || call.url@ == service_url(false),
        exists|ua: Seq<char>|
            #[trigger] is_agent(ua) && call.body@ == wup_request(
                stream_name@,
                ua,
                1,
            ),
{
    let ua: String = random_hyapp_ua();
    let body: Vec<u8> = encode_wup_request(stream_name, ua.as_str(), DEFAULT_REQUEST_ID);
    let url: String = wup_url(random_below(2) == 1);
    assert(is_agent(ua@));
    WupCall { url, body }
}

/// What a reply gives: its token, or the text of the error.
pub open spec fn reply_token(success: bool, status: Seq<char>, body: Seq<u8>) -> Result<
    Seq<char>,
    Seq<char>,
> {
    if !success {
        Err("虎牙 WUP 请求失败: HTTP "@ + status)
    } else {
        match response_token(body) {
            Ok(text) => Ok(text),
            Err(e) => Err(e.text()),
        }
    }
}

/// What a reply gives: its token, where its status is a success.
pub fn cdn_token_of_reply(success: bool, status: &str, body: &[u8]) -> (token: Result<
    String,
    LiveError,
>)
    ensures
        match reply_token(success, status@, body@) {
            Ok(text) => token is Ok && token->Ok_0@ == text,
            Err(text) => token is Err && tells(token->Err_0, text),
        },
{
    if !success {
        return Err(LiveError::because("虎牙 WUP 请求失败: HTTP ", status));
    }
    match decode_wup_flv_token(body) {
        Ok(token) => Ok(token),
        Err(e) => Err(LiveError::Custom(e.message())),
    }
}

} // verus!
