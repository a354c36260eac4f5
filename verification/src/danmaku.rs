//! Comments of Huya rooms, carried in TARS structures over a web socket.

use crate::outside::random_below;
use crate::outside_web::{captured, regex_capture};
use crate::tars::{bytes_field, int_field, string_field, TarsOutputStream};
use crate::tars_input::{bytes_field_at, int32_field_at, int64_field_at, skipped_struct, string_field_at, struct_at, TarsInputStream};
use crate::text::{chars_of, decimal, parse_number, parsed, push_decimal, push_signed, signed_decimal};
use crate::time::Duration;
use vstd::prelude::*;
use vstd::slice::slice_to_vec;
use vstd::utf8::{decode_utf8, valid_utf8};

verus! {

/// Where comments come from.
pub const WSS_URL: &'static str = "wss://cdnws.api.huya.com/";

/// How long the page of a room may take.
pub const ROOM_PAGE_TIMEOUT_SECS: u64 = 5;

/// What names the room in an address.
pub const ROOM_ID_PATTERN: &'static str = r"huya\.com/([^/?]+)";

/// What names the presenter in the page of a room.
pub const ROOM_UID_PATTERN: &'static str = r#"uid['\"]*:\s*['\"]*(\d+)['\"]*"#;

/// The command that registers a listener.
pub const REGISTER_REQ: i32 = 1;

/// The answer to a registration.
pub const REGISTER_RSP: i32 = 2;

/// The command that keeps a connection alive.
pub const HEARTBEAT_REQ: i32 = 5;

/// The answer to it.
pub const HEARTBEAT_ACK: i32 = 6;

/// The command that carries a message.
pub const MSG_PUSH_REQ: i32 = 7;

/// The kind of message that is a comment.
pub const COMMENT_MESSAGE: i64 = 1400;

/// White, the colour of comments that have none.
pub const DEFAULT_COLOR: u32 = 0xffffff;

/// How often a connection is kept alive, and how long before the first time.
pub const HEARTBEAT_SECS: u64 = 60;

/// Why a message could not be read.
#[derive(Debug)]
pub enum DanmakuError {
    Decode(String),
}

/// The error tells `text`.
pub open spec fn says(error: DanmakuError, text: Seq<char>) -> bool {
    error matches DanmakuError::Decode(t) && t@ == text
}

/// A comment.
#[derive(Debug)]
pub struct ChatMessage {
    pub name: Option<String>,
    pub content: String,
    pub color: u32,
    pub uid: Option<String>,
}

/// What a message tells.
#[derive(Debug)]
pub enum DanmakuEvent {
    Chat(ChatMessage),
}

/// A comment by its view.
pub struct Comment {
    pub name: Seq<char>,
    pub content: Seq<char>,
    pub color: u32,
}

/// The event is a comment of that name, text and colour, and of no known user.
pub open spec fn is_comment(event: DanmakuEvent, comment: Comment) -> bool {
    match event {
        DanmakuEvent::Chat(chat) => {
            &&& chat.name matches Some(name) && name@ == comment.name
            &&& chat.content@ == comment.content
            &&& chat.color == comment.color
            &&& chat.uid is None
        },
    }
}

/// The text of a field of a structure's content, where it is UTF-8.
pub open spec fn utf8_in(data: Seq<u8>, pos: int, tag: u8) -> Option<Seq<char>> {
    match string_field_at(data, pos, tag).0 {
        Some(raw) if valid_utf8(raw) => Some(decode_utf8(raw)),
        _ => None,
    }
}

/// What was read in a structure, where the structure is there and closed, and the position behind
/// it. What stands behind what was read is passed over.
pub open spec fn closed_struct<T>(data: Seq<u8>, read: Option<T>, pos: int) -> (Option<T>, int) {
    match read {
        None => (None, pos),
        Some(value) => {
            let (closed, end) = skipped_struct(data, pos);
            if closed {
                (Some(value), end)
            } else {
                (None, end)
            }
        },
    }
}

/// The text of tag `inner` in the structure of tag `tag`.
pub open spec fn struct_text(data: Seq<u8>, pos: int, tag: u8, inner: u8) -> (
    Option<Seq<char>>,
    int,
) {
    match struct_at(data, pos, tag) {
        (false, p) => (None, p),
        (true, p) => closed_struct(data, utf8_in(data, p, inner), string_field_at(data, p, inner).1),
    }
}

/// The number of tag `inner` in the structure of tag `tag`.
pub open spec fn struct_number(data: Seq<u8>, pos: int, tag: u8, inner: u8) -> (Option<int>, int) {
    match struct_at(data, pos, tag) {
        (false, p) => (None, p),
        (true, p) => closed_struct(
            data,
            int32_field_at(data, p, inner).0,
            int32_field_at(data, p, inner).1,
        ),
    }
}

/// What a comment's body holds: the comment, nothing where its name is empty, or the text of an
/// error.
pub open spec fn comment_in(data: Seq<u8>) -> Result<Option<Comment>, Seq<char>> {
    match struct_text(data, 0, 0, 2) {
        (None, _) => Err("Huya danmaku user name is missing or invalid"@),
        (Some(name), p) => match (utf8_in(data, p, 3), string_field_at(data, p, 3).1) {
            (None, _) => Err("Huya danmaku content is missing or invalid"@),
            (Some(content), q) => match struct_number(data, q, 6, 0) {
                (None, _) => Err("Huya danmaku color is missing or invalid"@),
                (Some(raw), _) => if raw < -1 {
                    Err("Huya danmaku color is invalid: "@ + signed_decimal(raw))
                } else if name.len() == 0 {
                    Ok(None)
                } else {
                    Ok(
                        Some(
                            Comment {
                                name,
                                content,
                                color: if raw == -1 {
                                    DEFAULT_COLOR
                                } else {
                                    raw as u32
                                },
                            },
                        ),
                    )
                },
            },
        },
    }
}

/// What a message tells: a comment, nothing, or the text of an error.
pub open spec fn told_by(data: Seq<u8>) -> Result<Option<Comment>, Seq<char>> {
    let (command, p) = int32_field_at(data, 0, 0);
    if command != Some(MSG_PUSH_REQ as int) {
        Ok(None)
    } else {
        match bytes_field_at(data, p, 1).0 {
            None => Err("Huya push command is missing vData"@),
            Some(inner) => {
                let (kind, q) = int64_field_at(inner, 0, 1);
                if kind != Some(COMMENT_MESSAGE as int) {
                    Ok(None)
                } else {
                    match bytes_field_at(inner, q, 2).0 {
                        None => Err("Huya danmaku push is missing message body"@),
                        Some(body) => comment_in(body),
                    }
                }
            },
        }
    }
}

/// The registration of a listener for the room of `uid`, read as a signed number.
pub open spec fn user_info(uid: int) -> Seq<u8> {
    int_field(0, uid) + int_field(1, 0) + string_field(2, ""@) + string_field(3, ""@) + int_field(
        4,
        0,
    ) + int_field(5, 0) + int_field(6, uid) + int_field(7, 3)
}

/// A command and what it carries.
pub open spec fn command(kind: int, data: Seq<u8>) -> Seq<u8> {
    int_field(0, kind) + bytes_field(1, data)
}

/// `n` as a signed number of 64 bits.
pub open spec fn as_signed64(n: u64) -> int {
    if n >= 0x8000_0000_0000_0000 {
        n - 0x1_0000_0000_0000_0000
    } else {
        n as int
    }
}

fn signed64(n: u64) -> (value: i64)
    ensures
        value == as_signed64(n),
{
    if n >= 0x8000_0000_0000_0000 {
        (n as i128 - 0x1_0000_0000_0000_0000) as i64
    } else {
        n as i64
    }
}

/// The agent that pages and sockets are asked with.
pub open spec fn user_agent_text(version: int) -> Seq<char> {
    "Mozilla/5.0 (Windows NT 10.0; Win64; x64) AppleWebKit/537.36 (KHTML, like Gecko) Chrome/"@
        + decimal(version as nat) + ".0.0.0 Safari/537.36"@
}

/// The agent of a version.
pub fn user_agent_of(version: u64) -> (agent: String)
    ensures
        agent@ == user_agent_text(version as int),
{
    let mut agent: String =
        "Mozilla/5.0 (Windows NT 10.0; Win64; x64) AppleWebKit/537.36 (KHTML, like Gecko) Chrome/".to_owned();
    push_decimal(&mut agent, version);
    agent.append(".0.0.0 Safari/537.36");
    agent
}

/// Draws an agent: a version from 100 to 120.
pub fn random_user_agent() -> (agent: String)
    ensures
        exists|version: int| 100 <= version <= 120 && agent@ == #[trigger] user_agent_text(version),
{
    let version: u64 = 100 + random_below(21);
    user_agent_of(version)
}

/// What keeps a connection alive.
pub open spec fn heartbeat_bytes() -> Seq<u8> {
    seq![
        0x00u8, 0x03, 0x1d, 0x00, 0x00, 0x69, 0x00, 0x00, 0x00, 0x69, 0x10, 0x03, 0x2c, 0x3c, 0x4c,
        0x56, 0x08, 0x6f, 0x6e, 0x6c, 0x69, 0x6e, 0x65, 0x75, 0x69, 0x66, 0x0f, 0x4f, 0x6e, 0x55,
        0x73, 0x65, 0x72, 0x48, 0x65, 0x61, 0x72, 0x74, 0x42, 0x65, 0x61, 0x74, 0x7d, 0x00, 0x00,
        0x3c, 0x08, 0x00, 0x01, 0x06, 0x04, 0x74, 0x52, 0x65, 0x71, 0x1d, 0x00, 0x00, 0x2f, 0x0a,
        0x0a, 0x0c, 0x16, 0x00, 0x26, 0x00, 0x36, 0x07, 0x61, 0x64, 0x72, 0x5f, 0x77, 0x61, 0x70,
        0x46, 0x00, 0x0b, 0x12, 0x03, 0xae, 0xf0, 0x0f, 0x22, 0x03, 0xae, 0xf0, 0x0f, 0x3c, 0x42,
        0x6d, 0x52, 0x02, 0x60, 0x5c, 0x60, 0x01, 0x7c, 0x82, 0x00, 0x0b, 0xb0, 0x1f, 0x9c, 0xac,
        0x0b, 0x8c, 0x98, 0x0c, 0xa8, 0x0c, 0x20,
    ]
}

/// The room to listen to: the one that is given, else the one that an address names.
pub open spec fn room_of(room_id: Option<Seq<char>>, url: Seq<char>) -> Option<Seq<char>> {
    match room_id {
        Some(id) => Some(id),
        None => captured(ROOM_ID_PATTERN@, url),
    }
}

/// The presenter that the page of a room names.
pub open spec fn presenter_of(page: Seq<char>) -> Option<int> {
    match captured(ROOM_UID_PATTERN@, page) {
        None => None,
        Some(text) => parsed(text, 10),
    }
}

/// How a connection is kept alive.
#[derive(Debug)]
pub struct HeartbeatConfig {
    pub payload: Vec<u8>,
    pub interval: Duration,
}

/// Comments of a Huya room.
#[derive(Debug, Clone, Copy)]
pub struct Huya;

impl Huya {
    pub fn new() -> (huya: Self)
        ensures
            huya == Huya,
    {
        Huya
    }

    pub fn name(&self) -> (name: &'static str)
        ensures
            name@ == "Huya"@,
    {
        "Huya"
    }

    /// The room that an address names.
    pub fn extract_room_id(url: &str) -> (room: Option<String>)
        ensures
            match room {
                Some(text) => captured(ROOM_ID_PATTERN@, url@) == Some(text@),
                None => captured(ROOM_ID_PATTERN@, url@) is None,
            },
    {
        regex_capture(ROOM_ID_PATTERN, url)
    }

    /// The number of a user, if the text is one.
    pub fn parse_uid(text: &str) -> (uid: Option<u64>)
        ensures
            parsed(text@, 10) == match uid {
                Some(n) => Some(n as int),
                None => None,
            },
    {
        parse_number(chars_of(text).as_slice(), 10)
    }

    /// The presenter that the page of a room names.
    pub fn extract_room_uid(room_page: &str) -> (uid: Option<u64>)
        ensures
            presenter_of(room_page@) == match uid {
                Some(n) => Some(n as int),
                None => None,
            },
    {
        match regex_capture(ROOM_UID_PATTERN, room_page) {
            Some(text) => Self::parse_uid(text.as_str()),
            None => None,
        }
    }

    /// The registration of a listener for the room of `uid`.
    pub fn build_ws_user_info(uid: u64) -> (data: Vec<u8>)
        ensures
            data@ == user_info(as_signed64(uid)),
    {
        let mut oos = TarsOutputStream::new();
        let user: i64 = signed64(uid);
        oos.write_int64(0, user);
        oos.write_bool(1, false);
        oos.write_string(2, "");
        oos.write_string(3, "");
        oos.write_int64(4, 0);
        oos.write_int64(5, 0);
        oos.write_int64(6, user);
        oos.write_int64(7, 3);
        assert(oos@ =~= user_info(as_signed64(uid)));
        oos.into_buffer()
    }

    /// A command and what it carries.
    pub fn build_ws_command(cmd_type: i32, data: &[u8]) -> (packet: Vec<u8>)
        ensures
            packet@ == command(cmd_type as int, data@),
    {
        let mut oos = TarsOutputStream::new();
        oos.write_int32(0, cmd_type);
        oos.write_bytes(1, data);
        assert(oos@ =~= command(cmd_type as int, data@));
        oos.into_buffer()
    }

    /// The packet that registers a listener for the room of `uid`.
    pub fn registration(uid: u64) -> (packet: Vec<u8>)
        ensures
            packet@ == command(1, user_info(as_signed64(uid))),
    {
        let info: Vec<u8> = Self::build_ws_user_info(uid);
        Self::build_ws_command(REGISTER_REQ, info.as_slice())
    }

    /// The room to listen to: the one that is given, else the one that an address names.
    pub fn choose_room(room_id: Option<&str>, url: &str) -> (room: Result<String, DanmakuError>)
        ensures
            match room_of(
                match room_id {
                    Some(id) => Some(id@),
                    None => None,
                },
                url@,
            ) {
                Some(id) => room is Ok && room->Ok_0@ == id,
                None => room is Err && says(room->Err_0, "Invalid Huya URL"@),
            },
    {
        match room_id {
            Some(id) => Ok(id.to_owned()),
            None => match Self::extract_room_id(url) {
                Some(id) => Ok(id),
                None => Err(DanmakuError::Decode("Invalid Huya URL".to_owned())),
            },
        }
    }

    /// The address of the page of a room.
    pub fn room_page_url(room_id: &str) -> (url: String)
        ensures
            url@ == "https://www.huya.com/"@ + room_id@,
    {
        let mut url: String = "https://www.huya.com/".to_owned();
        url.append(room_id);
        url
    }

    /// The packet that registers a listener for the presenter of a page, if it names one.
    pub fn register_for(uid: Option<u64>) -> (packet: Result<Vec<u8>, DanmakuError>)
        ensures
            match uid {
                Some(n) => packet is Ok && packet->Ok_0@ == command(
                    1,
                    user_info(as_signed64(n)),
                ),
                None => packet is Err && says(
                    packet->Err_0,
                    "Failed to extract UID from Huya page"@,
                ),
            },
    {
        match uid {
            Some(n) => Ok(Self::registration(n)),
            None => Err(DanmakuError::Decode("Failed to extract UID from Huya page".to_owned())),
        }
    }

    /// What a message tells.
    pub fn parse_message(data: &[u8]) -> (events: Result<Vec<DanmakuEvent>, DanmakuError>)
        ensures
            match told_by(data@) {
                Err(e) => events is Err && says(events->Err_0, e),
                Ok(None) => events is Ok && events->Ok_0@.len() == 0,
                Ok(Some(comment)) => events is Ok && events->Ok_0@.len() == 1 && is_comment(
                    events->Ok_0@[0],
                    comment,
                ),
            },
    {
        let mut events: Vec<DanmakuEvent> = Vec::new();
        let mut ios = TarsInputStream::new(data);
        let cmd_type: i32 = match ios.read_int32_at(0) {
            Some(n) => n,
            None => 0,
        };
        if cmd_type != MSG_PUSH_REQ {
            return Ok(events);
        }
        let inner_data: Vec<u8> = match ios.read_bytes_at(1) {
            Some(bytes) => bytes,
            None => return Err(
                DanmakuError::Decode("Huya push command is missing vData".to_owned()),
            ),
        };
        let mut inner_ios = TarsInputStream::new(inner_data.as_slice());
        let msg_type: i64 = match inner_ios.read_int64_at(1) {
            Some(n) => n,
            None => 0,
        };
        if msg_type != COMMENT_MESSAGE {
            return Ok(events);
        }
        let msg_data: Vec<u8> = match inner_ios.read_bytes_at(2) {
            Some(bytes) => bytes,
            None => return Err(
                DanmakuError::Decode("Huya danmaku push is missing message body".to_owned()),
            ),
        };
        match Self::parse_danmaku(msg_data.as_slice()) {
            Err(e) => Err(e),
            Ok(None) => Ok(events),
            Ok(Some(event)) => {
                events.push(event);
                Ok(events)
            },
        }
    }

    fn read_struct_text(ios: &mut TarsInputStream, tag: u8, inner: u8) -> (text: Option<String>)
        ensures
            ({
                let (read, end) = struct_text(old(ios).data@, old(ios).pos as int, tag, inner);
                &&& match text {
                    Some(t) => read == Some(t@),
                    None => read is None,
                }
                &&& text is Some ==> final(ios).moved(old(ios), end)
            }),
    {
        if !ios.enter_struct(tag) {
            return None;
        }
        match ios.read_utf8_at(inner) {
            None => None,
            Some(text) => {
                if ios.skip_to_struct_end().is_none() {
                    return None;
                }
                Some(text)
            },
        }
    }

    fn read_struct_number(ios: &mut TarsInputStream, tag: u8, inner: u8) -> (number: Option<i32>)
        ensures
            ({
                let (read, end) = struct_number(old(ios).data@, old(ios).pos as int, tag, inner);
                match number {
                    Some(n) => read == Some(n as int),
                    None => read is None,
                }
            }),
    {
        if !ios.enter_struct(tag) {
            return None;
        }
        match ios.read_int32_at(inner) {
            None => None,
            Some(number) => {
                if ios.skip_to_struct_end().is_none() {
                    return None;
                }
                Some(number)
            },
        }
    }

    /// What a comment's body holds.
    pub fn parse_danmaku(data: &[u8]) -> (event: Result<Option<DanmakuEvent>, DanmakuError>)
        ensures
            match comment_in(data@) {
                Err(e) => event is Err && says(event->Err_0, e),
                Ok(None) => event is Ok && event->Ok_0 is None,
                Ok(Some(comment)) => event is Ok && event->Ok_0 is Some && is_comment(
                    event->Ok_0->0,
                    comment,
                ),
            },
    {
        let mut ios = TarsInputStream::new(data);
        let name: String = match Self::read_struct_text(&mut ios, 0, 2) {
            Some(name) => name,
            None => return Err(
                DanmakuError::Decode("Huya danmaku user name is missing or invalid".to_owned()),
            ),
        };
        let content: String = match ios.read_utf8_at(3) {
            Some(content) => content,
            None => return Err(
                DanmakuError::Decode("Huya danmaku content is missing or invalid".to_owned()),
            ),
        };
        let raw: i32 = match Self::read_struct_number(&mut ios, 6, 0) {
            Some(raw) => raw,
            None => return Err(
                DanmakuError::Decode("Huya danmaku color is missing or invalid".to_owned()),
            ),
        };
        if raw < -1 {
            let mut text: String = "Huya danmaku color is invalid: ".to_owned();
            push_signed(&mut text, raw as i64);
            return Err(DanmakuError::Decode(text));
        }
        let color: u32 = if raw == -1 {
            DEFAULT_COLOR
        } else {
            raw as u32
        };
        if name.as_str().is_empty() {
            return Ok(None);
        }
        Ok(Some(DanmakuEvent::Chat(ChatMessage { name: Some(name), content, color, uid: None })))
    }

    /// How a connection is kept alive.
    pub fn heartbeat_config(&self) -> (config: HeartbeatConfig)
        ensures
            config.payload@ == heartbeat_bytes(),
            config.interval@ == 60_000_000_000,
    {
        let bytes: [u8; 112] = [
            0x00, 0x03, 0x1d, 0x00, 0x00, 0x69, 0x00, 0x00, 0x00, 0x69, 0x10, 0x03, 0x2c, 0x3c, 0x4c,
            0x56, 0x08, 0x6f, 0x6e, 0x6c, 0x69, 0x6e, 0x65, 0x75, 0x69, 0x66, 0x0f, 0x4f, 0x6e, 0x55,
            0x73, 0x65, 0x72, 0x48, 0x65, 0x61, 0x72, 0x74, 0x42, 0x65, 0x61, 0x74, 0x7d, 0x00, 0x00,
            0x3c, 0x08, 0x00, 0x01, 0x06, 0x04, 0x74, 0x52, 0x65, 0x71, 0x1d, 0x00, 0x00, 0x2f, 0x0a,
            0x0a, 0x0c, 0x16, 0x00, 0x26, 0x00, 0x36, 0x07, 0x61, 0x64, 0x72, 0x5f, 0x77, 0x61, 0x70,
            0x46, 0x00, 0x0b, 0x12, 0x03, 0xae, 0xf0, 0x0f, 0x22, 0x03, 0xae, 0xf0, 0x0f, 0x3c, 0x42,
            0x6d, 0x52, 0x02, 0x60, 0x5c, 0x60, 0x01, 0x7c, 0x82, 0x00, 0x0b, 0xb0, 0x1f, 0x9c, 0xac,
            0x0b, 0x8c, 0x98, 0x0c, 0xa8, 0x0c, 0x20,
        ];
        let payload: Vec<u8> = slice_to_vec(bytes.as_slice());
        assert(payload@ =~= heartbeat_bytes());
        HeartbeatConfig { payload, interval: Duration::from_secs(HEARTBEAT_SECS) }
    }

    /// How long a connection is left alone at first.
    pub fn heartbeat_initial_delay(&self) -> (delay: Duration)
        ensures
            delay@ == 60_000_000_000,
    {
        Duration::from_secs(HEARTBEAT_SECS)
    }
}

} // verus!
