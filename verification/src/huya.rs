//! Huya rooms: what a page or the API says of a room, and the addresses of its streams.

use crate::json::{field, i64_field, items_of, text_field, text_in, u64_field, values_of, Json, JsonData};
use crate::live::{tells, LiveError};
use crate::outside::{to_uppercase, uppercase};
use crate::outside_json::{json_array_read, json_read, read_json, read_json_array};
use crate::outside_web::{pattern_found, regex_is_match};
use crate::page_json::{extract_json_after, extract_stream_json, stream_value, text_after};
use crate::text::{chars_of, contains, cut_at, ends_with, find, find_from, find_is_first, pairs_of, replaced, same_text, starts_with, string_of, text_contains, text_ends_with, text_replaced, text_starts_with, up_to};
use crate::wup::WUP_UA;
use vstd::prelude::*;
use vstd::slice::slice_subrange;

verus! {

pub const HUYA_WEB_BASE_URL: &'static str = "https://www.huya.com";

pub const HUYA_MP_BASE_URL: &'static str = "https://mp.huya.com";

pub const HUYA_USER_AGENT: &'static str =
    "Mozilla/5.0 (Windows NT 10.0; Win64; x64) AppleWebKit/537.36 (KHTML, like Gecko) Chrome/120.0.0.0 Safari/537.36";

/// The addresses that are rooms.
pub const HUYA_URL_PATTERN: &'static str = r"https?://(?:(?:www|m)\.)?huya\.com";

/// What stands before the data of a room in its page.
pub const ROOM_DATA_PATTERN: &'static str = r"var\s+TT_ROOM_DATA\s*=\s*";

/// An address is a room.
pub open spec fn is_room_address(url: Seq<char>) -> bool {
    pattern_found(HUYA_URL_PATTERN@, url) == Some(true)
}

/// The Huya platform.
#[derive(Debug, Clone, Copy)]
pub struct Huya;

impl Huya {
    pub fn new() -> (huya: Self)
        ensures
            huya == Huya,
    {
        Huya
    }

    pub fn name(&self) -> (name: &'static str)
        ensures
            name@ == "Huya"@,
    {
        "Huya"
    }

    /// Whether an address is a room.
    pub fn matches(&self, url: &str) -> (found: bool)
        ensures
            found == is_room_address(url@),
    {
        match regex_is_match(HUYA_URL_PATTERN, url) {
            Some(found) => found,
            None => false,
        }
    }
}

// ---------------------------------------------------------------------------
// Options
// ---------------------------------------------------------------------------

/// How a stream is delivered.
#[derive(Debug, Clone, Copy, PartialEq, Eq, Structural)]
pub enum HuyaProtocol {
    Flv,
    Hls,
}

impl HuyaProtocol {
    pub open spec fn url_key_text(self) -> Seq<char> {
        match self {
            HuyaProtocol::Flv => "sFlvUrl"@,
            HuyaProtocol::Hls => "sHlsUrl"@,
        }
    }

    pub open spec fn suffix_key_text(self) -> Seq<char> {
        match self {
            HuyaProtocol::Flv => "sFlvUrlSuffix"@,
            HuyaProtocol::Hls => "sHlsUrlSuffix"@,
        }
    }

    pub open spec fn anticode_key_text(self) -> Seq<char> {
        match self {
            HuyaProtocol::Flv => "sFlvAntiCode"@,
            HuyaProtocol::Hls => "sHlsAntiCode"@,
        }
    }

    /// The protocol that a setting names: FLV, unless it is the word for HLS.
    pub open spec fn named(value: Seq<char>) -> Self {
        if value == "Hls"@ {
            HuyaProtocol::Hls
        } else {
            HuyaProtocol::Flv
        }
    }

    /// The file name extension.
    pub open spec fn extension_text(self) -> Seq<char> {
        match self {
            HuyaProtocol::Flv => "flv"@,
            HuyaProtocol::Hls => "m3u8"@,
        }
    }

    pub fn from_config(value: &str) -> (protocol: Self)
        ensures
            protocol == Self::named(value@),
    {
        if same_text(value, "Hls") {
            HuyaProtocol::Hls
        } else {
            HuyaProtocol::Flv
        }
    }

    pub fn url_key(&self) -> (key: &'static str)
        ensures
            key@ == self.url_key_text(),
    {
        match self {
            HuyaProtocol::Flv => "sFlvUrl",
            HuyaProtocol::Hls => "sHlsUrl",
        }
    }

    pub fn suffix_key(&self) -> (key: &'static str)
        ensures
            key@ == self.suffix_key_text(),
    {
        match self {
            HuyaProtocol::Flv => "sFlvUrlSuffix",
            HuyaProtocol::Hls => "sHlsUrlSuffix",
        }
    }

    pub fn anticode_key(&self) -> (key: &'static str)
        ensures
            key@ == self.anticode_key_text(),
    {
        match self {
            HuyaProtocol::Flv => "sFlvAntiCode",
            HuyaProtocol::Hls => "sHlsAntiCode",
        }
    }

    /// The file name extension.
    pub fn extension(&self) -> (extension: &'static str)
        ensures
            extension@ == self.extension_text(),
    {
        match self {
            HuyaProtocol::Flv => "flv",
            HuyaProtocol::Hls => "m3u8",
        }
    }
}

/// What the user has asked for.
#[derive(Debug)]
pub struct HuyaOptions {
    pub cdn: String,
    pub max_ratio: u32,
    pub protocol: String,
    pub imgplus: bool,
    pub codec: String,
    pub danmaku: bool,
    pub mobile_api: bool,
    pub use_wup: bool,
}

/// A room and what has been asked for.
#[derive(Debug)]
pub struct HuyaLive {
    pub url: String,
    pub name: String,
    pub huya_cdn: String,
    pub huya_max_ratio: u32,
    pub huya_protocol: HuyaProtocol,
    pub huya_imgplus: bool,
    pub huya_codec: String,
    pub huya_danmaku: bool,
    pub huya_mobile_api: bool,
    pub huya_use_wup: bool,
}

/// Whether the token of a stream comes from the WUP service.
pub open spec fn wup_asked(mobile_api: bool, imgplus: bool, use_wup: bool) -> bool {
    use_wup && !(mobile_api && imgplus)
}

/// Whether the token of a stream comes from the WUP service. The pictures of the mobile API keep
/// the one of the page.
pub fn should_use_wup(mobile_api: bool, imgplus: bool, use_wup: bool) -> (wup: bool)
    ensures
        wup == wup_asked(mobile_api, imgplus, use_wup),
{
    if mobile_api && imgplus {
        return false;
    }
    use_wup
}

/// The entities of HTML that stand in pages, each in its place.
pub open spec fn html_decoded(text: Seq<char>) -> Seq<char> {
    let a = replaced(text, "&quot;"@, "\""@);
    let b = replaced(a, "&#34;"@, "\""@);
    let c = replaced(b, "&#x22;"@, "\""@);
    let d = replaced(c, "&amp;"@, "&"@);
    let e = replaced(d, "&lt;"@, "<"@);
    replaced(e, "&gt;"@, ">"@)
}

/// Puts the entities of HTML in their places.
pub fn decode_html_entities(input: &str) -> (text: String)
    ensures
        text@ == html_decoded(input@),
{
    proof {
        reveal_strlit("&quot;");
        reveal_strlit("&#34;");
        reveal_strlit("&#x22;");
        reveal_strlit("&amp;");
        reveal_strlit("&lt;");
        reveal_strlit("&gt;");
    }
    let a: String = text_replaced(input, "&quot;", "\"");
    let b: String = text_replaced(a.as_str(), "&#34;", "\"");
    let c: String = text_replaced(b.as_str(), "&#x22;", "\"");
    let d: String = text_replaced(c.as_str(), "&amp;", "&");
    let e: String = text_replaced(d.as_str(), "&lt;", "<");
    text_replaced(e.as_str(), "&gt;", ">")
}

/// An address with `https` in place of `http`.
pub open spec fn secured(url: Seq<char>) -> Seq<char> {
    replaced(url, "http://"@, "https://"@)
}

fn secure(url: &str) -> (text: String)
    ensures
        text@ == secured(url@),
{
    proof {
        reveal_strlit("http://");
    }
    text_replaced(url, "http://", "https://")
}

/// A title by which a room shows a recording.
pub open spec fn replay_title(title: Seq<char>) -> bool {
    ||| starts_with(title, "回放"@)
    ||| starts_with(title, "重播"@)
    ||| ends_with(title, "回放"@)
    ||| ends_with(title, "重播"@)
}

/// Whether a room shows a recording.
pub fn is_replay_title(title: &str) -> (replay: bool)
    ensures
        replay == replay_title(title@),
{
    text_starts_with(title, "回放") || text_starts_with(title, "重播") || text_ends_with(
        title,
        "回放",
    ) || text_ends_with(title, "重播")
}

/// The room that an address names: what stands behind the first `huya.com/`, up to the next one
/// or a question mark.
pub open spec fn room_in(url: Seq<char>) -> Seq<char> {
    match find(url, "huya.com/"@, 0) {
        None => Seq::empty(),
        Some(i) => {
            let rest = url.skip(i + "huya.com/"@.len());
            up_to(
                match find(rest, "huya.com/"@, 0) {
                    Some(k) => rest.take(k),
                    None => rest,
                },
                '?',
            )
        },
    }
}

/// The value of a text field, or the error that names it.
pub open spec fn text_or_error(value: JsonData, key: Seq<char>) -> Result<Seq<char>, Seq<char>> {
    match field(value, key) {
        Some(inner) => match text_in(inner) {
            Some(text) => Ok(text),
            None => Err("虎牙字段 "@ + key + " 为空"@),
        },
        None => Err("虎牙字段 "@ + key + " 为空"@),
    }
}

/// The value of a text field.
pub fn json_str<'a>(value: &'a Json, key: &str) -> (text: Result<&'a str, LiveError>)
    ensures
        match text_or_error(value@, key@) {
            Ok(t) => text is Ok && text->Ok_0@ == t,
            Err(e) => text is Err && tells(text->Err_0, e),
        },
{
    match value.get(key) {
        Some(inner) => match inner.as_str() {
            Some(text) => return Ok(text),
            None => {},
        },
        None => {},
    }
    let mut message: String = "虎牙字段 ".to_owned();
    message.append(key);
    message.append(" 为空");
    Err(LiveError::Custom(message))
}

// ---------------------------------------------------------------------------
// Rooms
// ---------------------------------------------------------------------------

/// Where the comments of a room come from.
#[derive(Debug)]
pub struct DanmakuSource {
    pub platform: String,
    pub url: String,
    pub room_id: Option<String>,
    pub cookie: Option<String>,
    pub raw: bool,
    pub detail: bool,
    pub extra: Vec<(String, String)>,
    pub movie_id: Option<String>,
    pub password: Option<String>,
}

/// A source of the comments of a room, with nothing but its address.
pub open spec fn is_source_of(source: DanmakuSource, live: HuyaLive) -> bool {
    &&& source.platform@ == "huya"@
    &&& source.url@ == live.url@
    &&& source.room_id is None
    &&& source.cookie is None
    &&& !source.raw
    &&& !source.detail
    &&& source.extra@.len() == 0
    &&& source.movie_id is None
    &&& source.password is None
}

/// What records a stream best.
#[derive(Debug, Clone, Copy, PartialEq, Eq, Structural)]
pub enum DownloaderHint {
    /// The recorders of this library.
    StreamGears,
}

/// The stream of a room that is on.
#[derive(Debug)]
pub struct LiveStream {
    pub name: String,
    pub url: String,
    pub title: String,
    pub live_cover_url: String,
    pub suffix: String,
    pub raw_stream_url: String,
    pub platform: String,
    pub stream_headers: Vec<(String, String)>,
    pub danmaku: Option<DanmakuSource>,
    pub downloader_hint: DownloaderHint,
}

/// What is known of a room that is on.
#[derive(Debug)]
pub struct HuyaRoomProfile {
    pub title: String,
    pub cover: String,
    pub max_bitrate: u32,
    pub bitrate_info: Vec<Json>,
    pub stream_info: Vec<Json>,
}

/// The low 32 bits of a number.
pub open spec fn low32(n: u64) -> u32 {
    (n as int % 0x1_0000_0000) as u32
}

fn low_bits(n: u64) -> (low: u32)
    ensures
        low == low32(n),
{
    (n % 0x1_0000_0000) as u32
}

/// A profile says what `info` says of a room, with the bit rates and streams given.
pub open spec fn profile_of(
    profile: HuyaRoomProfile,
    info: JsonData,
    bitrates: Seq<JsonData>,
    streams: Seq<JsonData>,
) -> bool {
    &&& profile.title@ == text_field(info, "introduction"@)
    &&& profile.cover@ == secured(text_field(info, "screenshot"@))
    &&& profile.max_bitrate == low32(u64_field(info, "bitRate"@))
    &&& values_of(profile.bitrate_info@) == bitrates
    &&& values_of(profile.stream_info@) == streams
}

fn make_profile(info: &Json, bitrate_info: Vec<Json>, stream_info: Vec<Json>) -> (profile:
    HuyaRoomProfile)
    ensures
        profile_of(profile, info@, values_of(bitrate_info@), values_of(stream_info@)),
{
    HuyaRoomProfile {
        title: info.text_or_empty("introduction").to_owned(),
        cover: secure(info.text_or_empty("screenshot")),
        max_bitrate: low_bits(info.u64_or_zero("bitRate")),
        bitrate_info,
        stream_info,
    }
}

/// `profile` is what the data of a room and its streams say.
pub open spec fn says_of_room(
    profile: Result<Option<HuyaRoomProfile>, LiveError>,
    room_data: JsonData,
    stream: JsonData,
) -> bool {
    let bitrates = items_of(stream, "vMultiStreamInfo"@);
    if text_field(room_data, "state"@) != "ON"@ || bitrates.len() == 0 {
        profile is Ok && profile->Ok_0 is None
    } else if items_of(stream, "data"@).len() == 0 {
        profile is Err && tells(profile->Err_0, "虎牙流数据为空"@)
    } else {
        let data = items_of(stream, "data"@)[0];
        let streams = items_of(data, "gameStreamInfoList"@);
        match field(data, "gameLiveInfo"@) {
            None => profile is Err && tells(profile->Err_0, "虎牙直播信息为空"@),
            Some(info) => if streams.len() == 0 {
                profile is Ok && profile->Ok_0 is None
            } else {
                profile is Ok && profile->Ok_0 is Some && profile_of(
                    profile->Ok_0->0,
                    info,
                    bitrates,
                    streams,
                )
            },
        }
    }
}

/// What the data of a room and its streams say.
pub fn room_profile(room_data: &Json, stream: Json) -> (profile: Result<
    Option<HuyaRoomProfile>,
    LiveError,
>)
    ensures
        says_of_room(profile, room_data@, stream@),
{
    proof {
        reveal_strlit("vMultiStreamInfo");
        reveal_strlit("data");
        assert("vMultiStreamInfo"@.len() != "data"@.len());
    }
    let (bitrate_info, list) = stream.take_two("vMultiStreamInfo", "data");
    let mut list: Vec<Json> = list;
    if !same_text(room_data.text_or_empty("state"), "ON") || bitrate_info.len() == 0 {
        return Ok(None);
    }
    if list.len() == 0 {
        return Err(LiveError::custom("虎牙流数据为空"));
    }
    let data: Json = list.remove(0);
    let mut profile: HuyaRoomProfile = match data.get("gameLiveInfo") {
        Some(info) => make_profile(info, bitrate_info, Vec::new()),
        None => return Err(LiveError::custom("虎牙直播信息为空")),
    };
    profile.stream_info = data.take_items("gameStreamInfoList");
    if profile.stream_info.len() == 0 {
        return Ok(None);
    }
    Ok(Some(profile))
}

/// What the API says of a refusal.
pub open spec fn refusal(root: JsonData) -> Seq<char> {
    match field(root, "message"@) {
        Some(inner) => match text_in(inner) {
            Some(text) => text,
            None => "未知错误"@,
        },
        None => "未知错误"@,
    }
}

/// The API has refused, or has answered.
pub fn check_api_status(root: &Json) -> (status: Result<(), LiveError>)
    ensures
        i64_field(root@, "status"@) == 200 ==> status is Ok,
        i64_field(root@, "status"@) != 200 ==> status is Err && tells(
            status->Err_0,
            "虎牙移动端接口错误: "@ + refusal(root@),
        ),
{
    if root.i64_or_zero("status") == 200 {
        return Ok(());
    }
    let message: &str = match root.get("message") {
        Some(inner) => match inner.as_str() {
            Some(text) => text,
            None => "未知错误",
        },
        None => "未知错误",
    };
    Err(LiveError::because("虎牙移动端接口错误: ", message))
}

/// The live data of a room, in which nothing is said where there is none.
pub open spec fn live_data(data: JsonData) -> JsonData {
    match field(data, "liveData"@) {
        Some(inner) => inner,
        None => JsonData::Null,
    }
}

/// The text of the bit rates of a room that is on.
pub fn api_bitrate_text(root: &Json) -> (text: Result<Option<String>, LiveError>)
    ensures
        match field(root@, "data"@) {
            None => text is Err && tells(text->Err_0, "虎牙移动端 data 为空"@),
            Some(data) => {
                let raw = text_field(live_data(data), "bitRateInfo"@);
                if text_field(data, "liveStatus"@) != "ON"@ || raw.len() == 0 {
                    text is Ok && text->Ok_0 is None
                } else {
                    text is Ok && text->Ok_0 is Some && (text->Ok_0->0)@ == raw
                }
            },
        },
{
    let data: &Json = match root.get("data") {
        Some(data) => data,
        None => return Err(LiveError::custom("虎牙移动端 data 为空")),
    };
    let raw: String = match data.get("liveData") {
        Some(inner) => inner.text_or_empty("bitRateInfo").to_owned(),
        None => return Ok(None),
    };
    if !same_text(data.text_or_empty("liveStatus"), "ON") || chars_of(raw.as_str()).len() == 0 {
        return Ok(None);
    }
    Ok(Some(raw))
}

/// The streams that the API lists.
pub open spec fn api_streams(data: JsonData) -> Seq<JsonData> {
    match field(data, "stream"@) {
        Some(stream) => items_of(stream, "baseSteamInfoList"@),
        None => Seq::empty(),
    }
}

/// `profile` is what the answer of the API says.
pub open spec fn says_of_answer(
    profile: Result<Option<HuyaRoomProfile>, LiveError>,
    root: JsonData,
) -> bool {
    match field(root, "data"@) {
        None => profile is Err && tells(profile->Err_0, "虎牙移动端 data 为空"@),
        Some(data) => {
            let raw = text_field(live_data(data), "bitRateInfo"@);
            if text_field(data, "liveStatus"@) != "ON"@ || raw.len() == 0 {
                profile is Ok && profile->Ok_0 is None
            } else {
                match json_array_read(raw) {
                    Err(e) => profile is Err && tells(
                        profile->Err_0,
                        "解析虎牙码率信息失败: "@ + e,
                    ),
                    Ok(bitrates) => says_of_rates(profile, data, bitrates),
                }
            }
        },
    }
}

/// `profile` is what the data of the API say of a room whose bit rates have been read.
pub open spec fn says_of_rates(
    profile: Result<Option<HuyaRoomProfile>, LiveError>,
    data: JsonData,
    bitrates: Seq<JsonData>,
) -> bool {
    if api_streams(data).len() == 0 {
        profile is Ok && profile->Ok_0 is None
    } else {
        profile is Ok && profile->Ok_0 is Some && profile_of(
            profile->Ok_0->0,
            live_data(data),
            bitrates,
            api_streams(data),
        )
    }
}

/// What the API says of a room whose bit rates have been read.
pub fn api_profile(root: Json, bitrate_info: Vec<Json>) -> (profile: Result<
    Option<HuyaRoomProfile>,
    LiveError,
>)
    ensures
        match field(root@, "data"@) {
            None => profile is Err && tells(profile->Err_0, "虎牙移动端 data 为空"@),
            Some(data) => says_of_rates(profile, data, values_of(bitrate_info@)),
        },
{
    let data: Json = match root.take("data") {
        Some(data) => data,
        None => return Err(LiveError::custom("虎牙移动端 data 为空")),
    };
    let mut profile: HuyaRoomProfile = match data.get("liveData") {
        Some(info) => make_profile(info, bitrate_info, Vec::new()),
        None => make_profile(&Json::Null, bitrate_info, Vec::new()),
    };
    match data.take("stream") {
        Some(stream) => {
            profile.stream_info = stream.take_items("baseSteamInfoList");
        },
        None => return Ok(None),
    }
    if profile.stream_info.len() == 0 {
        return Ok(None);
    }
    Ok(Some(profile))
}

/// `profile` is what a page says. The data of the room are read first, then its streams.
pub open spec fn says_of_page(
    profile: Result<Option<HuyaRoomProfile>, LiveError>,
    page: Seq<char>,
) -> bool {
    match text_after(page, ROOM_DATA_PATTERN@, ';') {
        None => profile is Err && tells(profile->Err_0, "虎牙房间数据不存在"@),
        Some(Err(_)) => profile is Err && tells(profile->Err_0, "虎牙房间数据不完整"@),
        Some(Ok(text)) => match (json_read(text), stream_value(page)) {
            (Err(e), _) => profile is Err && tells(
                profile->Err_0,
                "解析虎牙房间数据失败: "@ + e,
            ),
            (Ok(_), Err(e)) => profile is Err && tells(profile->Err_0, e),
            (Ok(room_data), Ok(stream)) => says_of_room(profile, room_data, stream),
        },
    }
}

/// The answer of the API, or the text of the error: its entities are put in their places, it is
/// read, and its status has to be a success.
pub open spec fn answer_value(text: Seq<char>) -> Result<JsonData, Seq<char>> {
    match json_read(html_decoded(text)) {
        Err(e) => Err("解析虎牙移动端房间信息失败: "@ + e),
        Ok(root) => if i64_field(root, "status"@) == 200 {
            Ok(root)
        } else {
            Err("虎牙移动端接口错误: "@ + refusal(root))
        },
    }
}

/// Reads the answer of the API.
pub fn read_answer(text: &str) -> (root: Result<Json, LiveError>)
    ensures
        match answer_value(text@) {
            Ok(value) => root is Ok && root->Ok_0@ == value,
            Err(e) => root is Err && tells(root->Err_0, e),
        },
{
    let decoded: String = decode_html_entities(text);
    match read_json(decoded.as_str()) {
        Err(e) => Err(LiveError::because("解析虎牙移动端房间信息失败: ", e.as_str())),
        Ok(root) => match check_api_status(&root) {
            Ok(_) => Ok(root),
            Err(error) => Err(error),
        },
    }
}

impl HuyaLive {
    /// What the page of a room says. The data of the room are read first, then its streams.
    pub fn extract_room_profile_from_page(&self, page: &str) -> (profile: Result<
        Option<HuyaRoomProfile>,
        LiveError,
    >)
        ensures
            says_of_page(profile, page@),
    {
        let room_data: Json = match extract_json_after(page, ROOM_DATA_PATTERN, ';') {
            Ok(value) => value,
            Err(error) => return Err(error),
        };
        match extract_stream_json(page) {
            Ok(stream) => room_profile(&room_data, stream),
            Err(error) => Err(error),
        }
    }

    /// What the answer of the API, once read, says of a room. The bit rates are a text in it that
    /// is JSON itself.
    pub fn extract_room_profile_from_api(&self, root: Json) -> (profile: Result<
        Option<HuyaRoomProfile>,
        LiveError,
    >)
        ensures
            says_of_answer(profile, root@),
    {
        let raw: String = match api_bitrate_text(&root) {
            Ok(Some(text)) => text,
            Ok(None) => return Ok(None),
            Err(error) => return Err(error),
        };
        match read_json_array(raw.as_str()) {
            Ok(bitrate_info) => api_profile(root, bitrate_info),
            Err(e) => Err(LiveError::because("解析虎牙码率信息失败: ", e.as_str())),
        }
    }

    /// What the text that the API answered says of a room.
    pub fn room_profile_from_answer(&self, text: &str) -> (profile: Result<
        Option<HuyaRoomProfile>,
        LiveError,
    >)
        ensures
            match answer_value(text@) {
                Ok(root) => says_of_answer(profile, root),
                Err(e) => profile is Err && tells(profile->Err_0, e),
            },
    {
        match read_answer(text) {
            Ok(root) => self.extract_room_profile_from_api(root),
            Err(error) => Err(error),
        }
    }
}

/// A page says that its room is not there, or is closed.
pub open spec fn room_gone(page: Seq<char>) -> bool {
    contains(page, "找不到这个主播"@) || contains(page, "该主播涉嫌违规，正在整改中"@)
}

/// `live` is the room at `url` with what has been asked for.
pub open spec fn asked_for(
    live: HuyaLive,
    url: String,
    name: String,
    options: HuyaOptions,
) -> bool {
    &&& live.url == url
    &&& live.name == name
    &&& live.huya_cdn@ == uppercase(options.cdn@)
    &&& live.huya_max_ratio == options.max_ratio
    &&& live.huya_protocol == HuyaProtocol::named(options.protocol@)
    &&& live.huya_imgplus == options.imgplus
    &&& live.huya_codec == options.codec
    &&& live.huya_danmaku == options.danmaku
    &&& live.huya_mobile_api == options.mobile_api
    &&& live.huya_use_wup == options.use_wup
}

/// The headers that the streams of a room are fetched with.
pub open spec fn headers_for(live: HuyaLive) -> Seq<(Seq<char>, Seq<char>)> {
    if live.uses_wup() {
        seq![("User-Agent"@, WUP_UA@)]
    } else {
        Seq::empty()
    }
}

/// `stream` is the stream of a room that is on, at the address that was selected.
pub open spec fn is_stream_of(
    stream: LiveStream,
    live: HuyaLive,
    profile: HuyaRoomProfile,
    raw_stream_url: Seq<char>,
    extension: Option<Seq<char>>,
) -> bool {
    &&& stream.name@ == live.name@
    &&& stream.url@ == live.url@
    &&& stream.title@ == profile.title@
    &&& stream.live_cover_url@ == profile.cover@
    &&& stream.raw_stream_url@ == raw_stream_url
    &&& stream.platform@ == "huya"@
    &&& stream.suffix@ == match extension {
        Some(text) => text,
        None => live.huya_protocol.extension_text(),
    }
    &&& pairs_of(stream.stream_headers@) == headers_for(live)
    &&& stream.danmaku is Some == live.huya_danmaku
    &&& stream.danmaku matches Some(source) ==> is_source_of(source, live)
    &&& stream.downloader_hint == DownloaderHint::StreamGears
}

impl HuyaLive {
    /// A room and what has been asked for.
    pub fn new(url: String, name: String, options: HuyaOptions) -> (live: Self)
        ensures
            asked_for(live, url, name, options),
    {
        HuyaLive {
            url,
            name,
            huya_cdn: to_uppercase(options.cdn.as_str()),
            huya_max_ratio: options.max_ratio,
            huya_protocol: HuyaProtocol::from_config(options.protocol.as_str()),
            huya_imgplus: options.imgplus,
            huya_codec: options.codec,
            huya_danmaku: options.danmaku,
            huya_mobile_api: options.mobile_api,
            huya_use_wup: options.use_wup,
        }
    }

    /// The room that the address names.
    pub fn room_id(&self) -> (room: Result<String, LiveError>)
        ensures
            room_in(self.url@).len() > 0 ==> room is Ok && room->Ok_0@ == room_in(self.url@),
            room_in(self.url@).len() == 0 ==> room is Err && tells(
                room->Err_0,
                "虎牙直播间地址错误"@,
            ),
    {
        let chars: Vec<char> = chars_of(self.url.as_str());
        let mark: Vec<char> = chars_of("huya.com/");
        proof {
            find_is_first(chars@, mark@, 0);
        }
        let at: usize = match find_from(chars.as_slice(), mark.as_slice(), 0) {
            Some(at) => at,
            None => return Err(LiveError::custom("虎牙直播间地址错误")),
        };
        assert(at + mark.len() <= chars.len());
        let rest: &[char] = slice_subrange(chars.as_slice(), at + mark.len(), chars.len());
        assert(rest@ =~= self.url@.skip(at + mark@.len()));
        proof {
            find_is_first(rest@, mark@, 0);
        }
        let part: String = match find_from(rest, mark.as_slice(), 0) {
            Some(next) => {
                let front: &[char] = slice_subrange(rest, 0, next);
                assert(front@ =~= rest@.take(next as int));
                string_of(front)
            },
            None => string_of(rest),
        };
        let room: String = cut_at(part.as_str(), '?');
        if chars_of(room.as_str()).len() == 0 {
            return Err(LiveError::custom("虎牙直播间地址错误"));
        }
        Ok(room)
    }

    /// The address of the page of a room.
    pub fn room_page_url(room_id: &str) -> (url: String)
        ensures
            url@ == "https://www.huya.com"@ + "/"@ + room_id@,
    {
        let mut url: String = HUYA_WEB_BASE_URL.to_owned();
        url.append("/");
        url.append(room_id);
        url
    }

    /// The page of a room, its entities in their places, unless the room is not there.
    pub fn read_room_page(text: &str) -> (page: Result<String, LiveError>)
        ensures
            room_gone(text@) ==> page is Err && tells(page->Err_0, "虎牙直播间不可用"@),
            !room_gone(text@) ==> page is Ok && page->Ok_0@ == html_decoded(text@),
    {
        if text_contains(text, "找不到这个主播") || text_contains(
            text,
            "该主播涉嫌违规，正在整改中",
        ) {
            return Err(LiveError::custom("虎牙直播间不可用"));
        }
        Ok(decode_html_entities(text))
    }

    /// Whether tokens come from the WUP service.
    pub open spec fn uses_wup(&self) -> bool {
        wup_asked(self.huya_mobile_api, self.huya_imgplus, self.huya_use_wup)
    }

    /// Whether tokens come from the WUP service.
    pub fn should_use_wup(&self) -> (wup: bool)
        ensures
            wup == self.uses_wup(),
    {
        should_use_wup(self.huya_mobile_api, self.huya_imgplus, self.huya_use_wup)
    }

    /// The headers that a stream is fetched with.
    pub fn stream_headers(&self) -> (headers: Vec<(String, String)>)
        ensures
            pairs_of(headers@) == headers_for(*self),
    {
        let mut headers: Vec<(String, String)> = Vec::new();
        if self.should_use_wup() {
            headers.push(("User-Agent".to_owned(), WUP_UA.to_owned()));
        }
        assert(pairs_of(headers@) =~= headers_for(*self));
        headers
    }

    /// The name of a stream; that of its pictures only where they are asked for.
    pub open spec fn stream_name(&self, name: Seq<char>) -> Seq<char> {
        if self.huya_imgplus {
            name
        } else {
            replaced(name, "-imgplus"@, ""@)
        }
    }

    pub fn get_stream_name(&self, stream_name: &str) -> (name: String)
        ensures
            name@ == self.stream_name(stream_name@),
    {
        proof {
            reveal_strlit("-imgplus");
        }
        if self.huya_imgplus {
            stream_name.to_owned()
        } else {
            text_replaced(stream_name, "-imgplus", "")
        }
    }

    /// Where the comments of the room come from, where they are asked for.
    pub fn danmaku_source(&self) -> (source: Option<DanmakuSource>)
        ensures
            source is Some == self.huya_danmaku,
            source matches Some(found) ==> is_source_of(found, *self),
    {
        if !self.huya_danmaku {
            return None;
        }
        Some(
            DanmakuSource {
                platform: "huya".to_owned(),
                url: self.url.clone(),
                room_id: None,
                cookie: None,
                raw: false,
                detail: false,
                extra: Vec::new(),
                movie_id: None,
                password: None,
            },
        )
    }

    /// The stream of a room that is on, at the address that was selected. `extension` is what
    /// the address tells of the container.
    pub fn live_stream(
        &self,
        profile: &HuyaRoomProfile,
        raw_stream_url: String,
        extension: Option<String>,
    ) -> (stream: LiveStream)
        ensures
            is_stream_of(
                stream,
                *self,
                *profile,
                raw_stream_url@,
                match extension {
                    Some(text) => Some(text@),
                    None => None,
                },
            ),
    {
        LiveStream {
            name: self.name.clone(),
            url: self.url.clone(),
            title: profile.title.clone(),
            live_cover_url: profile.cover.clone(),
            suffix: match extension {
                Some(text) => text,
                None => self.huya_protocol.extension().to_owned(),
            },
            raw_stream_url,
            platform: "huya".to_owned(),
            stream_headers: self.stream_headers(),
            danmaku: self.danmaku_source(),
            downloader_hint: DownloaderHint::StreamGears,
        }
    }
}

} // verus!
