//! Rooms of Huya and their streams.

use base64::engine::general_purpose::STANDARD;
use base64::Engine;
use livecapture::anticode::{
    build_anticode, generate_random_uid, known_platform, md5_hex, platform_at, platform_id_for_ctype,
    random_platform, read_secret_prefix, renew_time, resolve_platform, rotl64, sign_query, uid_of,
};
use livecapture::huya::{
    api_bitrate_text, api_profile, check_api_status, decode_html_entities, is_replay_title,
    json_str, read_answer, room_profile, should_use_wup, DownloaderHint, Huya, HuyaLive,
    HuyaOptions, HuyaProtocol, HuyaRoomProfile,
};
use livecapture::huya_streams::AnticodeSource;
use livecapture::json::Json;
use livecapture::live::LiveError;
use livecapture::page_json::{
    cut_text_after, extract_json_after, extract_stream_json, find_json_value_end,
};
use livecapture::string_map::StringMap;
use livecapture::tars::{TarsOutputStream, TarsType};
use livecapture::tars_input::TarsInputStream;
use livecapture::wup::{
    cdn_token_of_reply, decode_wup_flv_token, encode_wup_request, frame_packet, hyapp_ua,
    prepare_cdn_token_call, random_hyapp_ua, wup_url, WupError, FUNC, SERVANT, WUP_UA,
};
use serde_json::Value;
use std::time::{SystemTime, UNIX_EPOCH};

fn sample_fm() -> String {
    STANDARD.encode("secret_prefix_rest")
}

fn in_an_hour() -> u64 {
    SystemTime::now().duration_since(UNIX_EPOCH).unwrap().as_secs() + 3600
}

fn refusal<T: std::fmt::Debug>(result: Result<T, LiveError>) -> String {
    match result {
        Err(LiveError::Custom(text)) => text,
        other => panic!("{other:?}"),
    }
}

#[test]
fn extract_stream_json_stops_before_player_config_closing_brace() {
    let page = r#"
            var hyPlayerConfig = {
                stream: {"data":[],"vMultiStreamInfo":[]}
            };
        "#;
    let stream = extract_stream_json(page).unwrap();
    assert_eq!(stream.get("data").unwrap().as_array().unwrap().len(), 0);
    assert!(stream.get("vMultiStreamInfo").unwrap().as_array().is_some());
}

#[test]
fn extract_stream_json_stops_before_following_player_fields() {
    let page = r#"
            var hyPlayerConfig = {
                stream: {"data":[],"vMultiStreamInfo":[]},
                liveLineUrl: "https://example.invalid"
            };
        "#;
    let stream = extract_stream_json(page).unwrap();
    assert_eq!(stream.get("data").unwrap().as_array().unwrap().len(), 0);
    assert!(stream.get("vMultiStreamInfo").unwrap().as_array().is_some());
}

#[test]
fn find_json_value_end_ignores_braces_in_strings() {
    let input = r#"{"text":"}; { ]","items":[{"value":1}]}
            };
        "#;
    let end = find_json_value_end(input, 0).unwrap();
    let value: Value = serde_json::from_str(&input[..end]).unwrap();
    assert_eq!(value["text"], "}; { ]");
    assert_eq!(value["items"][0]["value"], 1);
}

#[test]
fn values_in_pages_that_are_missing_or_broken() {
    assert_eq!(find_json_value_end("  [1, 2] tail", 0), Some(8));
    assert_eq!(find_json_value_end(r#"{"a":"\"}"}"#, 0), Some(11));
    assert_eq!(find_json_value_end("{[", 0), None);
    assert_eq!(find_json_value_end("12", 0), None);
    assert!(matches!(extract_stream_json("no stream here"), Err(LiveError::Custom(_))));
    let pattern = r"var\s+TT_ROOM_DATA\s*=\s*";
    let page = "var TT_ROOM_DATA = {\"a\":1,\"b\":[-2,0.5,null,true,\"x\"]};var x";
    assert_eq!(
        cut_text_after(page, pattern, ';').unwrap(),
        "{\"a\":1,\"b\":[-2,0.5,null,true,\"x\"]}"
    );
    let value = extract_json_after(page, pattern, ';').unwrap();
    assert!(matches!(value.get("a"), Some(Json::PosInt(1))));
    let items = value.get("b").unwrap().as_array().unwrap();
    assert!(matches!(items[0], Json::NegInt(-2)));
    assert!(matches!(items[1], Json::Float));
    assert!(matches!(items[2], Json::Null));
    assert!(matches!(items[3], Json::Bool(true)));
    assert_eq!(items[4].as_str(), Some("x"));
    assert_eq!(refusal(extract_json_after("nothing", pattern, ';')), "虎牙房间数据不存在");
    assert_eq!(
        refusal(extract_json_after("var TT_ROOM_DATA = {}", pattern, ';')),
        "虎牙房间数据不完整"
    );
    assert!(refusal(extract_json_after("var TT_ROOM_DATA = {;", pattern, ';'))
        .starts_with("解析虎牙房间数据失败: EOF while parsing"));
    assert!(refusal(extract_stream_json("stream: {a}")).starts_with("解析虎牙流数据失败: key must"));
}

#[test]
fn build_anticode_without_fm_returns_original() {
    let anti = "wsSecret=abc&wsTime=1";
    let out = build_anticode("stream", anti, Some(1234), |_| 0).unwrap();
    assert_eq!(out, anti);
}

#[test]
fn build_anticode_pc_includes_u_and_convert_uid() {
    let fm = sample_fm();
    let anti = format!(
        "fm={}&fs=bgct&ctype=huya_live&t=100&wsTime={:x}",
        urlencoding::encode(&fm),
        in_an_hour()
    );
    let uid = 12345678u64;
    let out = build_anticode("demo-stream", &anti, Some(uid), |_| 7).unwrap();
    let convert_uid = rotl64(uid);
    assert!(out.contains(&format!("u={convert_uid}")));
    assert!(!out.contains("uuid="));
    assert!(out.contains("ctype=huya_live"));
    assert!(out.contains("t=100"));
    assert!(out.contains("wsSecret="));
}

#[test]
fn build_anticode_wap_includes_uid_uuid() {
    let fm = sample_fm();
    let anti = format!(
        "fm={}&fs=bgct&ctype=tars_mobile&t=103&wsTime={:x}",
        urlencoding::encode(&fm),
        in_an_hour()
    );
    let uid = 12345678u64;
    let out = build_anticode("demo-stream", &anti, Some(uid), |_| 7).unwrap();
    assert!(out.contains(&format!("uid={uid}")));
    assert!(out.contains("uuid="));
    assert!(!out.contains("u="));
}

fn pairs(entries: &[(&str, &str)]) -> Vec<(String, String)> {
    entries.iter().map(|(k, v)| (k.to_string(), v.to_string())).collect()
}

#[test]
fn a_query_is_signed_for_a_moment() {
    let fm = sample_fm();
    let query = pairs(&[("fm", fm.as_str()), ("wsTime", "ffffffff"), ("fs", "bgct")]);
    let now: u128 = 1_700_000_000_123_456_789;
    let seq = 5 + 1_700_000_000_123u64;
    let hash = md5_hex(&format!("{seq}|huya_live|100"));
    let secret = md5_hex(&format!("secret_{}_demo_{hash}_ffffffff", rotl64(5)));
    let out = sign_query("demo", &query, "huya_live", "100", 5, now, |_| 9).unwrap();
    assert_eq!(
        out,
        format!(
            "wsSecret={secret}&wsTime=ffffffff&seqid={seq}&ctype=huya_live&ver=1&fs=bgct&fm={}&t=100&u={}",
            urlencoding::encode(&fm),
            rotl64(5)
        )
    );
    let out = sign_query("demo", &query, "tars_mobile", "103", 5, now, |s| (s % 1000) as u32).unwrap();
    assert!(out.ends_with(&format!("&uid=5&uuid={}", 0xffffffffu64 % 1000)), "{out}");
}

#[test]
fn queries_that_cannot_be_signed() {
    let now: u128 = 1_700_000_000_000_000_000;
    let refused = |query: Vec<(String, String)>| {
        match sign_query("demo", &query, "huya_live", "100", 5, now, |_| 9) {
            Err(LiveError::Custom(text)) => text,
            other => panic!("{other:?}"),
        }
    };
    assert_eq!(refused(pairs(&[])), "虎牙 fm 为空");
    let fm = sample_fm();
    assert_eq!(refused(pairs(&[("fm", fm.as_str())])), "虎牙 wsTime 为空");
    assert!(refused(pairs(&[("fm", "%ff"), ("wsTime", "1")])).starts_with("解码虎牙 fm 参数失败: "));
    assert!(refused(pairs(&[("fm", "!"), ("wsTime", "1")])).starts_with("解码虎牙 fm base64 失败: "));
    assert!(
        refused(pairs(&[("fm", "/w=="), ("wsTime", "1")])).starts_with("虎牙 fm 参数不是 UTF-8: ")
    );
    let query = pairs(&[("fm", fm.as_str()), ("wsTime", "1")]);
    assert!(matches!(
        sign_query("demo", &query, "huya_live", "100", u64::MAX, now, |_| 9),
        Err(LiveError::Overflow)
    ));
}

#[test]
fn parts_of_the_signature() {
    assert_eq!(md5_hex(""), "d41d8cd98f00b204e9800998ecf8427e");
    assert_eq!(md5_hex("abc"), "900150983cd24fb0d6963f7d28e17f72");
    assert_eq!(read_secret_prefix(&sample_fm()).unwrap(), "secret");
    let padded = STANDARD.encode("secret_x");
    assert!(padded.ends_with('='));
    let escaped = urlencoding::encode(&padded).into_owned();
    assert_eq!(read_secret_prefix(&escaped).unwrap(), "secret");
    let query = pairs(&[("fm", padded.as_str()), ("wsTime", "ffffffff")]);
    let out = sign_query("demo", &query, "huya_live", "100", 5, 0, |_| 9).unwrap();
    assert!(out.contains(&format!("&fm={escaped}&")), "{out}");
    assert_eq!(renew_time("ffffffff", 1000).unwrap(), "ffffffff");
    assert_eq!(renew_time("1", 0x1000).unwrap(), format!("{:x}", 0x1000 + 86400));
    assert_eq!(renew_time("nonsense", 0).unwrap(), "15180");
    assert_eq!(renew_time("1", u64::MAX), None);
    assert_eq!(rotl64(0x1234_5678_0000_00ff), 0x1234_5678_0000_ff00);
    assert_eq!(rotl64(0x1234_5678_ff00_0001), 0x1234_5678_0000_01ff);
    assert_eq!(uid_of(true, 0), 12340000);
    assert_eq!(uid_of(true, 42), 12340042);
    assert_eq!(uid_of(false, 42), 1400000000042);
    assert_eq!(uid_of(false, 9_999_999), 1400009999999);
    let uid = generate_random_uid();
    assert!(
        (12340000..12350000).contains(&uid) || (1400000000000..1400010000000).contains(&uid)
    );
}

#[test]
fn platforms_are_named_or_drawn() {
    assert_eq!(platform_id_for_ctype("huya_live").unwrap(), "100");
    assert_eq!(platform_id_for_ctype("nothing"), None);
    assert_eq!(
        known_platform(&pairs(&[("ctype", "tars_mobile"), ("t", "7")])),
        Some(("tars_mobile".to_string(), "7".to_string()))
    );
    assert_eq!(
        known_platform(&pairs(&[("ctype", "unheard")])),
        Some(("unheard".to_string(), "100".to_string()))
    );
    assert_eq!(known_platform(&pairs(&[("t", "7")])), None);
    assert_eq!(platform_at(0), ("huya_pc_exe", "0"));
    assert_eq!(platform_at(8), ("huya_liveshareh5", "104"));
    for _ in 0..20 {
        let (ctype, id) = random_platform();
        assert_eq!(platform_id_for_ctype(&ctype), Some(id));
        let (ctype, id) = resolve_platform(&Vec::new());
        assert_eq!(platform_id_for_ctype(&ctype), Some(id));
    }
}

#[test]
fn should_use_wup_false_for_mobile_api_imgplus() {
    assert!(!should_use_wup(true, true, true));
}

#[test]
fn should_use_wup_respects_flag_when_not_mobile_imgplus() {
    assert!(!should_use_wup(false, true, false));
    assert!(should_use_wup(false, true, true));
    assert!(should_use_wup(true, false, true));
}

#[test]
fn encode_and_decode_cdn_token_roundtrip() {
    let stream_name = "test-stream-name";
    let s_huya_ua = "pc_exe&7000000&official";
    let request = encode_wup_request(stream_name, s_huya_ua, 1);

    let mut packet_stream = TarsInputStream::new(&request[4..]);
    let s_buffer = packet_stream.read_bytes_at(7).expect("sBuffer");
    let mut attr_stream = TarsInputStream::new(&s_buffer);
    let attrs = attr_stream.read_map_string_bytes_at(0).expect("request attrs");
    let req_bytes = attrs.get("tReq").expect("tReq");
    let mut req_stream = TarsInputStream::new(req_bytes);
    assert!(req_stream.skip_to_tag(0));
    let (_, t) = req_stream.read_head().unwrap();
    assert_eq!(t, TarsType::StructBegin);
    let decoded_stream_name = req_stream.read_string_at(1).expect("sStreamName");
    assert_eq!(decoded_stream_name, stream_name);

    let mut rsp_struct = TarsOutputStream::new();
    rsp_struct.write_struct_begin(0);
    rsp_struct.write_string(0, "wsSecret=abc&wsTime=1&fm=xx&fs=bgct&ctype=huya_live&t=100");
    rsp_struct.write_int64(1, 123456);
    rsp_struct.write_struct_end();

    let mut attrs = StringMap::new();
    attrs.insert("tRsp".to_string(), rsp_struct.into_buffer());
    let mut attr_stream = TarsOutputStream::new();
    attr_stream.write_map_string_bytes(0, &attrs);

    let mut packet = TarsOutputStream::new();
    packet.write_request_packet(3, 1, SERVANT, FUNC, attr_stream.get_buffer());
    let packet_bytes = packet.into_buffer();
    let mut framed = Vec::new();
    framed.extend_from_slice(&((4 + packet_bytes.len()) as i32).to_be_bytes());
    framed.extend_from_slice(&packet_bytes);
    assert_eq!(frame_packet(&packet_bytes), framed);

    let token = decode_wup_flv_token(&framed).expect("token");
    assert!(token.contains("wsSecret=abc"));
    assert_eq!(token, "wsSecret=abc&wsTime=1&fm=xx&fs=bgct&ctype=huya_live&t=100");
    assert!(matches!(cdn_token_of_reply(true, "200 OK", &framed), Ok(text) if text == token));
    assert_eq!(
        refusal(cdn_token_of_reply(false, "500 Internal Server Error", &framed)),
        "虎牙 WUP 请求失败: HTTP 500 Internal Server Error"
    );
    assert_eq!(
        refusal(cdn_token_of_reply(true, "200 OK", &framed[..3])),
        WupError::TooShort.message()
    );
}

fn answer(attrs: &StringMap<Vec<u8>>) -> Vec<u8> {
    let mut attr_stream = TarsOutputStream::new();
    attr_stream.write_map_string_bytes(0, attrs);
    let mut packet = TarsOutputStream::new();
    packet.write_request_packet(3, 1, SERVANT, FUNC, attr_stream.get_buffer());
    frame_packet(&packet.into_buffer())
}

#[test]
fn answers_without_a_token() {
    assert_eq!(decode_wup_flv_token(&[0, 0]), Err(WupError::TooShort));
    assert_eq!(decode_wup_flv_token(&[0, 0, 0, 4]), Err(WupError::MissingBuffer));
    assert_eq!(decode_wup_flv_token(&answer(&StringMap::new())), Err(WupError::MissingResponse));
    let mut packet = TarsOutputStream::new();
    packet.write_request_packet(3, 1, SERVANT, FUNC, &[]);
    assert_eq!(
        decode_wup_flv_token(&frame_packet(&packet.into_buffer())),
        Err(WupError::BadAttributes)
    );
    let mut empty = StringMap::new();
    empty.insert("tRsp".to_string(), Vec::new());
    assert_eq!(decode_wup_flv_token(&answer(&empty)), Err(WupError::BadToken));
    let mut number = StringMap::new();
    number.insert("tRsp".to_string(), vec![0x00, 0x05]);
    assert_eq!(decode_wup_flv_token(&answer(&number)), Err(WupError::NotAStruct));
    for error in [
        WupError::TooShort,
        WupError::MissingBuffer,
        WupError::BadAttributes,
        WupError::MissingResponse,
        WupError::BadToken,
        WupError::NotAStruct,
    ] {
        assert!(!error.message().is_empty());
    }
}

#[test]
fn calls_to_the_token_service() {
    assert_eq!(wup_url(false), "https://wup.huya.com");
    assert_eq!(wup_url(true), "https://snmhuya.yst.aisee.tv/liveui/getCdnTokenInfoEx");
    assert_eq!(hyapp_ua(0, 3000, 30), "adr&13.1.0.3000&official&30");
    assert_eq!(hyapp_ua(1, 3000, 30), "ios&13.1.0&official");
    assert_eq!(hyapp_ua(2, 5000, 28), "nftv&2.6.10.5000&official&28");
    assert_eq!(hyapp_ua(3, 3000, 30), "pc_exe&7000000&official");
    assert!(random_hyapp_ua().contains("&official"));
    let call = prepare_cdn_token_call("name");
    assert!(call.url.starts_with("https://"));
    assert_eq!(call.body[..4], ((call.body.len()) as i32).to_be_bytes());
}

fn fields_round_trip(value: i64) {
    let mut out = TarsOutputStream::new();
    out.write_int64(3, value);
    out.write_string(200, "text");
    let bytes = out.into_buffer();
    let mut input = TarsInputStream::new(&bytes);
    assert_eq!(input.read_int64_at(3), Some(value));
    assert_eq!(input.read_string_at(200).unwrap(), "text");
}

#[test]
fn fields_of_every_width_come_back() {
    for value in [
        0,
        1,
        -1,
        127,
        -128,
        128,
        32767,
        -32768,
        32768,
        i32::MAX as i64,
        i32::MIN as i64,
        i32::MAX as i64 + 1,
        i64::MAX,
        i64::MIN,
    ] {
        fields_round_trip(value);
    }
    let mut out = TarsOutputStream::new();
    out.write_string(0, &"x".repeat(300));
    out.write_bytes(1, &[7; 300]);
    out.write_bool(2, true);
    let mut map = StringMap::new();
    map.insert("k".to_string(), "v".to_string());
    out.write_map_string_string(3, &map);
    out.write_int32(4, -70000);
    let bytes = out.into_buffer();
    let mut input = TarsInputStream::new(&bytes);
    assert_eq!(input.read_string_at(0).unwrap(), "x".repeat(300));
    assert_eq!(input.read_bytes_at(1).unwrap(), vec![7; 300]);
    assert_eq!(input.read_int32_at(4), Some(-70000));
    assert_eq!(input.read_int32_at(9), None);
    let mut out = TarsOutputStream::new();
    out.write_string(0, "a");
    let mut bytes = out.into_buffer();
    let last = bytes.len() - 1;
    bytes[last] = 0xff;
    assert_eq!(TarsInputStream::new(&bytes).read_string_at(0).unwrap(), "\u{fffd}");
    assert_eq!(TarsInputStream::new(&bytes).read_utf8_at(0), None);
}

#[test]
fn a_field_that_is_cut_short_ends_behind_the_data() {
    for (bytes, kind, end) in [
        (&[1u8][..], TarsType::Int16, 2),
        (&[], TarsType::Int8, 1),
        (&[1, 2], TarsType::Int64, 8),
        (&[9, b'a'], TarsType::String1, 10),
        (&[0, 0, 1, 0, b'a'], TarsType::String4, 260),
        (&[0x00, 0x00, 0x07, 1], TarsType::Bytes, 10),
    ] {
        let mut input = TarsInputStream::new(bytes);
        assert_eq!(input.skip_field(kind), Some(()));
        assert_eq!(input.pos, end);
        assert_eq!(input.read_head(), None);
        assert_eq!(input.read_int64_at(0), None);
        assert_eq!(input.pos, end);
    }
    let mut input = TarsInputStream::new(&[0x11, 0x00]);
    assert!(!input.skip_to_tag(2));
    assert_eq!(input.pos, 3);
}

fn text(value: &str) -> Json {
    Json::Text(value.to_string())
}

fn object(entries: Vec<(&str, Json)>) -> Json {
    Json::Object(entries.into_iter().map(|(k, v)| (k.to_string(), v)).collect())
}

fn options(cdn: &str, max_ratio: u32) -> HuyaOptions {
    HuyaOptions {
        cdn: cdn.to_string(),
        max_ratio,
        protocol: "Flv".to_string(),
        imgplus: true,
        codec: "264".to_string(),
        danmaku: false,
        mobile_api: false,
        use_wup: false,
    }
}

fn stream(cdn: &str, priority: i64) -> Json {
    object(vec![
        ("sStreamName", text("name")),
        ("sCdnType", text(cdn)),
        ("sFlvUrlSuffix", text("flv")),
        ("sFlvUrl", text("http://al.flv.example/src")),
        ("sFlvAntiCode", text("fm=1")),
        ("lPresenterUid", Json::PosInt(77)),
        (
            "iWebPriorityRate",
            if priority < 0 { Json::NegInt(priority) } else { Json::PosInt(priority as u64) },
        ),
    ])
}

#[test]
fn streams_are_ranked_and_chosen() {
    let live = HuyaLive::new("https://www.huya.com/1".to_string(), "n".to_string(), options("tx", 3000));
    assert_eq!(live.huya_cdn, "TX");
    let streams = vec![
        stream("AL", 5),
        stream("HY", 100),
        stream("TX", 50),
        stream("WS", 5),
        stream("BD", -1),
    ];
    match live.anticode_source(&streams).unwrap() {
        Some(AnticodeSource::Page { stream_name, anti_code, uid }) => {
            assert_eq!((stream_name.as_str(), anti_code.as_str(), uid), ("name", "fm=1", 77));
        }
        other => panic!("{other:?}"),
    }
    let urls = live.build_stream_urls(&streams, Some("q=1")).unwrap();
    let networks: Vec<&str> = urls.iter().map(|(cdn, _)| cdn.as_str()).collect();
    assert_eq!(networks, ["TX", "AL", "WS"]);
    assert_eq!(urls[0].1, "https://al.flv.example/src/name.flv?q=1&codec=264");
    assert!(matches!(
        live.build_stream_urls(&streams, None),
        Err(LiveError::Custom(text)) if text == "虎牙 anticode 生成失败"
    ));

    let rates = vec![
        object(vec![("iBitRate", Json::PosInt(2000))]),
        object(vec![("iBitRate", Json::PosInt(4000))]),
        object(vec![("iBitRate", Json::PosInt(500))]),
    ];
    assert_eq!(live.add_ratio("u?a", &rates, 10000), "u?a&ratio=2000");
    assert_eq!(live.add_ratio("u?a&ratio=1", &rates, 10000), "u?a&ratio=1");

    let room_data = object(vec![("state", text("ON"))]);
    let page = object(vec![
        ("vMultiStreamInfo", Json::Array(rates)),
        (
            "data",
            Json::Array(vec![object(vec![
                (
                    "gameLiveInfo",
                    object(vec![
                        ("introduction", text("title")),
                        ("screenshot", text("http://cover")),
                        ("bitRate", Json::PosInt(10000)),
                    ]),
                ),
                ("gameStreamInfoList", Json::Array(streams)),
            ])]),
        ),
    ]);
    let profile = room_profile(&room_data, page).unwrap().unwrap();
    assert_eq!(profile.title, "title");
    assert_eq!(profile.cover, "https://cover");
    assert_eq!(profile.max_bitrate, 10000);
    assert_eq!(profile.stream_info.len(), 5);
    let chosen = live.select_stream_url(&urls, &profile).unwrap();
    assert_eq!(chosen, "https://al.flv.example/src/name.flv?q=1&codec=264&ratio=2000");
    assert!(live.select_stream_url(&Vec::new(), &profile).is_err());
    let told = live.live_stream(&profile, chosen, None);
    assert_eq!(told.suffix, "flv");
    assert_eq!(told.platform, "huya");
    assert_eq!(told.downloader_hint, DownloaderHint::StreamGears);
    assert_eq!(told.live_cover_url, "https://cover");
    assert!(told.danmaku.is_none());
    let listened = HuyaLive { huya_danmaku: true, ..live };
    assert_eq!(listened.danmaku_source().unwrap().url, "https://www.huya.com/1");
    let told = listened.live_stream(&profile, String::new(), Some("ts".to_string()));
    assert_eq!(told.suffix, "ts");
    assert_eq!(told.danmaku.unwrap().platform, "huya");
}

#[test]
fn rooms_that_are_off_or_broken() {
    let off = object(vec![("state", text("OFF"))]);
    let on = object(vec![("state", text("ON"))]);
    let rates = || ("vMultiStreamInfo", Json::Array(vec![Json::Null]));
    let page = || object(vec![rates()]);
    assert!(room_profile(&off, page()).unwrap().is_none());
    assert!(room_profile(&on, Json::Null).unwrap().is_none());
    assert_eq!(refusal(room_profile(&on, page())), "虎牙流数据为空");
    let page = object(vec![rates(), ("data", Json::Array(vec![Json::Null]))]);
    assert_eq!(refusal(room_profile(&on, page)), "虎牙直播信息为空");
    assert!(matches!(
        json_str(&Json::Null, "k"),
        Err(LiveError::Custom(text)) if text == "虎牙字段 k 为空"
    ));
}

fn room() -> HuyaLive {
    HuyaLive::new("https://www.huya.com/1".to_string(), "n".to_string(), options("", 0))
}

fn told_of(profile: &HuyaRoomProfile) -> (&str, &str, u32, usize, usize) {
    (
        &profile.title,
        &profile.cover,
        profile.max_bitrate,
        profile.bitrate_info.len(),
        profile.stream_info.len(),
    )
}

const STREAM_PAGE: &str = r#"stream: {"data":[{"gameLiveInfo":{"introduction":"t","screenshot":"http://c","bitRate":500},"gameStreamInfoList":[{"sCdnType":"AL"},{"sCdnType":"TX"}]}],"vMultiStreamInfo":[{"iBitRate":0}]}"#;

#[test]
fn pages_of_rooms() {
    let page = format!("var TT_ROOM_DATA = {{\"state\":\"ON\"}}; {STREAM_PAGE}");
    let profile = room().extract_room_profile_from_page(&page).unwrap().unwrap();
    assert_eq!(told_of(&profile), ("t", "https://c", 500, 1, 2));
    let page = format!("var TT_ROOM_DATA = {{\"state\":\"OFF\"}}; {STREAM_PAGE}");
    assert!(room().extract_room_profile_from_page(&page).unwrap().is_none());
    assert_eq!(
        refusal(room().extract_room_profile_from_page(STREAM_PAGE)),
        "虎牙房间数据不存在"
    );
    assert!(refusal(room().extract_room_profile_from_page("var TT_ROOM_DATA = ?; "))
        .starts_with("解析虎牙房间数据失败: expected value"));
    assert!(room().extract_room_profile_from_page("var TT_ROOM_DATA = {};").is_err());
}

#[test]
fn answers_of_the_mobile_service() {
    let answer = |rates: &str| {
        format!(
            r#"{{"status":200,"data":{{"liveStatus":"ON","liveData":{{"bitRateInfo":"{rates}","introduction":"t&lt;","screenshot":"http://c","bitRate":700}},"stream":{{"baseSteamInfoList":[{{"sCdnType":"AL"}}]}}}}}}"#
        )
    };
    let profile = room().room_profile_from_answer(&answer("[1, 2]")).unwrap().unwrap();
    assert_eq!(told_of(&profile), ("t<", "https://c", 700, 2, 1));
    assert!(room().room_profile_from_answer(&answer("")).unwrap().is_none());
    assert!(refusal(room().room_profile_from_answer(&answer("{}")))
        .starts_with("解析虎牙码率信息失败: invalid type: map, expected a sequence"));
    assert!(refusal(room().room_profile_from_answer("nonsense"))
        .starts_with("解析虎牙移动端房间信息失败: expected ident"));
    assert_eq!(
        refusal(room().room_profile_from_answer(r#"{"status":422,"message":"no"}"#)),
        "虎牙移动端接口错误: no"
    );
    assert_eq!(refusal(room().room_profile_from_answer("{}")), "虎牙移动端接口错误: 未知错误");
    assert_eq!(refusal(room().room_profile_from_answer(r#"{"status":200}"#)), "虎牙移动端 data 为空");

    let root = read_answer(&answer("[]")).unwrap();
    assert!(check_api_status(&root).is_ok());
    assert_eq!(api_bitrate_text(&root).unwrap().unwrap(), "[]");
    let profile = api_profile(root, Vec::new()).unwrap().unwrap();
    assert_eq!(told_of(&profile), ("t<", "https://c", 700, 0, 1));
    assert!(check_api_status(&object(vec![("status", Json::PosInt(422))])).is_err());
    assert_eq!(refusal(api_bitrate_text(&Json::Null)), "虎牙移动端 data 为空");
    assert_eq!(refusal(api_profile(Json::Null, Vec::new())), "虎牙移动端 data 为空");
    assert!(room().extract_room_profile_from_api(object(vec![("data", Json::Null)])).unwrap().is_none());
}

#[test]
fn queries_are_read_as_forms() {
    for anti in ["", "&&", "a=1&b=%zz&c=%ff&d", "=fm"] {
        assert_eq!(build_anticode("s", anti, Some(1), |_| 0).unwrap(), anti);
    }
    assert_eq!(refusal(build_anticode("s", "f%6d", Some(1), |_| 0)), "虎牙 wsTime 为空");
    assert!(refusal(build_anticode("s", "&fm=a+b&&wsTime=1", Some(1), |_| 0))
        .starts_with("解码虎牙 fm base64 失败: Invalid symbol 32, offset 1"));
    assert!(refusal(build_anticode("s", "fm=a=b", Some(1), |_| 0))
        .starts_with("解码虎牙 fm base64 失败: Invalid symbol 61, offset 1"));
}

#[test]
fn a_field_is_found_behind_fields_of_every_kind() {
    let mut map = StringMap::new();
    map.insert("k".to_string(), vec![1, 2, 3]);
    map.insert("l".to_string(), Vec::new());
    let mut texts = StringMap::new();
    texts.insert("m".to_string(), "v".to_string());
    let mut out = TarsOutputStream::new();
    out.write_int64(1, 70000);
    out.write_string(2, &"y".repeat(300));
    out.write_bytes(3, &[9, 8]);
    out.write_map_string_bytes(5, &map);
    out.write_map_string_string(6, &texts);
    out.write_struct_begin(17);
    out.write_int64(0, 5);
    out.write_struct_begin(2);
    out.write_string(1, "inner");
    out.write_struct_end();
    out.write_struct_end();
    out.write_int64(200, -1);
    let bytes = out.into_buffer();
    assert_eq!(TarsInputStream::new(&bytes).read_int64_at(200), Some(-1));
    assert_eq!(TarsInputStream::new(&bytes).read_bytes_at(3), Some(vec![9, 8]));
    let read = TarsInputStream::new(&bytes).read_map_string_bytes_at(5).unwrap();
    assert_eq!(read.get("k"), Some(&vec![1, 2, 3]));
    for tag in [1, 2, 3, 5, 6, 17, 200] {
        let mut input = TarsInputStream::new(&bytes);
        assert!(input.skip_to_tag(tag));
        assert_eq!(input.read_head().unwrap().0, tag);
    }
    for (tag, next) in [(0, Some(1)), (4, Some(5)), (18, Some(200)), (201, None)] {
        let mut input = TarsInputStream::new(&bytes);
        assert!(!input.skip_to_tag(tag));
        assert_eq!(input.read_head().map(|(found, _)| found), next);
    }
    let mut input = TarsInputStream::new(&bytes);
    assert!(input.enter_struct(17));
    assert!(!input.skip_to_tag(3));
    assert_eq!(input.read_head(), Some((0, TarsType::StructEnd)));
}

#[test]
fn rooms_and_their_names() {
    assert!(Huya::new().matches("https://www.huya.com/123"));
    assert!(Huya::new().matches("http://m.huya.com/123"));
    assert!(!Huya::new().matches("https://www.example.com/123"));
    assert_eq!(Huya::new().name(), "Huya");
    let live = HuyaLive::new("https://www.huya.com/kpl?x=1".to_string(), String::new(), options("", 0));
    assert_eq!(live.room_id().unwrap(), "kpl");
    assert_eq!(HuyaLive::room_page_url("kpl"), "https://www.huya.com/kpl");
    assert_eq!(HuyaProtocol::from_config("Hls"), HuyaProtocol::Hls);
    assert_eq!(HuyaProtocol::from_config("else"), HuyaProtocol::Flv);
    assert_eq!(HuyaProtocol::Hls.extension(), "m3u8");
    assert_eq!(decode_html_entities("&quot;a&quot; &lt;b&gt;"), "\"a\" <b>");
    assert!(is_replay_title("回放 x"));
    assert!(is_replay_title("x 重播"));
    assert!(!is_replay_title("x 回放 y"));
    assert!(live.stream_headers().is_empty());
    let token = HuyaLive {
        huya_use_wup: true,
        ..HuyaLive::new("https://www.huya.com/1".to_string(), String::new(), options("", 0))
    };
    assert_eq!(token.stream_headers(), [("User-Agent".to_string(), WUP_UA.to_string())]);
    let plain = HuyaLive {
        huya_imgplus: false,
        ..HuyaLive::new("https://www.huya.com/1".to_string(), String::new(), options("", 0))
    };
    assert_eq!(plain.get_stream_name("a-imgplus"), "a");
    assert_eq!(live.get_stream_name("a-imgplus"), "a-imgplus");
    assert!(matches!(
        HuyaLive::read_room_page("找不到这个主播"),
        Err(LiveError::Custom(text)) if text == "虎牙直播间不可用"
    ));
    assert_eq!(HuyaLive::read_room_page("&quot;a").unwrap(), "\"a");
    let lost = HuyaLive::new("https://www.huya.com/".to_string(), String::new(), options("", 0));
    assert!(matches!(
        lost.room_id(),
        Err(LiveError::Custom(text)) if text == "虎牙直播间地址错误"
    ));
}
