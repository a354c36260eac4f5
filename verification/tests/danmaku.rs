//! Comments of a room.

use livecapture::danmaku::{
    random_user_agent, user_agent_of, ChatMessage, DanmakuError, DanmakuEvent, Huya, DEFAULT_COLOR,
    MSG_PUSH_REQ, REGISTER_REQ,
};
use livecapture::tars::TarsOutputStream;
use livecapture::tars_input::TarsInputStream;
use livecapture::time::Duration;
use regex::Regex;

const WS_USER_INFO: &str = "0130391c260036004c5c6130397003";
const REGISTER_PACKET: &str = "00011d00000f0130391c260036004c5c6130397003";
const COMMENT_PACKET: &str =
    "00071d00001e1105782d0000170a2605616c6963650b360568656c6c6f6a02001122330b";
const DEFAULT_COLOR_PACKET: &str =
    "00071d00001b1105782d0000140a2605616c6963650b360568656c6c6f6a00ff0b";
const EMPTY_NAME_PACKET: &str = "00071d0000191105782d0000120a26000b360568656c6c6f6a02001122330b";
const EMPTY_CONTENT_PACKET: &str =
    "00071d0000191105782d0000120a2605616c6963650b36006a02001122330b";

fn hex_decode(input: &str) -> Vec<u8> {
    (0..input.len())
        .step_by(2)
        .map(|index| u8::from_str_radix(&input[index..index + 2], 16).unwrap())
        .collect()
}

fn decode_single_chat(packet: &str) -> ChatMessage {
    let events = Huya::parse_message(&hex_decode(packet)).unwrap();
    assert_eq!(events.len(), 1);
    let DanmakuEvent::Chat(chat) = events.into_iter().next().unwrap();
    chat
}

#[test]
fn test_extract_room_id() {
    assert_eq!(Huya::extract_room_id("https://www.huya.com/123456"), Some("123456".to_string()));
    assert_eq!(Huya::extract_room_id("https://huya.com/kpl"), Some("kpl".to_string()));
    assert_eq!(Huya::extract_room_id("https://example.com/kpl"), None);
}

#[test]
fn test_extract_room_uid() {
    assert_eq!(Huya::extract_room_uid(r#""uid":"123456""#), Some(123456));
    assert_eq!(Huya::extract_room_uid("uid: 654321"), Some(654321));
    assert_eq!(Huya::extract_room_uid("no presenter here"), None);
    assert_eq!(Huya::extract_room_uid("uid: 99999999999999999999"), None);
}

#[test]
fn user_agents_name_a_browser() {
    let pattern = Regex::new(
        r"^Mozilla/5\.0 \(Windows NT 10\.0; Win64; x64\) AppleWebKit/537\.36 \(KHTML, like Gecko\) Chrome/(10\d|11\d|120)\.0\.0\.0 Safari/537\.36$",
    )
    .unwrap();
    for _ in 0..50 {
        assert!(pattern.is_match(&random_user_agent()));
    }
    assert_eq!(
        user_agent_of(100),
        "Mozilla/5.0 (Windows NT 10.0; Win64; x64) AppleWebKit/537.36 (KHTML, like Gecko) Chrome/100.0.0.0 Safari/537.36"
    );
}

#[test]
fn test_build_ws_user_info() {
    let data = Huya::build_ws_user_info(12345);
    assert_eq!(data, hex_decode(WS_USER_INFO));
    let mut ios = TarsInputStream::new(&data);
    assert_eq!(ios.read_int64_at(0), Some(12345));
}

#[test]
fn test_build_ws_command() {
    let user_info = Huya::build_ws_user_info(12345);
    let cmd = Huya::build_ws_command(REGISTER_REQ, &user_info);
    assert_eq!(cmd, hex_decode(REGISTER_PACKET));
    assert_eq!(Huya::registration(12345), cmd);
    let mut ios = TarsInputStream::new(&cmd);
    assert_eq!(ios.read_int32_at(0), Some(REGISTER_REQ));
}

#[test]
fn test_decode_matches_python_nested_tars_behavior() {
    let chat = decode_single_chat(COMMENT_PACKET);
    assert_eq!(chat.name.as_deref(), Some("alice"));
    assert_eq!(chat.content, "hello");
    assert_eq!(chat.color, 0x112233);
    assert_eq!(chat.uid, None);
}

#[test]
fn test_decode_maps_python_minus_one_color_to_white() {
    let chat = decode_single_chat(DEFAULT_COLOR_PACKET);
    assert_eq!(chat.color, DEFAULT_COLOR);
}

#[test]
fn test_decode_filters_empty_name_like_python() {
    let events = Huya::parse_message(&hex_decode(EMPTY_NAME_PACKET)).unwrap();
    assert!(events.is_empty());
}

#[test]
fn test_decode_keeps_empty_content_like_python() {
    let chat = decode_single_chat(EMPTY_CONTENT_PACKET);
    assert_eq!(chat.name.as_deref(), Some("alice"));
    assert!(chat.content.is_empty());
}

#[test]
fn test_decode_ignores_non_danmaku_push() {
    let mut inner = TarsOutputStream::new();
    inner.write_int64(1, 1401);
    inner.write_bytes(2, b"");
    let packet = Huya::build_ws_command(MSG_PUSH_REQ, inner.get_buffer());
    assert!(Huya::parse_message(&packet).unwrap().is_empty());
}

#[test]
fn test_decode_rejects_malformed_struct_and_invalid_utf8() {
    assert!(Huya::parse_danmaku(&[0x06, 0x00]).is_err());
    assert!(Huya::parse_danmaku(&[0x0a, 0x26, 0x01, 0xff, 0x0b]).is_err());
}

#[test]
fn test_heartbeat_matches_python_timing() {
    let huya = Huya::new();
    assert_eq!(huya.heartbeat_config().interval, Duration::from_secs(60));
    assert_eq!(huya.heartbeat_initial_delay(), Duration::from_secs(60));
}

#[test]
fn pushes_that_are_cut_short_are_refused() {
    let empty = Huya::build_ws_command(REGISTER_REQ, &[]);
    assert!(Huya::parse_message(&empty).unwrap().is_empty());
    let mut bare = TarsOutputStream::new();
    bare.write_int32(0, MSG_PUSH_REQ);
    match Huya::parse_message(bare.get_buffer()) {
        Err(DanmakuError::Decode(text)) => assert_eq!(text, "Huya push command is missing vData"),
        other => panic!("{other:?}"),
    }
    let mut inner = TarsOutputStream::new();
    inner.write_int64(1, 1400);
    let packet = Huya::build_ws_command(MSG_PUSH_REQ, inner.get_buffer());
    match Huya::parse_message(&packet) {
        Err(DanmakuError::Decode(text)) => {
            assert_eq!(text, "Huya danmaku push is missing message body")
        }
        other => panic!("{other:?}"),
    }
}

#[test]
fn comments_come_back_as_they_were_written() {
    let mut body = TarsOutputStream::new();
    body.write_struct_begin(0);
    body.write_string(2, "鲍勃");
    body.write_struct_end();
    body.write_string(3, "你好");
    body.write_struct_begin(6);
    body.write_int32(0, 70000);
    body.write_struct_end();
    let mut inner = TarsOutputStream::new();
    inner.write_int64(1, 1400);
    inner.write_bytes(2, body.get_buffer());
    let packet = Huya::build_ws_command(MSG_PUSH_REQ, inner.get_buffer());
    let events = Huya::parse_message(&packet).unwrap();
    let DanmakuEvent::Chat(chat) = &events[0];
    assert_eq!(chat.name.as_deref(), Some("鲍勃"));
    assert_eq!(chat.content, "你好");
    assert_eq!(chat.color, 70000);
}

#[test]
fn rooms_and_presenters_are_found_or_missed() {
    assert_eq!(Huya::choose_room(Some("7"), "https://huya.com/kpl").unwrap(), "7");
    assert_eq!(Huya::choose_room(None, "https://huya.com/kpl").unwrap(), "kpl");
    assert!(matches!(
        Huya::choose_room(None, "https://example.com/kpl"),
        Err(DanmakuError::Decode(text)) if text == "Invalid Huya URL"
    ));
    assert_eq!(Huya::room_page_url("kpl"), "https://www.huya.com/kpl");
    assert_eq!(Huya::register_for(Some(12345)).unwrap(), hex_decode(REGISTER_PACKET));
    assert!(matches!(
        Huya::register_for(None),
        Err(DanmakuError::Decode(text)) if text == "Failed to extract UID from Huya page"
    ));
}
