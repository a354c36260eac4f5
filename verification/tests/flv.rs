//! Recording an FLV stream.

use bytes::{Buf, BufMut, Bytes, BytesMut};
use livecapture::flv::{
    classify_tag, is_media_timestamp_tag, map_parse_err, tag_header, tag_header_bytes, BodyFault, Connection, Error,
    Needed, ParseFailure, TagClass, TagHeader, TagType,
};
use livecapture::flv_frames::{FrameOrder, Progress};
use livecapture::httpflv::{
    next_tag_header, rebase_media_timestamp, rebase_media_timestamp_for_write, Action, FlvRecorder,
    Tag,
};
use livecapture::segment::Segmentable;
use livecapture::timestamp::retimestamp_tag_header;

#[test]
fn sequence_headers_are_not_media_timestamp_tags() {
    let audio_seq = TagHeader { tag_type: TagType::Audio, data_size: 4, timestamp: 0, stream_id: 0 };
    assert!(!is_media_timestamp_tag(&audio_seq, &[0xAF, 0x00, 0x11, 0x90]));

    let video_seq = TagHeader { tag_type: TagType::Video, data_size: 5, timestamp: 0, stream_id: 0 };
    assert!(!is_media_timestamp_tag(&video_seq, &[0x17, 0x00, 0x00, 0x00, 0x00]));

    let video_nalu =
        TagHeader { tag_type: TagType::Video, data_size: 5, timestamp: 1000, stream_id: 0 };
    assert!(is_media_timestamp_tag(&video_nalu, &[0x17, 0x01, 0x00, 0x00, 0x00]));
}

#[test]
fn retimestamp_header_sets_zero() {
    let header =
        TagHeader { tag_type: TagType::Video, data_size: 10, timestamp: 123456, stream_id: 0 };
    let zeroed = retimestamp_tag_header(&header, 0);
    assert_eq!(zeroed.timestamp, 0);
    assert_eq!(zeroed.data_size, 10);
}

#[test]
fn forward_jump_is_absorbed_into_output_timeline() {
    let prev =
        TagHeader { tag_type: TagType::Video, data_size: 10, timestamp: 8_141_000, stream_id: 0 };
    let jumped = TagHeader { timestamp: 8_189_000, ..prev };
    let mut base = Some(0u32);
    let mut stream_max_ms = None;
    let mut regression_offset = 0u32;
    let mut last_output_ms = None;
    assert_eq!(
        rebase_media_timestamp_for_write(
            &prev,
            true,
            &mut base,
            &mut stream_max_ms,
            &mut regression_offset,
            &mut last_output_ms,
        )
        .timestamp,
        8_141_000
    );
    let out = rebase_media_timestamp_for_write(
        &jumped,
        true,
        &mut base,
        &mut stream_max_ms,
        &mut regression_offset,
        &mut last_output_ms,
    );
    assert_eq!(out.timestamp, 8_141_001);

    let audio_jumped =
        TagHeader { tag_type: TagType::Audio, data_size: 10, timestamp: 8_189_020, stream_id: 0 };
    let audio_out = rebase_media_timestamp_for_write(
        &audio_jumped,
        true,
        &mut base,
        &mut stream_max_ms,
        &mut regression_offset,
        &mut last_output_ms,
    );
    assert_eq!(audio_out.timestamp, 8_141_021);

    let audio_regressed =
        TagHeader { tag_type: TagType::Audio, data_size: 10, timestamp: 8_188_500, stream_id: 0 };
    let audio_clamped = rebase_media_timestamp_for_write(
        &audio_regressed,
        true,
        &mut base,
        &mut stream_max_ms,
        &mut regression_offset,
        &mut last_output_ms,
    );
    assert!(audio_clamped.timestamp > audio_out.timestamp);
}

#[test]
fn media_timestamps_are_rebased_for_each_output_segment() {
    let first =
        TagHeader { tag_type: TagType::Video, data_size: 10, timestamp: 9_000, stream_id: 0 };
    let second = TagHeader { timestamp: 9_040, ..first };
    let header = TagHeader { timestamp: 55_000, ..first };
    let mut base = None;

    assert_eq!(rebase_media_timestamp(&header, false, &mut base).timestamp, 0);
    assert_eq!(base, None, "sequence headers must not set the media base");
    assert_eq!(rebase_media_timestamp(&first, true, &mut base).timestamp, 0);
    assert_eq!(rebase_media_timestamp(&second, true, &mut base).timestamp, 40);

    base = None;
    assert_eq!(rebase_media_timestamp(&header, true, &mut base).timestamp, 0);
}

#[test]
fn byte_it_works() {
    let mut bb = BytesMut::with_capacity(10);
    println!("chunk {:?}", bb.chunk());
    println!("capacity {}", bb.capacity());
    bb.put(&b"hello"[..]);
    println!("chunk {:?}", bb.chunk());
    println!("remaining {}", bb.remaining());
    bb.advance(5);
    println!("capacity {}", bb.capacity());
    println!("chunk {:?}", bb.chunk());
    println!("remaining {}", bb.remaining());
    bb.put(&b"hello"[..]);
    bb.put(&b"hello"[..]);
    println!("chunk {:?}", bb.chunk());
    println!("capacity {}", bb.capacity());
    println!("remaining {}", bb.remaining());

    let mut buf = BytesMut::with_capacity(11);
    buf.put(&b"hello world"[..]);
    let other = buf.split();

    assert!(buf.is_empty());
    assert_eq!(0, buf.capacity());
    assert_eq!(11, other.capacity());
    assert_eq!(other, b"hello world"[..]);
}

#[test]
fn httpflv_it_works() {}

/// What came of a recording.
struct Recorded {
    started: usize,
    ended: usize,
    /// The times of the tags of each file.
    files: Vec<Vec<(TagType, u32)>>,
}

fn perform(actions: Vec<Action<Bytes>>, out: &mut Recorded) {
    for action in actions {
        match action {
            Action::Started => out.started += 1,
            Action::Ended => out.ended += 1,
            Action::CreateNew => out.files.push(Vec::new()),
            Action::Write(tag) => {
                out.files.last_mut().unwrap().push((tag.header.tag_type, tag.header.timestamp))
            }
        }
    }
}

/// Records a stream that begins with a size field, fed in pieces of `piece` bytes.
fn record(data: &[u8], piece: usize, segment: Segmentable) -> Recorded {
    let mut connection = Connection::new();
    let mut rest: Vec<Bytes> =
        data.chunks(piece).rev().map(Bytes::copy_from_slice).collect();
    let mut frame = |size: usize| loop {
        if let Some(bytes) = connection.read_frame(size) {
            return bytes;
        }
        match rest.pop() {
            Some(chunk) => connection.feed(chunk),
            None => return connection.rest(),
        }
    };
    let mut recorder = FlvRecorder::new(segment);
    let mut out = Recorded { started: 0, ended: 0, files: vec![Vec::new()] };
    let mut order = FrameOrder::new();
    loop {
        let bytes = frame(order.size());
        match order.on_frame(bytes).unwrap() {
            Progress::Part(next) => order = next,
            Progress::Whole(tag, next) => {
                perform(recorder.on_tag(tag).unwrap(), &mut out);
                order = next;
            }
            Progress::End => break,
        }
    }
    perform(recorder.finish(), &mut out);
    out
}

const SCRIPT_HEAD: [u8; 11] =
    [0x12, 0x00, 0x00, 0x0E, 0x00, 0x00, 0x00, 0x00, 0x00, 0x00, 0x00];

const SCRIPT_BODY: [u8; 14] = [
    0x02, 0x00, 0x0A, b'o', b'n', b'M', b'e', b't', b'a', b'D', b'a', b't', b'a', 0x05,
];

const VIDEO_SEQ: [u8; 5] = [0x17, 0x00, 0x00, 0x00, 0x00];

const VIDEO_NALU: [u8; 5] = [0x17, 0x01, 0x00, 0x00, 0x00];

fn push_tag(data: &mut Vec<u8>, head: &[u8; 11], body: &[u8]) {
    data.extend_from_slice(head);
    data.extend_from_slice(body);
    data.extend_from_slice(&(11u32 + body.len() as u32).to_be_bytes());
}

fn video_head(t: [u8; 3]) -> [u8; 11] {
    [0x09, 0x00, 0x00, 0x05, t[0], t[1], t[2], 0x00, 0x00, 0x00, 0x00]
}

#[test]
fn pure_video_stream_segments_without_panic() {
    let mut data: Vec<u8> = vec![0, 0, 0, 0];
    data.extend_from_slice(&SCRIPT_HEAD);
    data.extend_from_slice(&SCRIPT_BODY);
    data.extend_from_slice(&[0, 0, 0, 0]);
    data.extend_from_slice(&video_head([0, 0, 0]));
    data.extend_from_slice(&VIDEO_SEQ);
    data.extend_from_slice(&[0, 0, 0, 0]);

    let out = record(&data, 7, Segmentable::new(None, Some(1)));
    assert_eq!(out.files.len(), 1);
    assert_eq!(out.files[0], vec![(TagType::Script, 0), (TagType::Video, 0)]);
}

#[test]
fn pure_video_stream_splits_at_key_frames() {
    let mut data: Vec<u8> = vec![0, 0, 0, 0];
    push_tag(&mut data, &SCRIPT_HEAD, &SCRIPT_BODY);
    push_tag(&mut data, &video_head([0, 0, 0]), &VIDEO_SEQ);
    push_tag(&mut data, &video_head([0, 0x03, 0xE8]), &VIDEO_NALU);
    push_tag(&mut data, &video_head([0, 0x07, 0xD0]), &VIDEO_NALU);

    let out = record(&data, 1, Segmentable::new(None, Some(1)));
    assert_eq!(out.files.len(), 3);
    for file in &out.files[1..] {
        assert_eq!(file[0].0, TagType::Script);
        assert_eq!(file[1].0, TagType::Video);
    }
    assert_eq!(out.files[2], vec![(TagType::Script, 0), (TagType::Video, 0), (TagType::Video, 0)]);
}

#[test]
fn avc_sequence_header_and_av_interleaving_do_not_trigger_anomaly() {
    let mut data: Vec<u8> = vec![0, 0, 0, 0];
    push_tag(&mut data, &SCRIPT_HEAD, &SCRIPT_BODY);
    push_tag(&mut data, &video_head([0, 0, 0]), &VIDEO_SEQ);
    let audio_head = |hi: u8, lo: u8| {
        [0x08, 0x00, 0x00, 0x04, 0x00, hi, lo, 0x00, 0x00, 0x00, 0x00]
    };
    push_tag(&mut data, &audio_head(0, 0), &[0xAF, 0x00, 0x11, 0x90]);
    push_tag(&mut data, &video_head([0x00, 0x03, 0xE8]), &VIDEO_NALU);
    push_tag(&mut data, &audio_head(0x06, 0x40), &[0xAF, 0x01, 0x00, 0x00]);
    push_tag(&mut data, &video_head([0x00, 0x04, 0x10]), &VIDEO_NALU);
    push_tag(&mut data, &video_head([0, 0, 0]), &VIDEO_SEQ);
    push_tag(&mut data, &video_head([0x00, 0x04, 0x38]), &VIDEO_NALU);

    let out = record(&data, 200, Segmentable::new(None, None));
    assert_eq!(out.ended, 1);
    assert_eq!(out.started, 1);
    assert_eq!(out.files.len(), 1);
    assert_eq!(
        out.files[0],
        vec![
            (TagType::Script, 0),
            (TagType::Video, 0),
            (TagType::Audio, 0),
            (TagType::Video, 0),
            (TagType::Audio, 600),
            (TagType::Video, 601),
            (TagType::Video, 0),
            (TagType::Video, 641),
        ]
    );
}

#[test]
fn real_keyframe_regression_triggers_split() {
    let mut data: Vec<u8> = vec![0, 0, 0, 0];
    push_tag(&mut data, &SCRIPT_HEAD, &SCRIPT_BODY);
    push_tag(&mut data, &video_head([0, 0, 0]), &VIDEO_SEQ);
    push_tag(&mut data, &video_head([0x49, 0xAC, 0x7C]), &VIDEO_NALU);
    push_tag(&mut data, &SCRIPT_HEAD, &SCRIPT_BODY);
    push_tag(&mut data, &video_head([0, 0, 0]), &VIDEO_SEQ);
    push_tag(&mut data, &video_head([0, 0, 0]), &VIDEO_NALU);

    let out = record(&data, 200, Segmentable::new(None, None));
    assert_eq!(out.ended, 2);
    assert_eq!(out.files.len(), 2);
}

#[test]
fn another_codec_begins_another_file() {
    let mut data: Vec<u8> = vec![0, 0, 0, 0];
    push_tag(&mut data, &video_head([0, 0, 0]), &VIDEO_SEQ);
    push_tag(&mut data, &video_head([0, 0, 10]), &VIDEO_NALU);
    push_tag(&mut data, &video_head([0, 0, 20]), &[0x17, 0x00, 0x00, 0x00, 0x01]);
    push_tag(&mut data, &video_head([0, 0, 30]), &VIDEO_NALU);
    let out = record(&data, 64, Segmentable::new(None, None));
    assert_eq!(out.files.len(), 2);
    assert_eq!(out.ended, 2);
}

#[test]
fn frames_do_not_depend_on_chunks() {
    let bytes: Vec<u8> = (0..=255u8).collect();
    for piece in [1usize, 3, 64, 256] {
        let mut connection = Connection::new();
        for chunk in bytes.chunks(piece) {
            connection.feed(Bytes::copy_from_slice(chunk));
        }
        assert_eq!(connection.len(), 256);
        assert_eq!(connection.read_frame(10).unwrap(), Bytes::copy_from_slice(&bytes[..10]));
        assert_eq!(connection.read_frame(200).unwrap(), Bytes::copy_from_slice(&bytes[10..210]));
        assert!(connection.read_frame(100).is_none());
        assert_eq!(connection.rest(), Bytes::copy_from_slice(&bytes[210..]));
        assert_eq!(connection.len(), 0);
    }
}

#[test]
fn frames_come_in_their_order() {
    let mut order = FrameOrder::new();
    let mut sizes = Vec::new();
    let mut tags = Vec::new();
    for bytes in [
        &[0u8; 4][..],
        &[0x09, 0, 0, 2, 0, 0, 5, 0, 0, 0, 0],
        &[0x27, 0x01],
        &[0, 0, 0, 13],
        &[0x08, 0, 0, 0, 0, 0, 6, 0, 0, 0, 0],
        &[],
        &[0, 0, 0, 11],
        &[],
    ] {
        sizes.push(order.size());
        match order.on_frame(Bytes::copy_from_slice(bytes)).unwrap() {
            Progress::Part(next) => order = next,
            Progress::Whole(tag, next) => {
                tags.push((tag.header.tag_type, tag.header.timestamp, tag.body, tag.previous_size));
                order = next;
            }
            Progress::End => break,
        }
    }
    assert_eq!(sizes, [4, 11, 2, 4, 11, 0, 4, 11]);
    assert_eq!(
        tags,
        [
            (TagType::Video, 5, Bytes::from_static(&[0x27, 0x01]), Bytes::from_static(&[0, 0, 0, 13])),
            (TagType::Audio, 6, Bytes::new(), Bytes::from_static(&[0, 0, 0, 11])),
        ]
    );
    let header = || match FrameOrder::new().on_frame(Bytes::new()).unwrap() {
        Progress::Part(next) => next,
        other => panic!("{other:?}"),
    };
    assert!(matches!(
        header().on_frame(Bytes::from_static(&[9, 0, 0])),
        Err(Error::NomIncomplete(text, Needed::Size(8))) if text == "tag header"
    ));
    assert!(matches!(
        header().on_frame(Bytes::from_static(&[7; 11])),
        Err(Error::Custom(text)) if text == "parse tag header err: unknown tag type"
    ));
    assert!(matches!(header().on_frame(Bytes::new()), Ok(Progress::End)));
}

#[test]
fn headers_and_their_faults() {
    let header = tag_header(&[0x09, 0, 1, 2, 3, 4, 5, 6, 0, 0, 7]).unwrap();
    assert_eq!(
        header,
        TagHeader {
            tag_type: TagType::Video,
            data_size: 258,
            timestamp: 0x06030405,
            stream_id: 7
        }
    );
    assert_eq!(tag_header_bytes(&header), [0x09, 0, 1, 2, 3, 4, 5, 6, 0, 0, 7]);
    let script =
        TagHeader { tag_type: TagType::Script, data_size: 1, timestamp: u32::MAX, stream_id: 0 };
    assert_eq!(tag_header(&tag_header_bytes(&script)).unwrap(), script);
    assert!(matches!(
        next_tag_header(&[9, 0, 0]),
        Err(Error::NomIncomplete(text, Needed::Size(8))) if text == "tag header"
    ));
    assert!(matches!(
        next_tag_header(&[7; 11]),
        Err(Error::Custom(text)) if text == "parse tag header err: unknown tag type"
    ));
    assert!(matches!(next_tag_header(&[]), Ok(None)));
    assert!(matches!(
        map_parse_err::<u8>(Err(ParseFailure::Failure("here".to_string())), "tag"),
        Err(Error::Custom(text)) if text == "tag Failure: here"
    ));
}

#[test]
fn bodies_and_their_faults() {
    let head = |tag_type, data_size| TagHeader { tag_type, data_size, timestamp: 0, stream_id: 0 };
    assert_eq!(
        classify_tag(&head(TagType::Video, 5), &[0x27, 1, 0, 0, 0]),
        Ok(TagClass::Video { key: false, sequence_header: false })
    );
    assert_eq!(
        classify_tag(&head(TagType::Audio, 2), &[0x2F, 0]),
        Ok(TagClass::Audio { sequence_header: false })
    );
    assert_eq!(
        classify_tag(&head(TagType::Audio, 2), &[0xAF, 0]),
        Ok(TagClass::Audio { sequence_header: true })
    );
    assert_eq!(classify_tag(&head(TagType::Audio, 1), &[0x9F]), Err(BodyFault::Format));
    assert_eq!(classify_tag(&head(TagType::Audio, 1), &[0xAF]), Err(BodyFault::AacHeader));
    assert_eq!(classify_tag(&head(TagType::Video, 1), &[0x17]), Err(BodyFault::AvcHeader));
    assert!(matches!(
        classify_tag(&head(TagType::Video, 5), &[0x17]),
        Err(BodyFault::Short(_))
    ));

    let mut recorder = FlvRecorder::new(Segmentable::new(None, None));
    let aac = Tag {
        header: head(TagType::Audio, 1),
        body: Bytes::from_static(&[0xAF]),
        previous_size: Bytes::new(),
    };
    assert!(matches!(recorder.on_tag(aac), Err(Error::AacHeader)));
    let avc = Tag {
        header: head(TagType::Video, 1),
        body: Bytes::from_static(&[0x17]),
        previous_size: Bytes::new(),
    };
    assert!(matches!(recorder.on_tag(avc), Err(Error::AvcHeader)));
}
