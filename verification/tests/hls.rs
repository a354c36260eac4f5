//! Recording an HLS stream.

use livecapture::hls::{
    has_sequence_gap, is_sequence_regression, open_playlist, parse_media_playlist,
    playlist_last_sequence, playlist_poll_interval, playlist_should_refresh, select_variant,
    should_download_sequence, HlsAction, HlsError, HlsNext, HlsRecorder, Opening,
};
use livecapture::outside_hls::{MediaPlaylist, MediaSegment, VariantStream};
use livecapture::segment::Segmentable;
use livecapture::time::Duration;
use url::Url;

fn empty_playlist(target_duration: u64) -> MediaPlaylist {
    MediaPlaylist { target_duration, media_sequence: 0, segments: Vec::new(), end_list: false }
}

fn window(media_sequence: u64, count: usize, end_list: bool) -> MediaPlaylist {
    let segments = (0..count)
        .map(|i| MediaSegment {
            uri: format!("{}.ts", media_sequence + i as u64),
            discontinuity: false,
            duration_bits: 2.0f32.to_bits(),
        })
        .collect();
    MediaPlaylist { target_duration: 2, media_sequence, segments, end_list }
}

#[test]
fn test_url() {
    let url = Url::parse("h://host.path/to/remote/resource.m3u8").unwrap();
    let scheme = url.scheme();
    let new_url = url.join("http://path.host/remote/resource.ts").unwrap();
    println!("{url}, {scheme}");
    println!("{new_url}, {scheme}");

    let recorder = HlsRecorder::new(
        "h://host.path/to/remote/resource.m3u8".to_string(),
        empty_playlist(1),
        Segmentable::new(None, None),
    );
    assert_eq!(
        recorder.piece_url("http://path.host/remote/resource.ts").unwrap(),
        "http://path.host/remote/resource.ts"
    );
    assert_eq!(recorder.piece_url("7.ts").unwrap(), "h://host.path/to/remote/7.ts");
    assert_eq!(recorder.media_url(), "h://host.path/to/remote/resource.m3u8");
}

#[test]
fn hls_it_works() {}

#[test]
fn media_sequence_zero_is_a_valid_first_segment() {
    assert!(should_download_sequence(None, 0));
    assert!(!should_download_sequence(Some(0), 0));
    assert!(should_download_sequence(Some(0), 1));
}

#[test]
fn overlapping_playlist_window_does_not_regress_or_create_a_gap() {
    assert!(!should_download_sequence(Some(102), 101));
    assert!(!should_download_sequence(Some(102), 102));
    assert!(should_download_sequence(Some(102), 103));
    assert!(!has_sequence_gap(Some(102), 103));
    assert!(!is_sequence_regression(Some(102), Some(103)));
}

#[test]
fn detects_large_regression_and_forward_gap() {
    assert!(is_sequence_regression(Some(102), Some(2)));
    assert!(!is_sequence_regression(Some(102), Some(101)));
    assert!(!is_sequence_regression(Some(102), Some(98)));
    assert!(has_sequence_gap(Some(102), 104));
    assert!(!has_sequence_gap(Some(102), 103));
}

#[test]
fn playlist_poll_interval_uses_target_duration() {
    assert_eq!(playlist_poll_interval(&empty_playlist(6)), Duration::from_secs(6));
}

#[test]
fn playlist_poll_interval_has_one_second_minimum() {
    assert_eq!(playlist_poll_interval(&empty_playlist(0)), Duration::from_secs(1));
}

#[test]
fn parse_media_playlist_preserves_end_list() {
    let playlist = parse_media_playlist(
        b"#EXTM3U\n\
          #EXT-X-TARGETDURATION:6\n\
          #EXT-X-MEDIA-SEQUENCE:7\n\
          #EXTINF:6.0,\n\
          7.ts\n\
          #EXT-X-ENDLIST\n",
    )
    .expect("valid media playlist should parse");

    assert!(playlist.end_list);
    assert!(!playlist_should_refresh(&playlist));
    assert_eq!(playlist.segments.len(), 1);

    assert_eq!(playlist.target_duration, 6);
    assert_eq!(playlist.media_sequence, 7);
    assert_eq!(playlist.segments[0].uri, "7.ts");
    assert_eq!(f32::from_bits(playlist.segments[0].duration_bits), 6.0);
    assert!(!playlist.segments[0].discontinuity);
    assert_eq!(playlist_last_sequence(&playlist), Some(7));
}

#[test]
fn parse_media_playlist_returns_error_for_invalid_content() {
    let error = parse_media_playlist(b"not a media playlist")
        .expect_err("invalid media playlist should return an error");
    assert!(matches!(error, HlsError::Custom(text) if text.contains("Unable to parse media playlist")));
}

#[test]
fn a_document_of_renditions_leads_to_the_widest() {
    let master = b"#EXTM3U\n\
        #EXT-X-STREAM-INF:BANDWIDTH=100,RESOLUTION=640x360\n\
        low.m3u8\n\
        #EXT-X-STREAM-INF:BANDWIDTH=900,RESOLUTION=1280x720\n\
        high/index.m3u8\n";
    match open_playlist("https://host.example/live/main.m3u8", master).unwrap() {
        Opening::Variant { url } => assert_eq!(url, "https://host.example/live/high/index.m3u8"),
        Opening::Media { .. } => panic!("expected renditions"),
    }
    let media = b"#EXTM3U\n#EXT-X-TARGETDURATION:4\n#EXT-X-DISCONTINUITY\n#EXTINF:4.0,\n1.ts\n";
    match open_playlist("https://host.example/live/media.m3u8", media).unwrap() {
        Opening::Media { url, playlist } => {
            assert_eq!(url, "https://host.example/live/media.m3u8");
            assert_eq!(playlist.segments.len(), 1);
            assert!(playlist.segments[0].discontinuity);
        }
        Opening::Variant { .. } => panic!("expected pieces"),
    }
    match open_playlist("HTTPS://HOST.example/live/./media.m3u8", media).unwrap() {
        Opening::Media { url, .. } => assert_eq!(url, "https://host.example/live/media.m3u8"),
        Opening::Variant { .. } => panic!("expected pieces"),
    }
    assert!(matches!(
        open_playlist("https://host.example/", b"#EXTM3U\n#EXT-X-SESSION-DATA:X=1\n"),
        Err(HlsError::NoVariant)
    ));
    assert!(matches!(
        open_playlist("https://host.example/", b"nothing"),
        Err(HlsError::Custom(_))
    ));
    assert!(matches!(open_playlist("no address", master), Err(HlsError::Url(_))));
}

#[test]
fn the_widest_rendition_is_chosen() {
    let variant = |bandwidth: u64| VariantStream {
        uri: bandwidth.to_string(),
        bandwidth,
        has_resolution: true,
        is_i_frame: false,
    };
    let variants = vec![variant(5), variant(9), variant(2)];
    assert_eq!(variants[select_variant(&variants)].bandwidth, 9);
}

/// Fetches all that the playlist has to give.
fn drain(recorder: &mut HlsRecorder) -> (Vec<String>, Vec<HlsAction>) {
    let mut fetched = Vec::new();
    let mut actions = Vec::new();
    loop {
        let (before, next) = recorder.next();
        actions.extend(before);
        match next {
            HlsNext::Fetch { uri, duration_bits } => {
                assert_eq!(f32::from_bits(duration_bits), 2.0);
                actions.extend(recorder.on_first_chunk());
                actions.extend(recorder.on_fetched(10, Duration::from_secs(2)).unwrap());
                fetched.push(uri);
            }
            HlsNext::Refresh(span) => {
                assert_eq!(span, Duration::from_secs(2));
                return (fetched, actions);
            }
            HlsNext::Finished => {
                actions.extend(recorder.finish());
                return (fetched, actions);
            }
            HlsNext::Overflow => panic!("no number"),
        }
    }
}

#[test]
fn pieces_of_overlapping_windows_are_fetched_once() {
    let mut recorder = HlsRecorder::new(
        "https://host.example/live.m3u8".to_string(),
        window(100, 3, false),
        Segmentable::new(None, None),
    );
    let (fetched, actions) = drain(&mut recorder);
    assert_eq!(fetched, ["100.ts", "101.ts", "102.ts"]);
    assert_eq!(actions, vec![HlsAction::Started]);
    assert!(recorder.on_playlist(window(101, 3, true)).is_empty());
    let (fetched, actions) = drain(&mut recorder);
    assert_eq!(fetched, ["103.ts"]);
    assert_eq!(actions, vec![HlsAction::Ended]);
}

#[test]
fn a_gap_and_a_new_stream_begin_new_files() {
    let mut recorder = HlsRecorder::new(
        "https://host.example/live.m3u8".to_string(),
        window(100, 1, false),
        Segmentable::new(None, None),
    );
    drain(&mut recorder);
    recorder.on_playlist(window(105, 1, false));
    let (fetched, actions) = drain(&mut recorder);
    assert_eq!(fetched, ["105.ts"]);
    assert_eq!(actions, vec![HlsAction::Ended, HlsAction::CreateNew, HlsAction::Started]);
    let actions = recorder.on_playlist(window(1, 1, false));
    assert_eq!(actions, vec![HlsAction::Ended, HlsAction::CreateNew]);
    let (fetched, actions) = drain(&mut recorder);
    assert_eq!(fetched, ["1.ts"]);
    assert_eq!(actions, vec![HlsAction::Started]);
}

#[test]
fn a_full_file_gives_way_to_the_next() {
    let mut recorder = HlsRecorder::new(
        "https://host.example/live.m3u8".to_string(),
        window(1, 4, true),
        Segmentable::new(None, Some(20)),
    );
    let (fetched, actions) = drain(&mut recorder);
    assert_eq!(fetched.len(), 4);
    assert_eq!(
        actions.iter().filter(|action| **action == HlsAction::CreateNew).count(),
        actions.iter().filter(|action| **action == HlsAction::Ended).count()
            - usize::from(actions.last() == Some(&HlsAction::Ended))
    );
    assert!(actions.contains(&HlsAction::CreateNew));
}

#[test]
fn an_end_is_told_again_where_the_next_file_cannot_be_opened() {
    let mut recorder = HlsRecorder::new(
        "https://host.example/live.m3u8".to_string(),
        window(1, 2, true),
        Segmentable::new(None, Some(10)),
    );
    assert!(matches!(recorder.next().1, HlsNext::Fetch { .. }));
    assert_eq!(recorder.on_first_chunk(), [HlsAction::Started]);
    assert_eq!(
        recorder.on_fetched(10, Duration::from_secs(2)).unwrap(),
        [HlsAction::Ended, HlsAction::CreateNew]
    );
    recorder.on_create_failed();
    assert_eq!(recorder.finish(), [HlsAction::Ended]);
    assert!(recorder.finish().is_empty());

    let mut silent = HlsRecorder::new(
        "https://host.example/live.m3u8".to_string(),
        window(1, 2, true),
        Segmentable::new(None, Some(10)),
    );
    assert!(matches!(silent.next().1, HlsNext::Fetch { .. }));
    assert_eq!(silent.on_fetched(10, Duration::from_secs(2)).unwrap(), [HlsAction::CreateNew]);
    silent.on_create_failed();
    assert!(silent.finish().is_empty());
}

#[test]
fn files_of_a_recording_are_in_turn() {
    let mut recorder = HlsRecorder::new(
        "https://host.example/live.m3u8".to_string(),
        window(1, 5, true),
        Segmentable::new(None, Some(20)),
    );
    let (_, actions) = drain(&mut recorder);
    let mut open = false;
    for action in actions {
        match action {
            HlsAction::Started => assert!(!std::mem::replace(&mut open, true)),
            HlsAction::Ended => assert!(std::mem::replace(&mut open, false)),
            HlsAction::CreateNew => assert!(!open),
        }
    }
    assert!(!open);
}

#[test]
fn numbers_of_pieces_run_out() {
    let mut recorder = HlsRecorder::new(
        "https://host.example/live.m3u8".to_string(),
        window(u64::MAX, 1, false),
        Segmentable::new(None, None),
    );
    let (_, next) = recorder.next();
    assert!(matches!(next, HlsNext::Fetch { .. }));
    assert!(matches!(
        recorder.on_fetched(1, Duration::from_secs(1)),
        Err(HlsError::Overflow)
    ));
}
