//! The time axis of a recording and the limits of its files.

use livecapture::segment::{Progress, Segmentable};
use livecapture::time::Duration;
use livecapture::timestamp::{
    absorb_forward_timestamp_jump, absorb_forward_timestamp_jump_with_max,
    clamp_regression_monotonic, is_timestamp_anomaly, DEFAULT_TIMESTAMP_ANOMALY_THRESHOLD_MS,
};

#[test]
fn test_segmentation_logic() {
    let mut seg = Segmentable::new(Some(Duration::from_secs(10)), None);
    assert!(!seg.needed());
    seg.increase_time(Duration::from_secs(15));
    assert!(seg.needed());
    assert!(seg.time_needed());
    assert!(!seg.size_needed());

    let mut seg = Segmentable::new(None, Some(1024));
    assert!(!seg.needed());
    seg.increase_size(2048);
    assert!(seg.needed());
    assert!(!seg.time_needed());
    assert!(seg.size_needed());

    let mut seg = Segmentable::new(Some(Duration::from_secs(10)), Some(1024));
    assert!(!seg.needed());
    seg.increase_time(Duration::from_secs(15));
    assert!(seg.needed());

    seg.full_reset();
    seg.increase_size(2048);
    assert!(seg.needed());

    seg.increase_time(Duration::from_secs(15));
    assert!(seg.needed());
    assert!(seg.time_needed());
    assert!(seg.size_needed());
}

#[test]
fn is_timestamp_anomaly_detects_regression_with_threshold() {
    let default_threshold = DEFAULT_TIMESTAMP_ANOMALY_THRESHOLD_MS;
    assert!(!is_timestamp_anomaly(0, 5000, default_threshold));
    assert!(!is_timestamp_anomaly(1000, 1200, default_threshold));
    assert!(!is_timestamp_anomaly(10000, 1000, 0));
    assert!(!is_timestamp_anomaly(4_005_589, 3_996_599, 0));

    assert!(!is_timestamp_anomaly(10_000, 9000, default_threshold));
    assert!(!is_timestamp_anomaly(10_000, 5001, default_threshold));
    assert!(is_timestamp_anomaly(10_000, 5000, default_threshold));
    assert!(is_timestamp_anomaly(10_000, 1000, default_threshold));
    assert!(is_timestamp_anomaly(4_005_589, 3_996_599, default_threshold));

    assert!(!is_timestamp_anomaly(1000, 501, 500));
    assert!(is_timestamp_anomaly(1000, 500, 500));

    assert!(!is_timestamp_anomaly(1000, 4000, default_threshold));
    assert!(!is_timestamp_anomaly(3_807_016, 3_819_366, default_threshold));
}

#[test]
fn clamp_regression_monotonic_preserves_order_and_relative_av_diff() {
    let mut regression_offset = 0u32;
    let mut last_output = None;

    let v1 = clamp_regression_monotonic(1000, &mut regression_offset, &mut last_output);
    assert_eq!(v1, 1000);
    assert_eq!(last_output, Some(1000));
    assert_eq!(regression_offset, 0);

    let a1 = clamp_regression_monotonic(1020, &mut regression_offset, &mut last_output);
    assert_eq!(a1, 1020);
    assert_eq!(last_output, Some(1020));
    assert_eq!(regression_offset, 0);

    let v2 = clamp_regression_monotonic(800, &mut regression_offset, &mut last_output);
    assert_eq!(v2, 1021);
    assert_eq!(last_output, Some(1021));
    assert_eq!(regression_offset, 221);

    let a2 = clamp_regression_monotonic(820, &mut regression_offset, &mut last_output);
    assert_eq!(a2, 1041);
    assert_eq!(last_output, Some(1041));
    assert_eq!(a2 - v2, 20);

    let v3 = clamp_regression_monotonic(850, &mut regression_offset, &mut last_output);
    assert_eq!(v3, 1071);
    assert_eq!(last_output, Some(1071));
    assert!(v3 > a2);
}

#[test]
fn absorb_forward_timestamp_jump_compacts_gap() {
    let mut base = Some(0u32);
    assert_eq!(absorb_forward_timestamp_jump(1000, 1500, &mut base), None);
    assert_eq!(base, Some(0));

    let absorbed = absorb_forward_timestamp_jump(3_807_016, 3_819_366, &mut base).unwrap();
    assert_eq!(absorbed, 12_349);
    assert_eq!(base, Some(12_349));
    assert_eq!(3_819_366 - base.unwrap(), 3_807_017);

    let mut base = Some(0u32);
    let absorbed = absorb_forward_timestamp_jump(8_141_000, 8_189_000, &mut base).unwrap();
    assert_eq!(absorbed, 47_999);
    assert_eq!(8_189_000 - base.unwrap(), 8_141_001);

    let mut base = None;
    assert_eq!(absorb_forward_timestamp_jump(1000, 5000, &mut base), None);
    assert_eq!(base, None);
}

#[test]
fn absorb_forward_timestamp_jump_with_max_coordinates_av_tracks() {
    let mut base = Some(0u32);
    let mut stream_max = None;

    assert_eq!(absorb_forward_timestamp_jump_with_max(1000, &mut stream_max, &mut base), None);
    assert_eq!(stream_max, Some(1000));
    assert_eq!(base, Some(0));

    assert_eq!(absorb_forward_timestamp_jump_with_max(1020, &mut stream_max, &mut base), None);
    assert_eq!(stream_max, Some(1020));
    assert_eq!(absorb_forward_timestamp_jump_with_max(1033, &mut stream_max, &mut base), None);
    assert_eq!(stream_max, Some(1033));
    assert_eq!(base, Some(0));

    assert_eq!(absorb_forward_timestamp_jump_with_max(1010, &mut stream_max, &mut base), None);
    assert_eq!(stream_max, Some(1033));

    let absorbed =
        absorb_forward_timestamp_jump_with_max(6033, &mut stream_max, &mut base).unwrap();
    assert_eq!(absorbed, 4999);
    assert_eq!(base, Some(4999));
    assert_eq!(stream_max, Some(6033));

    assert_eq!(absorb_forward_timestamp_jump_with_max(6020, &mut stream_max, &mut base), None);
    assert_eq!(base, Some(4999));
    assert_eq!(stream_max, Some(6033));
}

#[test]
fn clamping_ends_at_the_last_number() {
    let mut offset = 0u32;
    let mut last = Some(u32::MAX - 1);
    assert_eq!(clamp_regression_monotonic(7, &mut offset, &mut last), u32::MAX);
    assert_eq!(clamp_regression_monotonic(7, &mut offset, &mut last), u32::MAX);
}

#[test]
fn limits_are_told_in_words() {
    let unlimited = Segmentable::default();
    assert!(!unlimited.needed());
    let none = Progress { current: String::new(), expected: String::new(), percentage: String::new() };
    assert_eq!(unlimited.get_status(&none, &none), "Time: No limit, Size: No limit");

    let mut limited = Segmentable::new(Some(Duration::from_secs(10)), Some(1024));
    limited.increase_size(512);
    let time = Progress {
        current: "0.0".to_string(),
        expected: "10.0".to_string(),
        percentage: "0.0".to_string(),
    };
    let size = Progress {
        current: "512".to_string(),
        expected: "1024".to_string(),
        percentage: "50.0".to_string(),
    };
    assert_eq!(
        limited.get_status(&time, &size),
        "Time: 0.0/10.0 s (0.0%), Size: 512/1024 bytes (50.0%)"
    );
}

#[test]
fn reasons_are_told() {
    let mut seg = Segmentable::new(Some(Duration::from_secs(10)), Some(1024));
    assert_eq!(seg.get_segment_reason(), "No segmentation needed");
    seg.increase_size(1024);
    assert_eq!(seg.get_segment_reason(), "Size limit reached");
    seg.increase_time(Duration::from_secs(10));
    assert_eq!(seg.get_segment_reason(), "Time and size limits reached");
    seg.set_size_position(0);
    assert_eq!(seg.get_segment_reason(), "Time limit reached");
}

#[test]
fn positions_move_and_start_again() {
    let mut seg = Segmentable::new(Some(Duration::from_secs(10)), Some(100));
    seg.set_start_time(Duration::from_secs(5));
    seg.set_time_position(Duration::from_secs(12));
    assert_eq!(seg.elapsed_time(), Duration::from_secs(7));
    assert_eq!(seg.time_position(), Duration::from_secs(12));
    seg.set_size_position(64);
    assert_eq!(seg.size_position(), 64);
    assert!(!seg.needed());
    seg.set_time_position(Duration::from_millis(15_000));
    assert!(seg.time_needed());
    seg.reset();
    assert!(!seg.needed());
    assert_eq!(seg.size_position(), 0);
    assert_eq!(seg.timestamp_anomaly_threshold_ms(), 5000);
    seg.set_timestamp_anomaly_threshold_ms(0);
    assert_eq!(seg.timestamp_anomaly_threshold_ms(), 0);
    assert_eq!(seg.expected_time(), Some(Duration::from_secs(10)));
    assert_eq!(seg.expected_size(), Some(100));
}
