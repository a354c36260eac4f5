//! Recording through an FFmpeg process.

use livecapture::ffmpeg::{
    exit_status, finalize_part_file, is_ffmpeg_timestamp_anomaly_line, parse_ffmpeg_opening_path,
    should_force_kill, timestamp_anomaly_cooldown, DownloadStatus, ExternalSegment, FileAction,
    PartFate, TimestampAnomalyDetector,
};
use livecapture::ffmpeg_args::{DownloadConfig, DownloaderType, FfmpegDownloader};
use livecapture::ffmpeg_internal::InternalSegments;
use livecapture::path::{
    file_stem, join_path, parent_path, plain_path, same_path, set_extension, strip_part_suffix,
};
use livecapture::time::Duration;

const COMPLAINT: &str = "Non-monotonous DTS in output stream";

#[test]
fn detects_known_ffmpeg_timestamp_warnings() {
    assert!(is_ffmpeg_timestamp_anomaly_line(
        "Application provided invalid, non monotonically increasing dts to muxer"
    ));
    assert!(is_ffmpeg_timestamp_anomaly_line("[mp4 @ 0x] Non-monotonous DTS in output stream"));
    assert!(is_ffmpeg_timestamp_anomaly_line(
        "[vost#0:0/copy @ 0x] Non-monotonic DTS; previous: 27189520, current: 27074992; changing to 27189521."
    ));
    assert!(!is_ffmpeg_timestamp_anomaly_line("Packet is out of order, dropping"));
    assert!(!is_ffmpeg_timestamp_anomaly_line("frame= 123 fps=30"));
}

#[test]
fn detector_respects_cooldown() {
    let mut detector = TimestampAnomalyDetector::new(5000);
    let now = Duration::from_secs(3600);
    assert!(detector.observe("Non-monotonous DTS in output stream", now));
    assert!(!detector.observe("Non-monotonous DTS in output stream", now));
    detector.last_trigger = Some(
        now.saturating_sub(timestamp_anomaly_cooldown()).saturating_sub(Duration::from_millis(1)),
    );
    assert!(detector.observe("Non-monotonous DTS in output stream", now));
}

#[test]
fn detector_can_be_disabled() {
    let mut detector = TimestampAnomalyDetector::new(0);
    assert!(!detector.observe("Non-monotonous DTS in output stream", Duration::from_secs(1)));
}

#[test]
fn parses_opening_path() {
    let path = parse_ffmpeg_opening_path("Opening 'foo/bar.mp4.part' for writing").unwrap();
    assert_eq!(path, "foo/bar.mp4.part");
    let quoted = parse_ffmpeg_opening_path("Opening 'foo/it's live.mp4.part' for writing").unwrap();
    assert_eq!(quoted, "foo/it's live.mp4.part");
    assert!(parse_ffmpeg_opening_path("Opening 'pipe:1' for writing").is_none());
    assert!(parse_ffmpeg_opening_path("frame=1").is_none());
}

#[test]
fn strips_part_suffix() {
    assert_eq!(strip_part_suffix("a/b.mp4.part"), "a/b.mp4");
    assert_eq!(strip_part_suffix("a/b.mp4"), "a/b.mp4");
}

#[test]
fn internal_completion_emits_boundaries_before_segment() {
    let mut files = InternalSegments::new(5000);
    let mut actions = Vec::new();
    files.complete_internal_segment("dir/capture.flv.part", &mut actions);

    let mut events = Vec::new();
    let mut segment_index = 0;
    let mut renamed = None;
    for action in actions {
        match action {
            FileAction::Start(_) => events.push("start"),
            FileAction::End(_) => events.push("end"),
            FileAction::Finalize(part) => {
                match finalize_part_file(&part, true, false, Some(5)) {
                    PartFate::Rename(path) => {
                        if let Some(index) = files.on_finalized(&path) {
                            events.push("segment");
                            segment_index = index + 1;
                        }
                        renamed = Some(path);
                    }
                    fate => panic!("{fate:?}"),
                }
            }
            other => panic!("{other:?}"),
        }
    }
    assert_eq!(events, ["start", "end", "segment"]);
    assert_eq!(segment_index, 1);
    assert_eq!(renamed.unwrap(), "dir/capture.flv");
    assert!(files.on_finalized("dir//capture.flv").is_none());
}

fn config(
    segment_duration: Option<&str>,
    segment_seconds: Option<u64>,
    time_range_remaining: Option<&str>,
) -> DownloadConfig {
    DownloadConfig {
        url: "http://host.example/live.flv".to_string(),
        headers: Vec::new(),
        suffix: "flv".to_string(),
        segment_seconds,
        segment_duration: segment_duration.map(str::to_owned),
        time_range_remaining: time_range_remaining.map(str::to_owned),
        file_size: None,
        timestamp_anomaly_threshold_ms: 0,
    }
}

fn value_of(args: &[String], flag: &str) -> Option<String> {
    let index = args.iter().position(|arg| arg == flag)?;
    args.get(index + 1).cloned()
}

fn seconds_of(args: &[String], flag: &str) -> u32 {
    let raw = value_of(args, flag).unwrap();
    let parts: Vec<u32> = raw.split(':').map(|p| p.parse().unwrap()).collect();
    parts[0] * 3600 + parts[1] * 60 + parts[2]
}

fn external() -> FfmpegDownloader {
    FfmpegDownloader::new(Vec::new(), DownloaderType::FfmpegExternal)
}

fn internal() -> FfmpegDownloader {
    FfmpegDownloader::new(Vec::new(), DownloaderType::FfmpegInternal)
}

#[test]
fn without_a_time_range_the_segment_time_reaches_ffmpeg_unchanged() {
    let args = external().build_ffmpeg_args_external_segment(&config(Some("01:00:00"), None, None));
    assert_eq!(value_of(&args, "-to"), Some("01:00:00".to_string()));
}

#[test]
fn without_a_segment_time_or_window_ffmpeg_gets_no_duration_limit() {
    let args = external().build_ffmpeg_args_external_segment(&config(None, None, None));
    assert_eq!(value_of(&args, "-to"), None);
}

#[test]
fn a_far_away_window_end_leaves_the_segment_time_alone() {
    let args = external()
        .build_ffmpeg_args_external_segment(&config(Some("01:00:00"), None, Some("02:00:00")));
    assert_eq!(value_of(&args, "-to"), Some("01:00:00".to_string()));
}

#[test]
fn a_near_window_end_shortens_the_segment_so_recording_stops_on_the_boundary() {
    let args = external()
        .build_ffmpeg_args_external_segment(&config(Some("00:10:00"), Some(3600), Some("00:10:00")));
    let to = seconds_of(&args, "-to");
    assert!((595..=600).contains(&to), "{to}");
}

#[test]
fn a_window_bounds_recording_even_when_no_segment_time_is_configured() {
    let args = external()
        .build_ffmpeg_args_external_segment(&config(Some("00:10:00"), None, Some("00:10:00")));
    let to = seconds_of(&args, "-to");
    assert!((595..=600).contains(&to), "{to}");
}

#[test]
fn internal_segmentation_caps_total_duration_at_the_window_end() {
    let args = internal()
        .build_ffmpeg_args_internal_segment(&config(None, Some(3600), Some("00:10:00")));
    assert_eq!(value_of(&args, "-segment_time"), Some("3600".to_string()));
    let total = seconds_of(&args, "-t");
    assert!((595..=600).contains(&total));
}

#[test]
fn internal_segmentation_has_no_total_cap_without_a_window() {
    let args = internal().build_ffmpeg_args_internal_segment(&config(None, Some(3600), None));
    assert_eq!(value_of(&args, "-segment_time"), Some("3600".to_string()));
    assert_eq!(value_of(&args, "-t"), None);
}

#[test]
fn the_whole_command_line() {
    let downloader =
        FfmpegDownloader::new(vec!["-an".to_string()], DownloaderType::FfmpegExternal);
    let mut wanted = config(Some("00:30:00"), None, None);
    wanted.url = "https://host.example/live.m3u8".to_string();
    wanted.headers = vec![("Referer".to_string(), "here".to_string())];
    wanted.suffix = "mp4".to_string();
    wanted.file_size = Some(4096);
    wanted.timestamp_anomaly_threshold_ms = 5000;
    assert_eq!(
        downloader.build_ffmpeg_args_external_segment(&wanted),
        [
            "-loglevel", "warning", "-progress", "pipe:1", "-stats_period", "0.25", "-nostats",
            "-y", "-headers", "Referer: here\r\n", "-rw_timeout", "20000000", "-max_reload",
            "1000", "-i", "https://host.example/live.m3u8", "-to", "00:30:00", "-fs", "4096",
            "-c", "copy", "-bsf:a", "aac_adtstoasc", "-movflags",
            "+frag_keyframe+empty_moov+default_base_moof", "-f", "mp4", "-an",
        ]
    );
}

#[test]
fn exits_are_told_apart() {
    assert!(matches!(exit_status(true, Some(1)), DownloadStatus::SegmentCompleted));
    assert!(matches!(exit_status(false, Some(0)), DownloadStatus::SegmentCompleted));
    assert!(matches!(exit_status(false, Some(255)), DownloadStatus::StreamEnded));
    assert!(matches!(
        exit_status(false, Some(-1)),
        DownloadStatus::Error(text) if text == "FFmpeg error: Some(-1)"
    ));
    assert!(matches!(
        exit_status(false, None),
        DownloadStatus::Error(text) if text == "FFmpeg error: None"
    ));
}

#[test]
fn only_the_process_that_was_meant_is_killed() {
    assert!(should_force_kill(Some(7), Some(Some(7))));
    assert!(!should_force_kill(Some(7), Some(Some(8))));
    assert!(!should_force_kill(Some(7), None));
    assert!(!should_force_kill(None, Some(None)));
    assert!(should_force_kill(None, Some(Some(8))));
}

#[test]
fn unfinished_files_meet_their_fate() {
    assert!(matches!(finalize_part_file("a.flv.part", true, false, Some(0)), PartFate::Remove));
    assert!(matches!(
        finalize_part_file("a.flv.part", true, false, Some(9)),
        PartFate::Rename(path) if path == "a.flv"
    ));
    assert!(matches!(
        finalize_part_file("a.flv.part", false, true, None),
        PartFate::Done(path) if path == "a.flv"
    ));
    assert!(matches!(finalize_part_file("a.flv.part", false, false, None), PartFate::Nothing));
}

fn told(actions: Vec<FileAction<String>>) -> Vec<String> {
    actions
        .into_iter()
        .map(|action| match action {
            FileAction::Start(path) => format!("start {path}"),
            FileAction::End(path) => format!("end {path}"),
            FileAction::Finalize(path) => format!("finalize {path}"),
            FileAction::Remove(path) => format!("remove {path}"),
            FileAction::Stop => "stop".to_string(),
        })
        .collect()
}

#[test]
fn one_process_writes_one_file() {
    let mut segment = ExternalSegment::new("out/a.flv".to_string(), 5000);
    assert_eq!(segment.part_file(), "out/a.flv.part");
    assert!(told(segment.on_stdout_line("total_size=10")).is_empty());
    assert_eq!(told(segment.on_stdout_line("progress=continue")), ["start out/a.flv"]);
    assert!(told(segment.on_stdout_line("progress=continue")).is_empty());
    assert_eq!(
        told(segment.on_stderr_line(COMPLAINT, Duration::from_secs(1))),
        ["end out/a.flv", "stop"]
    );
    assert!(told(segment.on_stderr_line(COMPLAINT, Duration::from_secs(2))).is_empty());
    assert_eq!(told(segment.on_exit(Some(20))), ["finalize out/a.flv.part"]);
    let mut silent = ExternalSegment::new("b.flv".to_string(), 0);
    assert_eq!(told(silent.on_exit(Some(0))), ["remove b.flv.part"]);
    assert!(told(silent.on_exit(None)).is_empty());
    assert_eq!(
        told(silent.on_exit(Some(3))),
        ["start b.flv", "end b.flv", "finalize b.flv.part"]
    );
}

#[test]
fn one_process_cuts_for_itself() {
    let mut files = InternalSegments::new(5000);
    assert_eq!(
        told(files.on_stderr_line("Opening 'a.flv.part' for writing", Duration::from_secs(1))),
        ["start a.flv"]
    );
    assert_eq!(
        told(files.on_stderr_line("Opening 'b.flv.part' for writing", Duration::from_secs(2))),
        ["end a.flv", "start b.flv"]
    );
    assert_eq!(told(files.on_stdout_line("a.flv.part")), ["finalize a.flv.part"]);
    assert_eq!(files.on_finalized("a.flv"), Some(0));
    assert!(!files.anomaly());
    assert_eq!(
        told(files.on_stderr_line(COMPLAINT, Duration::from_secs(3))),
        ["end b.flv", "stop"]
    );
    assert!(files.anomaly());
    assert!(told(files.on_close()).is_empty());
    assert_eq!(told(files.on_exit()), ["finalize b.flv.part"]);
    assert_eq!(files.on_finalized("b.flv"), Some(1));
}

/// Follows a whole process, of which every file can be given its final name but those in
/// `lost`.
fn recorded(lines: &[(bool, &str)], lost: &[&str], code: Option<i32>) -> (Vec<String>, DownloadStatus) {
    let mut files = InternalSegments::new(5000);
    let mut events = Vec::new();
    let mut perform = |files: &mut InternalSegments, actions: Vec<FileAction<String>>| {
        for action in actions {
            match action {
                FileAction::Start(path) => events.push(format!("start {path}")),
                FileAction::End(path) => events.push(format!("end {path}")),
                FileAction::Finalize(part) => {
                    let length = if lost.contains(&part.as_str()) { 0 } else { 7 };
                    match finalize_part_file(&part, true, false, Some(length)) {
                        PartFate::Rename(path) | PartFate::Done(path) => {
                            if let Some(index) = files.on_finalized(&path) {
                                events.push(format!("segment {index} {path}"));
                            }
                        }
                        PartFate::Remove | PartFate::Nothing => {}
                    }
                }
                FileAction::Stop | FileAction::Remove(_) => {}
            }
        }
    };
    for (i, (listed, line)) in lines.iter().enumerate() {
        let actions = if *listed {
            files.on_stdout_line(line)
        } else {
            files.on_stderr_line(line, Duration::from_secs(i as u64))
        };
        perform(&mut files, actions);
    }
    let actions = files.on_close();
    perform(&mut files, actions);
    let actions = files.on_exit();
    perform(&mut files, actions);
    let status = exit_status(files.anomaly(), code);
    (events, status)
}

#[test]
fn a_recording_is_told_in_order_however_its_pipes_are_read() {
    let open_a = (false, "Opening 'a.flv.part' for writing");
    let open_b = (false, "Opening 'd/b.flv.part' for writing");
    let (list_a, list_b) = ((true, "a.flv.part\n"), (true, "d//b.flv.part"));
    let told = [
        "start a.flv",
        "end a.flv",
        "segment 0 a.flv",
        "start d/b.flv",
        "end d/b.flv",
        "segment 1 d/b.flv",
    ];
    for lines in [
        [open_a, list_a, open_b, list_b],
        [list_a, open_a, list_b, open_b],
        [list_a, list_b, open_a, open_b],
        [open_a, list_b, list_a, open_b],
    ] {
        let (events, status) = recorded(&lines, &[], Some(0));
        let plain: Vec<String> = events.iter().map(|e| e.replace("//", "/")).collect();
        assert_eq!(plain, told);
        assert!(matches!(status, DownloadStatus::SegmentCompleted));
    }
    let (events, status) = recorded(&[open_a, open_b, list_b], &["a.flv.part"], Some(255));
    assert_eq!(
        events,
        ["start a.flv", "end a.flv", "start d/b.flv", "end d/b.flv", "segment 0 d/b.flv"]
    );
    assert!(matches!(status, DownloadStatus::StreamEnded));
    let (events, status) = recorded(&[open_a, (false, COMPLAINT)], &[], Some(1));
    assert_eq!(events, ["start a.flv", "end a.flv", "segment 0 a.flv"]);
    assert!(matches!(status, DownloadStatus::SegmentCompleted));
    let (events, status) = recorded(&[list_a, list_b], &[], None);
    assert_eq!(events.len(), 6);
    assert!(matches!(status, DownloadStatus::Error(text) if text == "FFmpeg error: None"));
}

#[test]
fn util_it_works() {
    let path = set_extension("/feel/the", "force");
    assert_eq!("/feel/the.force", path);
    let path = set_extension(&path, "");
    assert_eq!("/feel/the", path);
}

#[test]
fn paths_are_taken_apart_and_put_together() {
    assert_eq!(plain_path("a//b/./c/"), "a/b/c");
    assert!(same_path("/a/./b", "/a//b"));
    assert!(!same_path("a/b", "/a/b"));
    assert_eq!(join_path("a", "b"), "a/b");
    assert_eq!(join_path("a/", "b"), "a/b");
    assert_eq!(join_path("a", "/b"), "/b");
    assert_eq!(join_path("", "b"), "b");
    assert_eq!(parent_path("/a"), "/");
    assert_eq!(parent_path("a/b.flv"), "a");
    assert_eq!(parent_path("b.flv"), "");
    assert_eq!(parent_path("a/.."), "a");
    assert_eq!(parent_path("/"), "");
    assert_eq!(file_stem("a/b.flv.part").unwrap(), "b.flv");
    assert_eq!(file_stem("a/.b").unwrap(), ".b");
    assert!(file_stem("a/..").is_none());
    assert_eq!(set_extension("..", "x"), "..");
}
