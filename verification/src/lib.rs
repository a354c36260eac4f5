//! Verified core of a live-stream recorder.
//!
//! Everything that decides, parses or formats stands here, with contracts that
//! Verus proves; sockets, files, processes and clocks stay with the caller.

pub mod anticode;
pub mod anticode_laws;
pub mod danmaku;
pub mod danmaku_laws;
pub mod ffmpeg;
pub mod ffmpeg_args;
pub mod ffmpeg_args_laws;
pub mod ffmpeg_internal;
pub mod ffmpeg_laws;
pub mod ffmpeg_line_laws;
pub mod ffmpeg_run_laws;
pub mod flv;
pub mod flv_frames;
pub mod hls;
pub mod hls_file_laws;
pub mod hls_laws;
pub mod httpflv;
pub mod httpflv_file_laws;
pub mod httpflv_laws;
pub mod huya;
pub mod huya_laws;
pub mod huya_room_laws;
pub mod huya_streams;
pub mod json;
pub mod lifecycle;
pub mod lifecycle_laws;
pub mod live;
pub mod logging;
pub mod logging_laws;
pub mod outside;
pub mod outside_bytes;
pub mod outside_hls;
pub mod outside_json;
pub mod outside_time;
pub mod outside_web;
pub mod page_json;
pub mod page_json_laws;
pub mod path;
pub mod path_laws;
pub mod segment;
pub mod segment_laws;
pub mod string_map;
pub mod tars;
pub mod tars_bound_laws;
pub mod tars_field_laws;
pub mod tars_input;
pub mod tars_laws;
pub mod text;
pub mod text_laws;
pub mod time;
pub mod timestamp;
pub mod timestamp_laws;
pub mod web_laws;
pub mod wire_laws;
pub mod wup;
pub mod wup_laws;
