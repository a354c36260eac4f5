//! The command line of the FFmpeg process.

use crate::text::{contains, decimal, decimal_string, lower, pairs_of, same_ignoring_case, same_text, text_contains, texts};
use vstd::prelude::*;

verus! {

/// Which process records, and who cuts its output into files.
#[derive(Debug, Clone, Copy, PartialEq, Eq, Structural)]
pub enum DownloaderType {
    /// One process per file.
    FfmpegExternal,
    /// One process that cuts for itself.
    FfmpegInternal,
    /// No FFmpeg process.
    Other,
}

/// What the command line depends on.
pub struct DownloadConfig {
    pub url: String,
    /// The headers of the request, in order.
    pub headers: Vec<(String, String)>,
    /// The file name extension, which names the container.
    pub suffix: String,
    /// The length of a file in seconds, where the process cuts for itself.
    pub segment_seconds: Option<u64>,
    /// The length of a file as FFmpeg reads it, where one process writes one file.
    pub segment_duration: Option<String>,
    /// What is left of the recording window, as FFmpeg reads it.
    pub time_range_remaining: Option<String>,
    /// The largest size of a file.
    pub file_size: Option<u64>,
    /// Regressions of the time axis cut the file, unless this is zero.
    pub timestamp_anomaly_threshold_ms: u32,
}

/// Headers as they stand in a request, each on a line of its own.
pub open spec fn header_lines(headers: Seq<(Seq<char>, Seq<char>)>) -> Seq<char>
    decreases headers.len(),
{
    if headers.len() == 0 {
        Seq::empty()
    } else {
        header_lines(headers.drop_last()) + headers.last().0 + ": "@ + headers.last().1 + "\r\n"@
    }
}

/// A flag with its value, where there is one.
pub open spec fn optional_arg(flag: Seq<char>, value: Option<Seq<char>>) -> Seq<Seq<char>> {
    match value {
        Some(text) => seq![flag, text],
        None => Seq::empty(),
    }
}

/// A text, if there is one, by its view.
pub open spec fn text_of(text: Option<String>) -> Option<Seq<char>> {
    match text {
        Some(t) => Some(t@),
        None => None,
    }
}

/// A number, if there is one, in decimal.
pub open spec fn decimal_of(number: Option<u64>) -> Option<Seq<char>> {
    match number {
        Some(n) => Some(decimal(n as nat)),
        None => None,
    }
}

/// What comes before the output, up to the address.
pub open spec fn input_args(config: DownloadConfig) -> Seq<Seq<char>> {
    let headers = pairs_of(config.headers@);
    seq!["-y"@] + (if headers.len() > 0 {
        seq!["-headers"@, header_lines(headers)]
    } else {
        Seq::empty()
    }) + seq!["-rw_timeout"@, "20000000"@] + (if contains(config.url@, ".m3u8"@) {
        seq!["-max_reload"@, "1000"@]
    } else {
        Seq::empty()
    }) + seq!["-i"@, config.url@]
}

/// How an MP4 file is laid out: in fragments where it may be cut short, else with its index in
/// front.
pub open spec fn movflags(threshold_ms: u32) -> Seq<Seq<char>> {
    if threshold_ms > 0 {
        seq!["-movflags"@, "+frag_keyframe+empty_moov+default_base_moof"@]
    } else {
        seq!["-movflags"@, "+faststart"@]
    }
}

/// What the container asks for.
pub open spec fn container_args(format: Seq<char>, threshold_ms: u32) -> Seq<Seq<char>> {
    if format == "mp4"@ {
        seq!["-bsf:a"@, "aac_adtstoasc"@] + movflags(threshold_ms) + seq!["-f"@, "mp4"@]
    } else if format == "ts"@ {
        seq!["-f"@, "mpegts"@]
    } else if format == "mkv"@ {
        seq!["-f"@, "matroska"@]
    } else if format == "flv"@ {
        seq!["-f"@, "flv"@]
    } else {
        Seq::empty()
    }
}

/// What comes last before the name of the output.
pub open spec fn output_args(
    format: Seq<char>,
    threshold_ms: u32,
    extra: Seq<Seq<char>>,
) -> Seq<Seq<char>> {
    seq!["-c"@, "copy"@] + container_args(format, threshold_ms) + extra
}

/// The command line of a process that cuts for itself.
pub open spec fn internal_args(config: DownloadConfig, extra: Seq<Seq<char>>) -> Seq<Seq<char>> {
    seq!["-loglevel"@, "info"@] + input_args(config) + seq![
        "-f"@,
        "segment"@,
        "-segment_format"@,
        config.suffix@,
        "-segment_list"@,
        "pipe:1"@,
        "-map"@,
        "0"@,
        "-segment_list_type"@,
        "flat"@,
        "-reset_timestamps"@,
        "1"@,
        "-strftime"@,
        "1"@,
    ] + optional_arg("-segment_time"@, decimal_of(config.segment_seconds)) + (if lower(
        config.suffix@,
    ) == lower("mp4"@) {
        movflags(config.timestamp_anomaly_threshold_ms)
    } else {
        Seq::empty()
    }) + optional_arg("-t"@, text_of(config.time_range_remaining)) + output_args(
        "segment"@,
        config.timestamp_anomaly_threshold_ms,
        extra,
    )
}

/// The command line of a process that writes one file.
pub open spec fn external_args(config: DownloadConfig, extra: Seq<Seq<char>>) -> Seq<Seq<char>> {
    seq![
        "-loglevel"@,
        if config.timestamp_anomaly_threshold_ms > 0 {
            "warning"@
        } else {
            "quiet"@
        },
        "-progress"@,
        "pipe:1"@,
        "-stats_period"@,
        "0.25"@,
        "-nostats"@,
    ] + input_args(config) + optional_arg("-to"@, text_of(config.segment_duration)) + optional_arg(
        "-fs"@,
        decimal_of(config.file_size),
    ) + output_args(config.suffix@, config.timestamp_anomaly_threshold_ms, extra)
}

fn push(args: &mut Vec<String>, arg: &str)
    ensures
        texts(final(args)@) == texts(old(args)@).push(arg@),
{
    args.push(arg.to_owned());
    assert(texts(args@) =~= texts(old(args)@).push(arg@));
}

fn push_pair(args: &mut Vec<String>, flag: &str, value: &str)
    ensures
        texts(final(args)@) == texts(old(args)@) + seq![flag@, value@],
{
    push(args, flag);
    push(args, value);
    assert(texts(args@) =~= texts(old(args)@) + seq![flag@, value@]);
}

fn push_optional(args: &mut Vec<String>, flag: &str, value: &Option<String>)
    ensures
        texts(final(args)@) == texts(old(args)@) + optional_arg(flag@, text_of(*value)),
{
    match value {
        Some(text) => {
            push_pair(args, flag, text.as_str());
        },
        None => {},
    }
    assert(texts(args@) =~= texts(old(args)@) + optional_arg(flag@, text_of(*value)));
}

fn push_number(args: &mut Vec<String>, flag: &str, value: Option<u64>)
    ensures
        texts(final(args)@) == texts(old(args)@) + optional_arg(flag@, decimal_of(value)),
{
    match value {
        Some(n) => {
            push_pair(args, flag, decimal_string(n).as_str());
        },
        None => {},
    }
    assert(texts(args@) =~= texts(old(args)@) + optional_arg(flag@, decimal_of(value)));
}

fn push_movflags(args: &mut Vec<String>, threshold_ms: u32)
    ensures
        texts(final(args)@) == texts(old(args)@) + movflags(threshold_ms),
{
    if threshold_ms > 0 {
        push_pair(args, "-movflags", "+frag_keyframe+empty_moov+default_base_moof");
    } else {
        push_pair(args, "-movflags", "+faststart");
    }
}

fn headers_text(headers: &Vec<(String, String)>) -> (text: String)
    ensures
        text@ == header_lines(pairs_of(headers@)),
{
    let mut text = String::new();
    let mut i: usize = 0;
    assert(pairs_of(headers@).take(0) =~= Seq::<(Seq<char>, Seq<char>)>::empty());
    assert(text@ =~= header_lines(pairs_of(headers@).take(0)));
    while i < headers.len()
        invariant
            i <= headers.len(),
            text@ == header_lines(pairs_of(headers@).take(i as int)),
        decreases headers.len() - i,
    {
        let ghost before = text@;
        text.append(headers[i].0.as_str());
        text.append(": ");
        text.append(headers[i].1.as_str());
        text.append("\r\n");
        let ghost upto = pairs_of(headers@).take(i + 1);
        assert(upto.drop_last() =~= pairs_of(headers@).take(i as int));
        assert(upto.last() == (headers@[i as int].0@, headers@[i as int].1@));
        assert(text@ =~= header_lines(upto));
        i += 1;
    }
    assert(pairs_of(headers@).take(headers@.len() as int) =~= pairs_of(headers@));
    text
}

/// A recorder that runs FFmpeg.
pub struct FfmpegDownloader {
    /// Arguments of the user, put before the name of the output.
    pub extra_args: Vec<String>,
    pub downloader_type: DownloaderType,
}

impl FfmpegDownloader {
    pub fn new(extra_args: Vec<String>, downloader_type: DownloaderType) -> (downloader: Self)
        ensures
            downloader.extra_args == extra_args,
            downloader.downloader_type == downloader_type,
    {
        FfmpegDownloader { extra_args, downloader_type }
    }

    /// The command line of a process that cuts for itself.
    pub fn build_ffmpeg_args_internal_segment(&self, config: &DownloadConfig) -> (args: Vec<String>)
        ensures
            texts(args@) == internal_args(*config, texts(self.extra_args@)),
    {
        let mut args: Vec<String> = Vec::new();
        push_pair(&mut args, "-loglevel", "info");
        self.append_common_input_args(&mut args, config);
        push_pair(&mut args, "-f", "segment");
        push_pair(&mut args, "-segment_format", config.suffix.as_str());
        push_pair(&mut args, "-segment_list", "pipe:1");
        push_pair(&mut args, "-map", "0");
        push_pair(&mut args, "-segment_list_type", "flat");
        push_pair(&mut args, "-reset_timestamps", "1");
        push_pair(&mut args, "-strftime", "1");
        push_number(&mut args, "-segment_time", config.segment_seconds);
        if same_ignoring_case(config.suffix.as_str(), "mp4") {
            push_movflags(&mut args, config.timestamp_anomaly_threshold_ms);
        }
        push_optional(&mut args, "-t", &config.time_range_remaining);
        self.append_common_output_args(
            &mut args,
            "segment",
            config.timestamp_anomaly_threshold_ms,
        );
        assert(texts(args@) =~= internal_args(*config, texts(self.extra_args@)));
        args
    }

    /// The command line of a process that writes one file.
    pub fn build_ffmpeg_args_external_segment(&self, config: &DownloadConfig) -> (args: Vec<String>)
        ensures
            texts(args@) == external_args(*config, texts(self.extra_args@)),
    {
        let mut args: Vec<String> = Vec::new();
        if config.timestamp_anomaly_threshold_ms > 0 {
            push_pair(&mut args, "-loglevel", "warning");
        } else {
            push_pair(&mut args, "-loglevel", "quiet");
        }
        push_pair(&mut args, "-progress", "pipe:1");
        push_pair(&mut args, "-stats_period", "0.25");
        push(&mut args, "-nostats");
        self.append_common_input_args(&mut args, config);
        push_optional(&mut args, "-to", &config.segment_duration);
        push_number(&mut args, "-fs", config.file_size);
        self.append_common_output_args(
            &mut args,
            config.suffix.as_str(),
            config.timestamp_anomaly_threshold_ms,
        );
        assert(texts(args@) =~= external_args(*config, texts(self.extra_args@)));
        args
    }

    fn append_common_input_args(&self, args: &mut Vec<String>, config: &DownloadConfig)
        ensures
            texts(final(args)@) == texts(old(args)@) + input_args(*config),
    {
        push(args, "-y");
        if config.headers.len() > 0 {
            let headers = headers_text(&config.headers);
            push_pair(args, "-headers", headers.as_str());
        }
        push_pair(args, "-rw_timeout", "20000000");
        if text_contains(config.url.as_str(), ".m3u8") {
            push_pair(args, "-max_reload", "1000");
        }
        push_pair(args, "-i", config.url.as_str());
        assert(texts(args@) =~= texts(old(args)@) + input_args(*config));
    }

    fn append_common_output_args(
        &self,
        args: &mut Vec<String>,
        format: &str,
        timestamp_anomaly_threshold_ms: u32,
    )
        ensures
            texts(final(args)@) == texts(old(args)@) + output_args(
                format@,
                timestamp_anomaly_threshold_ms,
                texts(self.extra_args@),
            ),
    {
        push_pair(args, "-c", "copy");
        if same_text(format, "mp4") {
            push_pair(args, "-bsf:a", "aac_adtstoasc");
            push_movflags(args, timestamp_anomaly_threshold_ms);
            push_pair(args, "-f", "mp4");
        } else if same_text(format, "ts") {
            push_pair(args, "-f", "mpegts");
        } else if same_text(format, "mkv") {
            push_pair(args, "-f", "matroska");
        } else if same_text(format, "flv") {
            push_pair(args, "-f", "flv");
        }
        let ghost before = texts(args@);
        assert(before =~= texts(old(args)@) + seq!["-c"@, "copy"@] + container_args(
            format@,
            timestamp_anomaly_threshold_ms,
        ));
        let mut i: usize = 0;
        while i < self.extra_args.len()
            invariant
                i <= self.extra_args.len(),
                texts(args@) == before + texts(self.extra_args@).take(i as int),
            decreases self.extra_args.len() - i,
        {
            push(args, self.extra_args[i].as_str());
            i += 1;
            assert(texts(args@) =~= before + texts(self.extra_args@).take(i as int));
        }
        assert(texts(args@) =~= texts(old(args)@) + output_args(
            format@,
            timestamp_anomaly_threshold_ms,
            texts(self.extra_args@),
        ));
    }
}

} // verus!
