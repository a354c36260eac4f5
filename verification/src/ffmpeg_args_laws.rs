//! What holds of every command line.

use crate::ffmpeg_args::{container_args, external_args, header_lines, input_args, internal_args, output_args, DownloadConfig};
use crate::text::{contains, decimal, lower, pairs_of};
use vstd::prelude::*;

verus! {

/// A command line.
pub type Args = Seq<Seq<char>>;

/// `args` ends with `tail`.
pub open spec fn closes_with(args: Args, tail: Args) -> bool {
    tail.len() <= args.len() && args.skip(args.len() - tail.len()) == tail
}

/// `args` begins with `head`.
pub open spec fn opens_with(args: Args, head: Args) -> bool {
    head.len() <= args.len() && args.take(head.len() as int) == head
}

// ---------------------------------------------------------------------------
// The container
// ---------------------------------------------------------------------------

/// The name under which FFmpeg knows the container that a suffix stands for.
pub open spec fn container_of(suffix: Seq<char>) -> Option<Seq<char>> {
    if suffix == "mp4"@ {
        Some("mp4"@)
    } else if suffix == "ts"@ {
        Some("mpegts"@)
    } else if suffix == "mkv"@ {
        Some("matroska"@)
    } else if suffix == "flv"@ {
        Some("flv"@)
    } else {
        None
    }
}

proof fn suffixes_differ()
    ensures
        "mp4"@ != "ts"@,
        "mp4"@ != "mkv"@,
        "mp4"@ != "flv"@,
        "ts"@ != "mkv"@,
        "ts"@ != "flv"@,
        "mkv"@ != "flv"@,
        "mp4"@ != "segment"@,
        "ts"@ != "segment"@,
        "mkv"@ != "segment"@,
        "flv"@ != "segment"@,
        "mp4"@ != "mpegts"@,
        "mp4"@ != "matroska"@,
        "mpegts"@ != "matroska"@,
        "mpegts"@ != "flv"@,
        "matroska"@ != "flv"@,
{
    reveal_strlit("mp4");
    reveal_strlit("ts");
    reveal_strlit("mkv");
    reveal_strlit("flv");
    reveal_strlit("segment");
    reveal_strlit("mpegts");
    reveal_strlit("matroska");
    assert("mp4"@[1] == 'p' && "mkv"@[1] == 'k' && "flv"@[1] == 'l');
    assert("mp4"@.len() == 3 && "mkv"@.len() == 3 && "flv"@.len() == 3);
    assert("ts"@.len() == 2 && "segment"@.len() == 7);
    assert("mpegts"@.len() == 6 && "matroska"@.len() == 8);
}

/// The user's own arguments stand last. Right before them stands the container that the suffix
/// stands for; a suffix that stands for none leaves the choice to FFmpeg. Streams are copied.
pub proof fn the_suffix_names_the_container(config: DownloadConfig, extra: Args)
    ensures
        ({
            let args = external_args(config, extra);
            let own = args.take(args.len() - extra.len());
            &&& closes_with(args, extra)
            &&& match container_of(config.suffix@) {
                Some(name) => closes_with(own, seq!["-f"@, name]),
                None => closes_with(own, seq!["-c"@, "copy"@]),
            }
            &&& config.suffix@ == "ts"@ || config.suffix@ == "mkv"@ || config.suffix@ == "flv"@
                ==> closes_with(
                own.take(own.len() - 2),
                seq!["-c"@, "copy"@],
            )
        }),
{
    suffixes_differ();
    let args = external_args(config, extra);
    let threshold = config.timestamp_anomaly_threshold_ms;
    let format = config.suffix@;
    let tail = output_args(format, threshold, extra);
    let front = args.take(args.len() - tail.len());
    assert(args =~= front + tail);
    let own = args.take(args.len() - extra.len());
    assert(args.skip(args.len() - extra.len()) =~= extra);
    let container = container_args(format, threshold);
    let inner = front + seq!["-c"@, "copy"@];
    assert(own =~= inner + container);
    match container_of(format) {
        Some(name) => {
            let n = container.len() as int;
            assert(container[n - 2] == "-f"@ && container[n - 1] == name);
            assert(own.skip(own.len() - 2) =~= seq!["-f"@, name]);
            if format != "mp4"@ {
                assert(n == 2);
                assert(own.take(own.len() - 2) =~= inner);
                assert(inner.skip(inner.len() - 2) =~= seq!["-c"@, "copy"@]);
            }
        },
        None => {
            assert(own =~= inner);
            assert(own.skip(own.len() - 2) =~= seq!["-c"@, "copy"@]);
        },
    }
}

/// Two suffixes that stand for containers stand for the same only where they are the same.
pub proof fn containers_differ(one: DownloadConfig, other: DownloadConfig, extra: Args)
    requires
        container_of(one.suffix@) is Some,
        container_of(other.suffix@) is Some,
        one.suffix@ != other.suffix@,
    ensures
        ({
            let a = external_args(one, extra);
            let b = external_args(other, extra);
            a[a.len() - extra.len() - 1] != b[b.len() - extra.len() - 1]
        }),
{
    suffixes_differ();
    the_suffix_names_the_container(one, extra);
    the_suffix_names_the_container(other, extra);
    let a = external_args(one, extra);
    let b = external_args(other, extra);
    let c = a.take(a.len() - extra.len());
    let d = b.take(b.len() - extra.len());
    assert(c.skip(c.len() - 2)[1] == c[c.len() - 1]);
    assert(d.skip(d.len() - 2)[1] == d[d.len() - 1]);
}

/// An MP4 file gets its sound in the form that the container wants; it is written in fragments
/// where it may be cut short, else with its index in front.
pub proof fn mp4_is_laid_out(config: DownloadConfig, extra: Args)
    requires
        config.suffix@ == "mp4"@,
    ensures
        closes_with(
            external_args(config, extra),
            seq![
                "-c"@,
                "copy"@,
                "-bsf:a"@,
                "aac_adtstoasc"@,
                "-movflags"@,
                if config.timestamp_anomaly_threshold_ms > 0 {
                    "+frag_keyframe+empty_moov+default_base_moof"@
                } else {
                    "+faststart"@
                },
                "-f"@,
                "mp4"@,
            ] + extra,
        ),
{
    let args = external_args(config, extra);
    let tail = output_args(config.suffix@, config.timestamp_anomaly_threshold_ms, extra);
    assert(args.skip(args.len() - tail.len()) =~= tail);
    assert(tail =~= seq![
        "-c"@,
        "copy"@,
        "-bsf:a"@,
        "aac_adtstoasc"@,
        "-movflags"@,
        if config.timestamp_anomaly_threshold_ms > 0 {
            "+frag_keyframe+empty_moov+default_base_moof"@
        } else {
            "+faststart"@
        },
        "-f"@,
        "mp4"@,
    ] + extra);
}

// ---------------------------------------------------------------------------
// The input
// ---------------------------------------------------------------------------

/// The headers of a request stand one after the other, each as its name, a colon, a space, its
/// value and a line end.
pub proof fn headers_stand_on_lines(
    headers: Seq<(Seq<char>, Seq<char>)>,
    name: Seq<char>,
    value: Seq<char>,
)
    ensures
        header_lines(Seq::empty()).len() == 0,
        header_lines(headers.push((name, value))) == header_lines(headers) + (name + seq![':', ' ']
            + value + seq!['\r', '\n']),
{
    reveal_strlit(": ");
    reveal_strlit("\r\n");
    assert(": "@ =~= seq![':', ' ']);
    assert("\r\n"@ =~= seq!['\r', '\n']);
    assert(headers.push((name, value)).drop_last() =~= headers);
    assert(header_lines(headers.push((name, value))) =~= header_lines(headers) + (name + seq![
        ':',
        ' ',
    ] + value + seq!['\r', '\n']));
}

/// Before the address stands what concerns it: old files are overwritten, the headers are sent
/// where there are any, a read may take twenty seconds, and a playlist is fetched again up to a
/// thousand times.
pub proof fn the_address_stands_behind_its_options(config: DownloadConfig)
    ensures
        ({
            let args = input_args(config);
            let headers = pairs_of(config.headers@);
            let playlist = contains(config.url@, ".m3u8"@);
            &&& args[0] == "-y"@
            &&& closes_with(args, seq!["-i"@, config.url@])
            &&& headers.len() > 0 ==> args[1] == "-headers"@ && args[2] == header_lines(headers)
                && args[3] == "-rw_timeout"@ && args[4] == "20000000"@
            &&& headers.len() == 0 ==> args[1] == "-rw_timeout"@ && args[2] == "20000000"@
            &&& playlist ==> closes_with(
                args,
                seq!["-max_reload"@, "1000"@, "-i"@, config.url@],
            )
            &&& !playlist ==> closes_with(
                args,
                seq!["-rw_timeout"@, "20000000"@, "-i"@, config.url@],
            )
            &&& args.len() == 5 + (if headers.len() > 0 {
                2int
            } else {
                0int
            }) + (if playlist {
                2int
            } else {
                0int
            })
        }),
{
    let args = input_args(config);
    let url = config.url@;
    assert(args.skip(args.len() - 2) =~= seq!["-i"@, url]);
    if contains(url, ".m3u8"@) {
        assert(args.skip(args.len() - 4) =~= seq!["-max_reload"@, "1000"@, "-i"@, url]);
    } else {
        assert(args.skip(args.len() - 4) =~= seq!["-rw_timeout"@, "20000000"@, "-i"@, url]);
    }
}

// ---------------------------------------------------------------------------
// The whole line
// ---------------------------------------------------------------------------

/// A flag and its value, where there is one.
pub open spec fn pair(flag: Seq<char>, value: Option<Seq<char>>) -> Args {
    match value {
        Some(text) => seq![flag, text],
        None => Seq::empty(),
    }
}

/// A process that writes one file tells its progress four times a second on its output, keeps
/// silent but for warnings where anomalies are looked for, and gets the limits of the file, its
/// length before its size, right behind the address.
pub proof fn limits_stand_behind_the_address(config: DownloadConfig, extra: Args)
    ensures
        ({
            let args = external_args(config, extra);
            let input = input_args(config);
            let length = match config.segment_duration {
                Some(text) => Some(text@),
                None => None,
            };
            let size = match config.file_size {
                Some(n) => Some(decimal(n as nat)),
                None => None,
            };
            opens_with(
                args,
                seq![
                    "-loglevel"@,
                    if config.timestamp_anomaly_threshold_ms == 0 {
                        "quiet"@
                    } else {
                        "warning"@
                    },
                    "-progress"@,
                    "pipe:1"@,
                    "-stats_period"@,
                    "0.25"@,
                    "-nostats"@,
                ] + input + pair("-to"@, length) + pair("-fs"@, size) + seq!["-c"@, "copy"@],
            )
        }),
{
    let args = external_args(config, extra);
    let head = seq![
        "-loglevel"@,
        if config.timestamp_anomaly_threshold_ms == 0 {
            "quiet"@
        } else {
            "warning"@
        },
        "-progress"@,
        "pipe:1"@,
        "-stats_period"@,
        "0.25"@,
        "-nostats"@,
    ] + input_args(config) + pair(
        "-to"@,
        match config.segment_duration {
            Some(text) => Some(text@),
            None => None,
        },
    ) + pair(
        "-fs"@,
        match config.file_size {
            Some(n) => Some(decimal(n as nat)),
            None => None,
        },
    ) + seq!["-c"@, "copy"@];
    assert(args.take(head.len() as int) =~= head);
}

/// A process that cuts for itself writes segments of the container that the suffix names, lists
/// each on its output, names them by the time, and cuts by the length that is asked for. What is
/// left of the recording window bounds the whole.
pub proof fn segments_are_cut_by_length(config: DownloadConfig, extra: Args)
    ensures
        ({
            let args = internal_args(config, extra);
            let seconds = match config.segment_seconds {
                Some(n) => Some(decimal(n as nat)),
                None => None,
            };
            let window = match config.time_range_remaining {
                Some(text) => Some(text@),
                None => None,
            };
            let layout = if lower(config.suffix@) == lower("mp4"@) {
                Some(
                    if config.timestamp_anomaly_threshold_ms > 0 {
                        "+frag_keyframe+empty_moov+default_base_moof"@
                    } else {
                        "+faststart"@
                    },
                )
            } else {
                None
            };
            args == seq!["-loglevel"@, "info"@] + input_args(config) + seq![
                "-f"@,
                "segment"@,
                "-segment_format"@,
                config.suffix@,
                "-segment_list"@,
                "pipe:1"@,
                "-map"@,
                "0"@,
                "-segment_list_type"@,
                "flat"@,
                "-reset_timestamps"@,
                "1"@,
                "-strftime"@,
                "1"@,
            ] + pair("-segment_time"@, seconds) + pair("-movflags"@, layout) + pair("-t"@, window)
                + seq!["-c"@, "copy"@] + extra
        }),
{
    suffixes_differ();
    let args = internal_args(config, extra);
    assert(container_args("segment"@, config.timestamp_anomaly_threshold_ms).len() == 0);
    let tail = output_args("segment"@, config.timestamp_anomaly_threshold_ms, extra);
    assert(tail =~= seq!["-c"@, "copy"@] + extra);
    let seconds = match config.segment_seconds {
        Some(n) => Some(decimal(n as nat)),
        None => None,
    };
    let window = match config.time_range_remaining {
        Some(text) => Some(text@),
        None => None,
    };
    let layout = if lower(config.suffix@) == lower("mp4"@) {
        Some(
            if config.timestamp_anomaly_threshold_ms > 0 {
                "+frag_keyframe+empty_moov+default_base_moof"@
            } else {
                "+faststart"@
            },
        )
    } else {
        None
    };
    let front = seq!["-loglevel"@, "info"@] + input_args(config) + seq![
        "-f"@,
        "segment"@,
        "-segment_format"@,
        config.suffix@,
        "-segment_list"@,
        "pipe:1"@,
        "-map"@,
        "0"@,
        "-segment_list_type"@,
        "flat"@,
        "-reset_timestamps"@,
        "1"@,
        "-strftime"@,
        "1"@,
    ] + pair("-segment_time"@, seconds) + pair("-movflags"@, layout) + pair("-t"@, window);
    assert(args =~= front + tail);
    assert(front + tail =~= front + seq!["-c"@, "copy"@] + extra);
}

} // verus!
