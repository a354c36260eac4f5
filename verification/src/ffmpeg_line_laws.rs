//! What holds of every line that FFmpeg writes, and of what is done about it.

use crate::ffmpeg::{after_message, after_process, after_progress, came_out, complains, is_fate, opened_path, still_running, DownloadStatus, ExternalSegment, FileAction, PartFate, TimestampAnomalyDetector};
use crate::ffmpeg_internal::{after_line, after_listing, after_opening, listed, told_as, with_path, without_first, without_path, FilesState};
use crate::path::{plain, without_part};
use crate::text::{ends_with, find, find_is_first, lower, occurs_at, rfind, rfind_is_last, signed_decimal, starts_with, trimmed};
use crate::text_laws::the_first_place_is_found;
use crate::time::Duration;
use vstd::prelude::*;

verus! {

// ---------------------------------------------------------------------------
// Complaints
// ---------------------------------------------------------------------------

/// A line complains of decreasing times where it holds one of the three phrases, in whatever
/// letters and whatever stands around it.
pub proof fn complaints_are_told_by_their_phrase(front: Seq<char>, phrase: Seq<char>, rest: Seq<char>)
    requires
        lower(phrase) == "non-monotonic dts"@ || lower(phrase) == "non-monotonous dts"@ || lower(
            phrase,
        ) == "non monotonically increasing dts"@,
    ensures
        complains(front + phrase + rest),
{
    let line = front + phrase + rest;
    let small = lower(line);
    let n = front.len() as int;
    assert(lower(phrase).len() == phrase.len());
    assert(small.subrange(n, n + phrase.len()) =~= lower(phrase)) by {
        assert forall|i: int| 0 <= i < phrase.len() implies small[n + i] == lower(phrase)[i] by {
            assert(line[n + i] == phrase[i]);
        }
    }
    the_first_place_is_found(small, lower(phrase), n);
}

/// No other line complains.
pub proof fn other_lines_do_not_complain(line: Seq<char>)
    requires
        forall|i: int| !#[trigger] occurs_at(lower(line), "non-monotonic dts"@, i),
        forall|i: int| !#[trigger] occurs_at(lower(line), "non-monotonous dts"@, i),
        forall|i: int| !#[trigger] occurs_at(lower(line), "non monotonically increasing dts"@, i),
    ensures
        !complains(line),
{
    find_is_first(lower(line), "non-monotonic dts"@, 0);
    find_is_first(lower(line), "non-monotonous dts"@, 0);
    find_is_first(lower(line), "non monotonically increasing dts"@, 0);
}

/// A detector that is on reports the first complaint, and another one five seconds after the last
/// report or later, not before. It reports nothing else, and nothing at all where it is off.
pub proof fn complaints_are_reported_every_five_seconds(
    detector: TimestampAnomalyDetector,
    line: Seq<char>,
    now: Duration,
)
    ensures
        !detector.enabled || !complains(line) ==> !detector.reports(line, now) && detector.after(
            line,
            now,
        ) == detector,
        detector.enabled && complains(line) && detector.last_trigger is None ==> detector.reports(
            line,
            now,
        ),
        detector.enabled && complains(line) ==> (detector.last_trigger matches Some(last)
            ==> detector.reports(line, now) == (now@ >= last@ + 5_000_000_000)),
        detector.reports(line, now) ==> detector.after(line, now).last_trigger == Some(now)
            && detector.after(line, now).enabled,
        !detector.reports(line, now) ==> detector.after(line, now) == detector,
{
}

/// A threshold of zero turns a detector off, and any other turns it on.
pub proof fn zero_turns_detectors_off(threshold_ms: u32, line: Seq<char>, now: Duration)
    ensures
        !TimestampAnomalyDetector::watching(0).reports(line, now),
        threshold_ms > 0 ==> TimestampAnomalyDetector::watching(threshold_ms).reports(line, now)
            == complains(line),
{
}

// ---------------------------------------------------------------------------
// Openings
// ---------------------------------------------------------------------------

/// A line that says, in whatever letters, that an unfinished file is opened for writing names that
/// file, marks in its name included.
pub proof fn openings_name_their_file(
    front: Seq<char>,
    opening: Seq<char>,
    path: Seq<char>,
    closing: Seq<char>,
    rest: Seq<char>,
)
    requires
        lower(opening) == "opening '"@,
        lower(closing) == "' for writing"@,
        ends_with(path, ".part"@),
        forall|i: int| 0 <= i < front.len() ==> !#[trigger] occurs_at(
            lower(front + opening + path + closing + rest),
            "opening '"@,
            i,
        ),
        forall|i: int|
            i > front.len() + opening.len() + path.len() ==> !#[trigger] occurs_at(
                lower(front + opening + path + closing + rest),
                "' for writing"@,
                i,
            ),
    ensures
        opened_path(front + opening + path + closing + rest) == Some(path),
{
    reveal_strlit("opening '");
    reveal_strlit("' for writing");
    reveal_strlit(".part");
    let line = front + opening + path + closing + rest;
    let small = lower(line);
    let start = front.len() as int;
    let begin = start + opening.len();
    let end = begin + path.len();
    assert(lower(opening).len() == opening.len());
    assert(lower(closing).len() == closing.len());
    assert(small.subrange(end, end + closing.len()) =~= lower(closing)) by {
        assert forall|i: int| 0 <= i < closing.len() implies small[end + i] == lower(
            closing,
        )[i] by {
            assert(line[end + i] == closing[i]);
        }
    }
    assert(occurs_at(small, "' for writing"@, end));
    rfind_is_last(small, "' for writing"@, small.len() as int);
    assert(rfind(small, "' for writing"@, small.len() as int) == Some(end));
    let head = small.take(end);
    assert(head.subrange(start, start + opening.len()) =~= lower(opening)) by {
        assert forall|i: int| 0 <= i < opening.len() implies head[start + i] == lower(
            opening,
        )[i] by {
            assert(line[start + i] == opening[i]);
        }
    }
    assert(occurs_at(head, "opening '"@, start));
    find_is_first(head, "opening '"@, 0);
    let k = find(head, "opening '"@, 0)->0;
    if k < start {
        assert(head.subrange(k, k + "opening '"@.len()) =~= small.subrange(
            k,
            k + "opening '"@.len(),
        ));
        assert(occurs_at(small, "opening '"@, k));
    }
    assert(k == start);
    assert(line.subrange(begin, end) =~= path);
    assert(path.len() > 0);
}

/// Only unfinished files are told, and only between the two marks.
pub proof fn openings_end_in_the_mark(line: Seq<char>)
    ensures
        opened_path(line) matches Some(path) ==> path.len() > 0 && ends_with(path, ".part"@)
            && exists|i: int|
            #![trigger line.subrange(i, i + path.len())]
            0 <= i && i + path.len() <= line.len() && line.subrange(i, i + path.len()) == path
                && occurs_at(lower(line), "' for writing"@, i + path.len()) && occurs_at(
                lower(line),
                "opening '"@,
                i - "opening '"@.len(),
            ),
        (forall|i: int| !#[trigger] occurs_at(lower(line), "' for writing"@, i)) ==> opened_path(
            line,
        ) is None,
{
    let small = lower(line);
    rfind_is_last(small, "' for writing"@, small.len() as int);
    if let Some(path) = opened_path(line) {
        let end = rfind(small, "' for writing"@, small.len() as int)->0;
        let head = small.take(end);
        find_is_first(head, "opening '"@, 0);
        let mark = find(head, "opening '"@, 0)->0;
        let i = mark + "opening '"@.len();
        assert(head.subrange(mark, i) =~= small.subrange(mark, i));
        assert(line.subrange(i, i + path.len()) =~= path);
    }
}

// ---------------------------------------------------------------------------
// One process per file
// ---------------------------------------------------------------------------

/// The first line that tells progress starts the file, where nothing has started it; no other
/// line of that output does anything.
pub proof fn progress_starts_the_file(s: ExternalSegment, rest: Seq<char>, line: Seq<char>)
    ensures
        !s.progress_started ==> after_progress(s, "progress="@ + rest).state.started,
        !s.progress_started && !s.started ==> after_progress(s, "progress="@ + rest).actions
            == seq![FileAction::Start(s.output@)],
        s.started || s.progress_started ==> after_progress(s, line).actions.len() == 0,
        !starts_with(line, "progress="@) ==> after_progress(s, line).actions.len() == 0
            && after_progress(s, line).state == s,
{
    let line = "progress="@ + rest;
    assert(line.subrange(0, "progress="@.len() as int) =~= "progress="@);
}

/// A complaint that is reported starts the file where nothing has, ends it where nothing has, and
/// stops the process; no other line of the log does anything.
pub proof fn complaints_stop_the_process(s: ExternalSegment, line: Seq<char>, now: Duration)
    ensures
        ({
            let run = after_message(s, line, now);
            let start = if s.started {
                Seq::empty()
            } else {
                seq![FileAction::Start(s.output@)]
            };
            let end = if s.ended {
                Seq::empty()
            } else {
                seq![FileAction::End(s.output@)]
            };
            &&& s.detector.reports(line, now) ==> run.actions == start + end + seq![
                FileAction::Stop,
            ]
            &&& s.detector.reports(line, now) ==> run.state.anomaly && run.state.started
                && run.state.ended
            &&& !s.detector.reports(line, now) ==> run.actions.len() == 0 && run.state == s
        }),
{
}

/// What a process leaves gets its final name, after its start and its end have been told; an empty
/// file goes; where there is no file nothing is done.
pub proof fn what_is_left_is_finalized(s: ExternalSegment, length: u64)
    ensures
        ({
            let part = s.output@ + ".part"@;
            let start = if s.started {
                Seq::empty()
            } else {
                seq![FileAction::Start(s.output@)]
            };
            let end = if s.ended {
                Seq::empty()
            } else {
                seq![FileAction::End(s.output@)]
            };
            &&& length > 0 ==> after_process(s, Some(length)).actions == start + end + seq![
                FileAction::Finalize(part),
            ]
            &&& after_process(s, Some(0)).actions == seq![FileAction::Remove(part)]
            &&& after_process(s, None).actions.len() == 0
        }),
{
}

/// A recording that was cut on purpose, or whose process ended well, is complete; an exit code of
/// 255 means that the stream is over; any other is a failure that the error names.
pub proof fn exit_codes_tell_how_it_came_out(status: DownloadStatus, code: i32, cut: bool)
    ensures
        came_out(status, true, Some(code)) ==> status is SegmentCompleted,
        came_out(status, true, None) ==> status is SegmentCompleted,
        came_out(status, cut, Some(0)) ==> status is SegmentCompleted,
        came_out(status, false, Some(255)) ==> status is StreamEnded,
        came_out(status, false, Some(code)) && code != 0 && code != 255 ==> (
        status matches DownloadStatus::Error(text) && text@ == "FFmpeg error: "@ + ("Some("@
            + signed_decimal(code as int) + ")"@)),
        came_out(status, false, None) ==> (status matches DownloadStatus::Error(text) && text@
            == "FFmpeg error: "@ + "None"@),
{
}

// ---------------------------------------------------------------------------
// One process that cuts for itself
// ---------------------------------------------------------------------------

/// A file that is seen to open for the first time starts, after the one before it has ended.
pub proof fn openings_end_the_file_before(state: FilesState, part: Seq<char>, before: Seq<char>)
    requires
        state.active == Some(before),
        plain(before) != plain(without_part(part)),
        !listed(state.started, without_part(part)),
        !listed(state.listed, part),
    ensures
        after_opening(state, part).actions == (if listed(state.ended, before) {
            Seq::empty()
        } else {
            seq![FileAction::End(before)]
        }) + seq![FileAction::Start(without_part(part))],
        after_opening(state, part).state.active == Some(without_part(part)),
{
    let run = after_opening(state, part);
    assert(run.actions =~= (if listed(state.ended, before) {
        Seq::empty()
    } else {
        seq![FileAction::End(before)]
    }) + seq![FileAction::Start(without_part(part))]);
}

/// The first file starts alone; the file that is open already is passed over.
pub proof fn first_openings_start(state: FilesState, part: Seq<char>)
    ensures
        state.active is None && !listed(state.started, without_part(part)) && !listed(
            state.listed,
            part,
        ) ==> after_opening(state, part).actions == seq![FileAction::Start(without_part(part))],
        state.active == Some(without_part(part)) ==> after_opening(state, part).actions.len() == 0,
{
    let run = after_opening(state, part);
    if state.active is None && !listed(state.started, without_part(part)) && !listed(
        state.listed,
        part,
    ) {
        assert(run.actions =~= seq![FileAction::Start(without_part(part))]);
    }
}

/// A file that has started and is listed as complete ends, where its end has not been told, and
/// gets its final name; a file that has not been seen to open is kept for then. Blanks around the
/// name and empty lines do not count.
pub proof fn listings_finalize(state: FilesState, line: Seq<char>)
    ensures
        ({
            let part = trimmed(line);
            let path = without_part(part);
            let run = after_listing(state, line);
            &&& part.len() == 0 ==> run.actions.len() == 0 && run.state == state
            &&& part.len() > 0 && listed(state.started, path) ==> run.actions == (if listed(
                state.ended,
                path,
            ) {
                Seq::empty()
            } else {
                seq![FileAction::End(path)]
            }) + seq![FileAction::Finalize(part)]
            &&& part.len() > 0 && !listed(state.started, path) ==> run.actions.len() == 0 && listed(
                run.state.listed,
                part,
            )
            &&& part.len() > 0 && listed(state.started, path) && state.active == Some(path)
                ==> run.state.active is None
            &&& part.len() > 0 && listed(state.started, path) && (state.active matches Some(now)
                && plain(now) != plain(path)) ==> run.state.active == state.active
            &&& part.len() > 0 && listed(state.started, path) ==> run.state.pending == without_path(
                state.pending,
                part,
            )
        }),
{
    let part = trimmed(line);
    let path = without_part(part);
    let run = after_listing(state, line);
    if part.len() > 0 {
        if listed(state.started, path) {
            assert(run.actions =~= (if listed(state.ended, path) {
                Seq::empty()
            } else {
                seq![FileAction::End(path)]
            }) + seq![FileAction::Finalize(part)]);
        } else if !listed(state.listed, part) {
            let more = state.listed.push(part);
            assert(plain(more[state.listed.len() as int]) == plain(part));
        }
    }
}

/// A file that was listed before it was seen to open starts, ends and gets its final name as soon
/// as it opens.
pub proof fn late_openings_finalize(state: FilesState, part: Seq<char>)
    requires
        state.active is None,
        listed(state.listed, part),
        !listed(state.started, without_part(part)),
        !listed(state.ended, without_part(part)),
    ensures
        after_opening(state, part).actions == seq![
            FileAction::Start(without_part(part)),
            FileAction::End(without_part(part)),
            FileAction::Finalize(part),
        ],
        after_opening(state, part).state.active is None,
{
    let path = without_part(part);
    let more = state.started.push(path);
    assert(plain(more[state.started.len() as int]) == plain(path));
    assert(after_opening(state, part).actions =~= seq![
        FileAction::Start(path),
        FileAction::End(path),
        FileAction::Finalize(part),
    ]);
}

/// A complaint that is reported ends the file that is open and stops the process.
pub proof fn complaints_end_the_open_file(
    state: FilesState,
    line: Seq<char>,
    now: Duration,
    active: Seq<char>,
)
    requires
        opened_path(line) is None,
        state.active == Some(active),
    ensures
        state.detector.reports(line, now) ==> after_line(state, line, now).actions == (if listed(
            state.ended,
            active,
        ) {
            Seq::empty()
        } else {
            seq![FileAction::End(active)]
        }) + seq![FileAction::Stop] && after_line(state, line, now).state.anomaly,
        !state.detector.reports(line, now) ==> after_line(state, line, now).actions.len() == 0
            && after_line(state, line, now).state == state,
{
    if state.detector.reports(line, now) {
        assert(after_line(state, line, now).actions =~= (if listed(state.ended, active) {
            Seq::empty()
        } else {
            seq![FileAction::End(active)]
        }) + seq![FileAction::Stop]);
    }
}

/// A line on a file that has its final name does nothing.
pub proof fn late_words_are_passed_over(
    state: FilesState,
    line: Seq<char>,
    now: Duration,
    part: Seq<char>,
)
    requires
        opened_path(line) == Some(part),
        listed(state.finalized, without_part(part)),
    ensures
        after_line(state, line, now).actions.len() == 0,
        after_line(state, line, now).state == state,
{
}

/// Paths are listed by what they say, each once; leaving one out leaves out that one alone.
pub proof fn lists_go_by_what_paths_say(
    paths: Seq<Seq<char>>,
    path: Seq<char>,
    other: Seq<char>,
)
    ensures
        listed(paths, path) == exists|i: int|
            0 <= i < paths.len() && plain(#[trigger] paths[i]) == plain(path),
        listed(with_path(paths, path), path),
        listed(paths, path) ==> with_path(paths, path) == paths,
        !listed(paths, path) ==> with_path(paths, path) == paths.push(path),
{
    if !listed(paths, path) {
        assert(plain(paths.push(path)[paths.len() as int]) == plain(path));
    }
}

/// The first path of a list that says the same is left out, and no other.
pub proof fn the_first_is_left_out(paths: Seq<Seq<char>>, path: Seq<char>, i: int)
    requires
        0 <= i < paths.len(),
        plain(paths[i]) == plain(path),
        forall|k: int| 0 <= k < i ==> plain(#[trigger] paths[k]) != plain(path),
    ensures
        without_first(paths, path) == paths.take(i) + paths.skip(i + 1),
    decreases i,
{
    if i == 0 {
        assert(paths.take(0) + paths.skip(1) =~= paths.skip(1));
    } else {
        let rest = paths.skip(1);
        assert forall|k: int| 0 <= k < i - 1 implies plain(#[trigger] rest[k]) != plain(path) by {
            assert(rest[k] == paths[k + 1]);
        }
        the_first_is_left_out(rest, path, i - 1);
        assert(plain(paths[0]) != plain(path));
        assert(paths.take(i) + paths.skip(i + 1) =~= seq![paths[0]] + (rest.take(i - 1)
            + rest.skip(i)));
    }
}

/// Every path that says the same is left out, and the others stay in their order.
pub proof fn all_are_left_out(paths: Seq<Seq<char>>, path: Seq<char>, last: Seq<char>)
    ensures
        without_path(Seq::empty(), path).len() == 0,
        without_path(paths.push(last), path) == if plain(last) == plain(path) {
            without_path(paths, path)
        } else {
            without_path(paths, path).push(last)
        },
{
    assert(paths.push(last).drop_last() =~= paths);
}

// ---------------------------------------------------------------------------
// What becomes of processes and files
// ---------------------------------------------------------------------------

/// Only a process that is held and has not been waited for is killed, and only where it is the one
/// that was interrupted, or none was named.
pub proof fn only_the_interrupted_process_is_killed(wanted: u32, pid: u32)
    ensures
        still_running(Some(wanted), Some(Some(pid))) == (pid == wanted),
        still_running(None, Some(Some(pid))),
        !still_running(Some(wanted), Some(None)),
        !still_running(None, Some(None)),
        !still_running(Some(wanted), None),
        !still_running(None, None),
{
}

/// An unfinished file with bytes in it gets the name without its mark; an empty one goes; one that
/// is not there has its final name already, or there is nothing to keep.
pub proof fn unfinished_files_get_their_names(
    fate: PartFate,
    path: Seq<char>,
    exists_now: bool,
    final_exists: bool,
    length: u64,
)
    ensures
        is_fate(fate, path, true, final_exists, Some(0)) ==> fate is Remove,
        is_fate(fate, path, true, final_exists, None) ==> fate is Nothing,
        is_fate(fate, path, false, false, Some(length)) ==> fate is Nothing,
        is_fate(fate, path, false, false, None) ==> fate is Nothing,
        is_fate(fate, path, false, true, Some(length)) ==> (fate matches PartFate::Done(text)
            && text@ == without_part(path)),
        is_fate(fate, path, false, true, None) ==> (fate matches PartFate::Done(text) && text@
            == without_part(path)),
        length > 0 && is_fate(fate, path, true, final_exists, Some(length)) && plain(path) != plain(
            without_part(path),
        ) ==> (fate matches PartFate::Rename(text) && text@ == without_part(path)),
        length > 0 && is_fate(fate, path, true, final_exists, Some(length)) && plain(path) == plain(
            without_part(path),
        ) ==> (fate matches PartFate::Done(text) && text@ == without_part(path)),
{
}

/// Files are numbered from zero in the order in which they are told, and each is told once.
pub proof fn files_are_numbered_in_turn(
    finalized: Seq<Seq<char>>,
    path: Seq<char>,
    next: Seq<char>,
    number: int,
)
    requires
        told_as(finalized, path) == Some(number),
        plain(next) != plain(path),
        !listed(finalized, next),
    ensures
        told_as(Seq::empty(), path) == Some(0int),
        told_as(with_path(finalized, path), path) is None,
        told_as(with_path(finalized, path), next) == Some(number + 1),
{
    let more = finalized.push(path);
    assert(plain(more[finalized.len() as int]) == plain(path));
    assert forall|i: int| 0 <= i < more.len() implies plain(#[trigger] more[i]) != plain(next) by {
        if i < finalized.len() {
            assert(more[i] == finalized[i]);
        }
    }
    assert(!listed(Seq::<Seq<char>>::empty(), path));
}

} // verus!
