//! A whole recording by one process: what is told of its files, and how it comes out.

use crate::ffmpeg::{after_message, after_process, after_progress, came_out, complains, end_once, opened_path, start_once, DownloadStatus, ExternalRun, ExternalSegment, FileAction, TimestampAnomalyDetector};
use crate::ffmpeg_internal::{after_exit, after_line, after_listing, after_opening, all_completed, begun, completed, fresh_files, listed, with_active_end, with_path, without_first, without_path, FilesRun, FilesState};
use crate::ffmpeg_laws::{all_completed_keeps, all_ended, closing_ends_every_file, consistent, each_listed, exit_completes_every_file, finalizes, fresh_files_are_consistent, in_order, listed_push, listing_is_in_order, log_is_in_order, told, without_path_keeps};
use crate::path::{plain, without_part};
use crate::text::trimmed;
use crate::time::Duration;
use vstd::prelude::*;

verus! {

/// A line of one of the two pipes.
pub enum Line {
    /// Of the list of complete files.
    List(Seq<char>),
    /// Of the log, with the time at which it came.
    Log(Seq<char>, Duration),
}

/// What is told of a file.
pub enum Event {
    Start(Seq<char>),
    End(Seq<char>),
    /// It has got its final name, as the file of this number.
    Segment(Seq<char>, int),
}

/// A recording so far.
#[verifier::ext_equal]
pub struct Recording {
    pub state: FilesState,
    pub events: Seq<Event>,
}

/// What has happened once `actions` have been performed. `kept` says of each whether its file
/// could be given its final name.
pub open spec fn performed(
    recording: Recording,
    actions: Seq<FileAction<Seq<char>>>,
    kept: Seq<bool>,
) -> Recording
    decreases actions.len(),
{
    if actions.len() == 0 {
        recording
    } else {
        let before = performed(recording, actions.drop_last(), kept);
        match actions.last() {
            FileAction::Start(path) => Recording {
                events: before.events.push(Event::Start(path)),
                ..before
            },
            FileAction::End(path) => Recording {
                events: before.events.push(Event::End(path)),
                ..before
            },
            FileAction::Finalize(part) => {
                let path = without_part(part);
                if kept[actions.len() - 1] && !listed(before.state.finalized, path) {
                    Recording {
                        state: FilesState {
                            finalized: before.state.finalized.push(path),
                            ..before.state
                        },
                        events: before.events.push(
                            Event::Segment(path, before.state.finalized.len() as int),
                        ),
                    }
                } else {
                    before
                }
            },
            FileAction::Remove(_) => before,
            FileAction::Stop => before,
        }
    }
}

/// The files after a step, with its actions performed.
pub open spec fn carried_on(recording: Recording, run: FilesRun, kept: Seq<bool>) -> Recording {
    performed(Recording { state: run.state, ..recording }, run.actions, kept)
}

/// What a line asks for.
pub open spec fn after_input(state: FilesState, line: Line) -> FilesRun {
    match line {
        Line::List(text) => after_listing(state, text),
        Line::Log(text, now) => after_line(state, text, now),
    }
}

/// The recording after `lines`, in the order in which they were read from either pipe.
pub open spec fn after_lines(
    detector: TimestampAnomalyDetector,
    lines: Seq<(Line, Seq<bool>)>,
) -> Recording
    decreases lines.len(),
{
    if lines.len() == 0 {
        Recording { state: fresh_files(detector), events: Seq::empty() }
    } else {
        let before = after_lines(detector, lines.drop_last());
        let (line, kept) = lines.last();
        carried_on(before, after_input(before.state, line), kept)
    }
}

/// The whole recording: the lines, the close of both pipes and the end of the process.
pub open spec fn recorded(
    detector: TimestampAnomalyDetector,
    lines: Seq<(Line, Seq<bool>)>,
    kept: Seq<bool>,
) -> Recording {
    let read = after_lines(detector, lines);
    let closed = carried_on(read, with_active_end(begun(read.state)), seq![]);
    carried_on(closed, after_exit(closed.state), kept)
}

// ---------------------------------------------------------------------------
// Order
// ---------------------------------------------------------------------------

/// The files that have started.
pub open spec fn starts(events: Seq<Event>) -> Seq<Seq<char>>
    decreases events.len(),
{
    if events.len() == 0 {
        Seq::empty()
    } else {
        let before = starts(events.drop_last());
        match events.last() {
            Event::Start(path) => before.push(path),
            _ => before,
        }
    }
}

/// The files that have ended.
pub open spec fn ends(events: Seq<Event>) -> Seq<Seq<char>>
    decreases events.len(),
{
    if events.len() == 0 {
        Seq::empty()
    } else {
        let before = ends(events.drop_last());
        match events.last() {
            Event::End(path) => before.push(path),
            _ => before,
        }
    }
}

/// The files that have got their final names.
pub open spec fn segments(events: Seq<Event>) -> Seq<Seq<char>>
    decreases events.len(),
{
    if events.len() == 0 {
        Seq::empty()
    } else {
        let before = segments(events.drop_last());
        match events.last() {
            Event::Segment(path, _) => before.push(path),
            _ => before,
        }
    }
}

/// Events in order. A file starts once, when all files before it have ended. It ends once, after
/// its start. It gets its final name once, after its end, and is numbered by the files that got
/// theirs before it.
pub open spec fn orderly(events: Seq<Event>) -> bool
    decreases events.len(),
{
    events.len() > 0 ==> {
        let before = events.drop_last();
        &&& orderly(before)
        &&& match events.last() {
            Event::Start(path) => !listed(starts(before), path) && each_listed(
                starts(before),
                ends(before),
            ),
            Event::End(path) => listed(starts(before), path) && !listed(ends(before), path),
            Event::Segment(path, number) => {
                &&& listed(ends(before), path)
                &&& !listed(segments(before), path)
                &&& number == segments(before).len()
            },
        }
    }
}

/// The events are in order and are what the files' state accounts for.
pub open spec fn accounted(recording: Recording) -> bool {
    &&& orderly(recording.events)
    &&& starts(recording.events) == recording.state.started
    &&& ends(recording.events) == recording.state.ended
    &&& segments(recording.events) == recording.state.finalized
}

/// Performing actions in order leaves the events in order.
proof fn performed_in_order(
    recording: Recording,
    actions: Seq<FileAction<Seq<char>>>,
    kept: Seq<bool>,
)
    requires
        orderly(recording.events),
        segments(recording.events) == recording.state.finalized,
        told(starts(recording.events), ends(recording.events), actions) is Some,
    ensures
        ({
            let after = performed(recording, actions, kept);
            &&& orderly(after.events)
            &&& told(starts(recording.events), ends(recording.events), actions) == Some(
                (starts(after.events), ends(after.events)),
            )
            &&& segments(after.events) == after.state.finalized
            &&& after.state == (FilesState { finalized: after.state.finalized, ..recording.state })
        }),
    decreases actions.len(),
{
    if actions.len() > 0 {
        performed_in_order(recording, actions.drop_last(), kept);
        let before = performed(recording, actions.drop_last(), kept);
        let after = performed(recording, actions, kept);
        if after.events.len() > before.events.len() {
            assert(after.events.drop_last() =~= before.events);
        }
    }
}

/// A step in order leaves the recording accounted for.
proof fn step_accounted(recording: Recording, run: FilesRun, kept: Seq<bool>)
    requires
        accounted(recording),
        in_order(recording.state, run),
        run.state.finalized == recording.state.finalized,
        consistent(run.state),
    ensures
        accounted(carried_on(recording, run, kept)),
        consistent(carried_on(recording, run, kept).state),
        carried_on(recording, run, kept).state == (FilesState {
            finalized: carried_on(recording, run, kept).state.finalized,
            ..run.state
        }),
{
    performed_in_order(Recording { state: run.state, ..recording }, run.actions, kept);
}

/// A line leaves the final names as they are.
proof fn input_keeps_names(state: FilesState, line: Line)
    ensures
        after_input(state, line).state.finalized == state.finalized,
{
}

proof fn completing_keeps(run: FilesRun, parts: Seq<Seq<char>>, i: int, settled: bool)
    ensures
        all_completed(run, parts, i, settled).state.finalized == run.state.finalized,
        all_completed(run, parts, i, settled).state.anomaly == run.state.anomaly,
    decreases parts.len() - i,
{
    if 0 <= i < parts.len() {
        let done = completed(run, parts[i]);
        let next = if settled {
            FilesRun {
                state: FilesState {
                    pending: without_path(done.state.pending, parts[i]),
                    ..done.state
                },
                ..done
            }
        } else {
            done
        };
        completing_keeps(next, parts, i + 1, settled);
    }
}

proof fn exit_keeps(state: FilesState)
    ensures
        after_exit(state).state.finalized == state.finalized,
        after_exit(state).state.anomaly == state.anomaly,
{
    let start = begun(FilesState { listed: Seq::empty(), ..state });
    completing_keeps(start, state.listed, 0, true);
    let first = all_completed(start, state.listed, 0, true);
    completing_keeps(
        FilesRun { state: FilesState { pending: Seq::empty(), ..first.state }, ..first },
        first.state.pending,
        0,
        false,
    );
}

/// Whatever lines have come, in whatever order the pipes were read, the events so far are in
/// order.
pub proof fn events_so_far_are_in_order(
    detector: TimestampAnomalyDetector,
    lines: Seq<(Line, Seq<bool>)>,
)
    ensures
        accounted(after_lines(detector, lines)),
        consistent(after_lines(detector, lines).state),
    decreases lines.len(),
{
    if lines.len() == 0 {
        fresh_files_are_consistent(detector);
    } else {
        events_so_far_are_in_order(detector, lines.drop_last());
        let before = after_lines(detector, lines.drop_last());
        let (line, kept) = lines.last();
        match line {
            Line::List(text) => listing_is_in_order(before.state, text),
            Line::Log(text, now) => log_is_in_order(before.state, text, now),
        }
        input_keeps_names(before.state, line);
        step_accounted(before, after_input(before.state, line), kept);
    }
}

/// The events of a whole recording are in order, and every file that has started has ended.
pub proof fn events_of_a_recording_are_in_order(
    detector: TimestampAnomalyDetector,
    lines: Seq<(Line, Seq<bool>)>,
    kept: Seq<bool>,
)
    ensures
        ({
            let events = recorded(detector, lines, kept).events;
            &&& orderly(events)
            &&& each_listed(starts(events), ends(events))
        }),
{
    let read = after_lines(detector, lines);
    events_so_far_are_in_order(detector, lines);
    closing_ends_every_file(read.state);
    step_accounted(read, with_active_end(begun(read.state)), seq![]);
    let closed = carried_on(read, with_active_end(begun(read.state)), seq![]);
    assert(all_ended(closed.state));
    exit_completes_every_file(closed.state);
    exit_keeps(closed.state);
    let last = after_exit(closed.state);
    performed_in_order(Recording { state: last.state, ..closed }, last.actions, kept);
}

/// Of two events in order, no two tell the same of one file.
pub proof fn nothing_is_told_twice(events: Seq<Event>, i: int, j: int)
    requires
        orderly(events),
        0 <= i < j < events.len(),
    ensures
        match (events[i], events[j]) {
            (Event::Start(a), Event::Start(b)) => !listed(seq![a], b),
            (Event::End(a), Event::End(b)) => !listed(seq![a], b),
            (Event::Segment(a, m), Event::Segment(b, n)) => !listed(seq![a], b) && m < n,
            _ => true,
        },
    decreases events.len(),
{
    let before = events.drop_last();
    assert(before[i] == events[i]);
    if j < before.len() {
        assert(before[j] == events[j]);
        nothing_is_told_twice(before, i, j);
    } else {
        told_before(before, i);
        match (events[i], events[j]) {
            (Event::Start(a), Event::Start(b)) => {
                apart(starts(before), a, b);
            },
            (Event::End(a), Event::End(b)) => {
                apart(ends(before), a, b);
            },
            (Event::Segment(a, _), Event::Segment(b, _)) => {
                apart(segments(before), a, b);
            },
            _ => {},
        }
    }
}

/// What an event tells is among what has been told.
proof fn told_before(events: Seq<Event>, i: int)
    requires
        orderly(events),
        0 <= i < events.len(),
    ensures
        match events[i] {
            Event::Start(path) => starts(events).contains(path),
            Event::End(path) => ends(events).contains(path),
            Event::Segment(path, number) => segments(events).contains(path) && number < segments(
                events,
            ).len(),
        },
    decreases events.len(),
{
    let before = events.drop_last();
    if i < before.len() {
        assert(before[i] == events[i]);
        told_before(before, i);
        match events[i] {
            Event::Start(path) => kept_among(starts(before), starts(events), path),
            Event::End(path) => kept_among(ends(before), ends(events), path),
            Event::Segment(path, _) => kept_among(segments(before), segments(events), path),
        }
    } else {
        match events[i] {
            Event::Start(path) => {
                assert(starts(events)[starts(before).len() as int] == path);
            },
            Event::End(path) => {
                assert(ends(events)[ends(before).len() as int] == path);
            },
            Event::Segment(path, _) => {
                assert(segments(events)[segments(before).len() as int] == path);
            },
        }
    }
}

proof fn kept_among(paths: Seq<Seq<char>>, more: Seq<Seq<char>>, path: Seq<char>)
    requires
        paths.contains(path),
        more == paths || more == paths.push(more.last()),
    ensures
        more.contains(path),
{
    let i = paths.index_of(path);
    assert(more[i] == path);
}

/// A path that is not listed is none of those that are.
proof fn apart(paths: Seq<Seq<char>>, a: Seq<char>, b: Seq<char>)
    requires
        paths.contains(a),
        !listed(paths, b),
    ensures
        !listed(seq![a], b),
{
    let i = paths.index_of(a);
    assert(paths[i] == a);
    if listed(seq![a], b) {
        assert(listed(paths, b));
    }
}

// ---------------------------------------------------------------------------
// No file is forgotten
// ---------------------------------------------------------------------------

/// What has been asked for after `lines`.
pub open spec fn asked_by(
    detector: TimestampAnomalyDetector,
    lines: Seq<(Line, Seq<bool>)>,
) -> Seq<FileAction<Seq<char>>>
    decreases lines.len(),
{
    if lines.len() == 0 {
        Seq::empty()
    } else {
        let before = after_lines(detector, lines.drop_last());
        asked_by(detector, lines.drop_last()) + after_input(before.state, lines.last().0).actions
    }
}

/// What has been asked for in a whole recording.
pub open spec fn asked_in_all(
    detector: TimestampAnomalyDetector,
    lines: Seq<(Line, Seq<bool>)>,
) -> Seq<FileAction<Seq<char>>> {
    let read = after_lines(detector, lines);
    let closing = with_active_end(begun(read.state));
    let closed = carried_on(read, closing, seq![]);
    asked_by(detector, lines) + closing.actions + after_exit(closed.state).actions
}

/// The unfinished file of `path` has been asked to be given its final name, or is known to be
/// still without it.
pub open spec fn cared_for(
    pending: Seq<Seq<char>>,
    asked: Seq<FileAction<Seq<char>>>,
    path: Seq<char>,
) -> bool {
    exists|part: Seq<char>| #[trigger]
        without_part(part) == path && (finalizes(asked, part) || listed(pending, part))
}

/// Every file that has started is cared for.
pub open spec fn all_cared_for(state: FilesState, asked: Seq<FileAction<Seq<char>>>) -> bool {
    forall|i: int|
        0 <= i < state.started.len() ==> cared_for(
            state.pending,
            asked,
            #[trigger] state.started[i],
        )
}

/// What is asked for stays asked for.
proof fn asked_stays(
    first: Seq<FileAction<Seq<char>>>,
    second: Seq<FileAction<Seq<char>>>,
    part: Seq<char>,
)
    ensures
        finalizes(first, part) || finalizes(second, part) ==> finalizes(first + second, part),
{
    let both = first + second;
    if finalizes(first, part) {
        let i = choose|i: int|
            0 <= i < first.len() && (#[trigger] first[i] matches FileAction::Finalize(p) && plain(p)
                == plain(part));
        assert(both[i] == first[i]);
    } else if finalizes(second, part) {
        let i = choose|i: int|
            0 <= i < second.len() && (#[trigger] second[i] matches FileAction::Finalize(p) && plain(
                p,
            ) == plain(part));
        assert(both[first.len() + i] == second[i]);
    }
}

/// Leaving out the first of a path keeps the others.
proof fn without_first_keeps(paths: Seq<Seq<char>>, path: Seq<char>, other: Seq<char>)
    requires
        listed(paths, other),
        plain(path) != plain(other),
    ensures
        listed(without_first(paths, path), other),
    decreases paths.len(),
{
    let i = choose|i: int| 0 <= i < paths.len() && plain(#[trigger] paths[i]) == plain(other);
    let rest = paths.skip(1);
    let left = without_first(paths, path);
    if plain(paths[0]) == plain(path) {
        assert(left[i - 1] == paths[i]);
    } else if i == 0 {
        assert(left[0] == paths[0]);
    } else {
        assert(rest[i - 1] == paths[i]);
        without_first_keeps(rest, path, other);
        let inner = without_first(rest, path);
        let k = choose|k: int| 0 <= k < inner.len() && plain(#[trigger] inner[k]) == plain(other);
        assert(left[k + 1] == inner[k]);
    }
}

/// A step that gives up what is pending only for its final name, and starts only what it then
/// cares for, leaves every file cared for.
proof fn step_cares(
    state: FilesState,
    asked: Seq<FileAction<Seq<char>>>,
    next: FilesState,
    actions: Seq<FileAction<Seq<char>>>,
)
    requires
        all_cared_for(state, asked),
        forall|p: Seq<char>| #[trigger]
            listed(state.pending, p) ==> listed(next.pending, p) || finalizes(actions, p),
        forall|i: int|
            0 <= i < next.started.len() ==> (i < state.started.len() && next.started[i]
                == state.started[i]) || cared_for(
                next.pending,
                actions,
                #[trigger] next.started[i],
            ),
    ensures
        all_cared_for(next, asked + actions),
{
    assert forall|i: int| 0 <= i < next.started.len() implies cared_for(
        next.pending,
        asked + actions,
        #[trigger] next.started[i],
    ) by {
        let path = next.started[i];
        if i < state.started.len() && path == state.started[i] {
            assert(cared_for(state.pending, asked, state.started[i]));
            let part = choose|part: Seq<char>| #[trigger]
                without_part(part) == path && (finalizes(asked, part) || listed(
                    state.pending,
                    part,
                ));
            asked_stays(asked, actions, part);
            assert(without_part(part) == path);
        } else {
            let part = choose|part: Seq<char>| #[trigger]
                without_part(part) == path && (finalizes(actions, part) || listed(
                    next.pending,
                    part,
                ));
            asked_stays(asked, actions, part);
            assert(without_part(part) == path);
        }
    }
}

/// What a step does with the files that it knows of.
pub open spec fn keeps_hold(state: FilesState, run: FilesRun) -> bool {
    &&& forall|p: Seq<char>| #[trigger]
        listed(state.pending, p) ==> listed(run.state.pending, p) || finalizes(run.actions, p)
    &&& forall|p: Seq<char>| #[trigger]
        listed(state.listed, p) ==> listed(run.state.listed, p) || finalizes(run.actions, p)
    &&& forall|i: int|
        0 <= i < run.state.started.len() ==> (i < state.started.len() && run.state.started[i]
            == state.started[i]) || cared_for(
            run.state.pending,
            run.actions,
            #[trigger] run.state.started[i],
        )
}

proof fn last_finalizes(actions: Seq<FileAction<Seq<char>>>, part: Seq<char>, other: Seq<char>)
    requires
        actions.len() > 0,
        actions.last() == FileAction::Finalize(part),
        plain(part) == plain(other),
    ensures
        finalizes(actions, other),
{
    assert(actions[actions.len() - 1] == FileAction::Finalize(part));
}

proof fn listing_keeps_hold(state: FilesState, line: Seq<char>)
    ensures
        keeps_hold(state, after_listing(state, line)),
        trimmed(line).len() > 0 ==> finalizes(after_listing(state, line).actions, trimmed(line))
            || listed(after_listing(state, line).state.listed, trimmed(line)),
{
    let part = trimmed(line);
    let run = after_listing(state, line);
    if part.len() > 0 {
        if listed(state.started, without_part(part)) {
            last_finalizes(run.actions, part, part);
            assert forall|p: Seq<char>| #[trigger] listed(state.pending, p) implies listed(
                run.state.pending,
                p,
            ) || finalizes(run.actions, p) by {
                if plain(p) == plain(part) {
                    last_finalizes(run.actions, part, p);
                } else {
                    without_path_keeps(state.pending, part, p);
                }
            }
        } else {
            assert forall|p: Seq<char>| #[trigger] listed(state.listed, p) implies listed(
                run.state.listed,
                p,
            ) by {
                listed_push(state.listed, part, p);
            }
            listed_push(state.listed, part, part);
        }
    }
}

proof fn opening_keeps_hold(state: FilesState, part: Seq<char>)
    ensures
        keeps_hold(state, after_opening(state, part)),
{
    let path = without_part(part);
    let run = after_opening(state, part);
    if !(state.active matches Some(now) && plain(now) == plain(path)) {
        let opened = with_path(state.pending, part);
        listed_push(state.pending, part, part);
        assert(listed(opened, part));
        assert forall|p: Seq<char>| #[trigger] listed(state.pending, p) implies listed(
            run.state.pending,
            p,
        ) || finalizes(run.actions, p) by {
            listed_push(state.pending, part, p);
            assert(listed(opened, p));
            if listed(state.listed, part) {
                if plain(p) == plain(part) {
                    last_finalizes(run.actions, part, p);
                } else {
                    without_path_keeps(opened, part, p);
                }
            }
        }
        assert forall|p: Seq<char>| #[trigger] listed(state.listed, p) implies listed(
            run.state.listed,
            p,
        ) || finalizes(run.actions, p) by {
            if listed(state.listed, part) {
                if plain(p) == plain(part) {
                    last_finalizes(run.actions, part, p);
                } else {
                    without_first_keeps(state.listed, part, p);
                }
            }
        }
        assert(cared_for(run.state.pending, run.actions, path)) by {
            if listed(state.listed, part) {
                last_finalizes(run.actions, part, part);
            }
            assert(without_part(part) == path);
        }
        assert forall|i: int| 0 <= i < run.state.started.len() implies (i < state.started.len()
            && run.state.started[i] == state.started[i]) || cared_for(
            run.state.pending,
            run.actions,
            #[trigger] run.state.started[i],
        ) by {
            if i >= state.started.len() {
                assert(run.state.started[i] == path);
            }
        }
    }
}

proof fn log_keeps_hold(state: FilesState, line: Seq<char>, now: Duration)
    ensures
        keeps_hold(state, after_line(state, line, now)),
{
    let opened = match opened_path(line) {
        Some(part) => if listed(state.finalized, without_part(part)) {
            begun(state)
        } else {
            opening_keeps_hold(state, part);
            after_opening(state, part)
        },
        None => begun(state),
    };
    let run = after_line(state, line, now);
    assert(keeps_hold(state, opened));
    let more = run.actions.skip(opened.actions.len() as int);
    assert(run.actions =~= opened.actions + more);
    assert forall|p: Seq<char>| finalizes(opened.actions, p) implies #[trigger] finalizes(
        run.actions,
        p,
    ) by {
        asked_stays(opened.actions, more, p);
    }
    assert(run.state.pending == opened.state.pending);
    assert(run.state.listed == opened.state.listed);
    assert(run.state.started == opened.state.started);
    assert forall|i: int| 0 <= i < run.state.started.len() implies (i < state.started.len()
        && run.state.started[i] == state.started[i]) || cared_for(
        run.state.pending,
        run.actions,
        #[trigger] run.state.started[i],
    ) by {
        let path = opened.state.started[i];
        if !(i < state.started.len() && path == state.started[i]) {
            assert(cared_for(opened.state.pending, opened.actions, path));
            let part = choose|part: Seq<char>| #[trigger]
                without_part(part) == path && (finalizes(opened.actions, part) || listed(
                    opened.state.pending,
                    part,
                ));
            asked_stays(opened.actions, more, part);
            assert(without_part(part) == path);
        }
    }
    assert forall|p: Seq<char>| #[trigger] listed(state.pending, p) implies listed(
        run.state.pending,
        p,
    ) || finalizes(run.actions, p) by {
        asked_stays(opened.actions, more, p);
    }
    assert forall|p: Seq<char>| #[trigger] listed(state.listed, p) implies listed(
        run.state.listed,
        p,
    ) || finalizes(run.actions, p) by {
        asked_stays(opened.actions, more, p);
    }
}

/// One of the lines lists an unfinished file.
pub open spec fn lists(lines: Seq<(Line, Seq<bool>)>, part: Seq<char>) -> bool {
    exists|i: int|
        0 <= i < lines.len() && ((#[trigger] lines[i]).0 matches Line::List(text) && trimmed(text)
            == part)
}

proof fn lines_are_cared_for(detector: TimestampAnomalyDetector, lines: Seq<(Line, Seq<bool>)>)
    ensures
        all_cared_for(after_lines(detector, lines).state, asked_by(detector, lines)),
        forall|part: Seq<char>| #[trigger]
            lists(lines, part) && part.len() > 0 ==> finalizes(asked_by(detector, lines), part)
                || listed(after_lines(detector, lines).state.listed, part),
    decreases lines.len(),
{
    if lines.len() > 0 {
        let front = lines.drop_last();
        lines_are_cared_for(detector, front);
        events_so_far_are_in_order(detector, front);
        let before = after_lines(detector, front);
        let (line, kept) = lines.last();
        let run = after_input(before.state, line);
        match line {
            Line::List(text) => {
                listing_is_in_order(before.state, text);
                listing_keeps_hold(before.state, text);
            },
            Line::Log(text, now) => {
                log_is_in_order(before.state, text, now);
                log_keeps_hold(before.state, text, now);
            },
        }
        input_keeps_names(before.state, line);
        step_accounted(before, run, kept);
        let after = after_lines(detector, lines);
        let asked = asked_by(detector, front);
        step_cares(before.state, asked, after.state, run.actions);
        assert forall|part: Seq<char>| #[trigger] lists(lines, part) && part.len() > 0 implies finalizes(
            asked + run.actions,
            part,
        ) || listed(after.state.listed, part) by {
            asked_stays(asked, run.actions, part);
            let i = choose|i: int|
                0 <= i < lines.len() && ((#[trigger] lines[i]).0 matches Line::List(text)
                    && trimmed(text) == part);
            if i < front.len() {
                assert(front[i] == lines[i]);
                assert(lists(front, part));
            }
        }
    }
}

/// Completing files starts none but those.
proof fn completing_starts(run: FilesRun, parts: Seq<Seq<char>>, i: int, settled: bool)
    requires
        0 <= i <= parts.len(),
    ensures
        ({
            let done = all_completed(run, parts, i, settled);
            &&& run.state.started.len() <= done.state.started.len()
            &&& forall|k: int|
                0 <= k < run.state.started.len() ==> #[trigger] done.state.started[k]
                    == run.state.started[k]
            &&& forall|k: int|
                run.state.started.len() <= k < done.state.started.len() ==> exists|j: int|
                    i <= j < parts.len() && #[trigger] without_part(parts[j])
                        == #[trigger] done.state.started[k]
        }),
    decreases parts.len() - i,
{
    if i < parts.len() {
        let done = completed(run, parts[i]);
        let next = if settled {
            FilesRun {
                state: FilesState {
                    pending: without_path(done.state.pending, parts[i]),
                    ..done.state
                },
                ..done
            }
        } else {
            done
        };
        completing_starts(next, parts, i + 1, settled);
        let last = all_completed(run, parts, i, settled);
        assert(last == all_completed(next, parts, i + 1, settled));
        assert forall|k: int|
            run.state.started.len() <= k < last.state.started.len() implies exists|j: int|
            i <= j < parts.len() && #[trigger] without_part(parts[j])
                == #[trigger] last.state.started[k] by {
            if k < next.state.started.len() {
                assert(without_part(parts[i]) == last.state.started[k]);
            }
        }
        assert forall|k: int| 0 <= k < run.state.started.len() implies #[trigger] last.state.started[k]
            == run.state.started[k] by {
            assert(next.state.started[k] == run.state.started[k]);
        }
    }
}

/// Every file that is started at the end is asked to be given its final name.
proof fn exit_keeps_hold(state: FilesState)
    requires
        consistent(state),
        all_ended(state),
    ensures
        keeps_hold(state, after_exit(state)),
        after_exit(state).state.pending.len() == 0,
{
    exit_completes_every_file(state);
    let start = begun(FilesState { listed: Seq::empty(), ..state });
    all_completed_keeps(state, start, state.listed, 0, true);
    completing_starts(start, state.listed, 0, true);
    let first = all_completed(start, state.listed, 0, true);
    let parts = first.state.pending;
    let second = FilesRun { state: FilesState { pending: Seq::empty(), ..first.state }, ..first };
    assert(consistent(second.state));
    assert(all_ended(second.state));
    all_completed_keeps(state, second, parts, 0, false);
    completing_starts(second, parts, 0, false);
    let done = after_exit(state);
    assert forall|i: int| 0 <= i < done.state.started.len() implies (i < state.started.len()
        && done.state.started[i] == state.started[i]) || cared_for(
        done.state.pending,
        done.actions,
        #[trigger] done.state.started[i],
    ) by {
        let path = done.state.started[i];
        if i < state.started.len() {
            assert(first.state.started[i] == state.started[i]);
        } else if i < first.state.started.len() {
            assert(first.state.started[i] == path);
            let j = choose|j: int|
                0 <= j < state.listed.len() && #[trigger] without_part(state.listed[j]) == path;
            assert(listed(state.listed, state.listed[j]));
            assert(finalizes(done.actions, state.listed[j]));
        } else {
            let j = choose|j: int|
                0 <= j < parts.len() && #[trigger] without_part(parts[j]) == path;
            assert(finalizes(done.actions, parts[j]));
        }
    }
    completing_leaves_pending(second, parts, 0);
}

proof fn completing_leaves_pending(run: FilesRun, parts: Seq<Seq<char>>, i: int)
    ensures
        all_completed(run, parts, i, false).state.pending == run.state.pending,
    decreases parts.len() - i,
{
    if 0 <= i < parts.len() {
        completing_leaves_pending(completed(run, parts[i]), parts, i + 1);
    }
}

/// No file is forgotten: by the end of a recording, every file that was listed, and every file
/// that was started, has been asked to be given its final name.
pub proof fn no_file_is_forgotten(
    detector: TimestampAnomalyDetector,
    lines: Seq<(Line, Seq<bool>)>,
    kept: Seq<bool>,
)
    ensures
        ({
            let asked = asked_in_all(detector, lines);
            let started = starts(recorded(detector, lines, kept).events);
            &&& forall|part: Seq<char>|
                part.len() > 0 && #[trigger] lists(lines, part) ==> finalizes(asked, part)
            &&& forall|i: int|
                0 <= i < started.len() ==> exists|part: Seq<char>| #[trigger]
                    without_part(part) == #[trigger] started[i] && finalizes(asked, part)
        }),
{
    let read = after_lines(detector, lines);
    let asked = asked_by(detector, lines);
    lines_are_cared_for(detector, lines);
    events_so_far_are_in_order(detector, lines);
    closing_ends_every_file(read.state);
    let closing = with_active_end(begun(read.state));
    step_accounted(read, closing, seq![]);
    let closed = carried_on(read, closing, seq![]);
    step_cares(read.state, asked, closed.state, closing.actions);
    assert(all_ended(closed.state));
    exit_keeps_hold(closed.state);
    exit_completes_every_file(closed.state);
    exit_keeps(closed.state);
    let last = after_exit(closed.state);
    let before = asked + closing.actions;
    step_cares(closed.state, before, last.state, last.actions);
    performed_in_order(Recording { state: last.state, ..closed }, last.actions, kept);
    let started = starts(recorded(detector, lines, kept).events);
    assert(started == last.state.started);
    let all = before + last.actions;
    assert forall|part: Seq<char>| part.len() > 0 && #[trigger] lists(lines, part) implies finalizes(
        all,
        part,
    ) by {
        asked_stays(asked, closing.actions, part);
        asked_stays(before, last.actions, part);
        if !finalizes(asked, part) {
            assert(listed(closed.state.listed, part));
        }
    }
    assert forall|i: int| 0 <= i < started.len() implies exists|part: Seq<char>| #[trigger]
        without_part(part) == #[trigger] started[i] && finalizes(all, part) by {
        assert(cared_for(last.state.pending, all, last.state.started[i]));
        let part = choose|part: Seq<char>| #[trigger]
            without_part(part) == started[i] && (finalizes(all, part) || listed(
                last.state.pending,
                part,
            ));
        assert(without_part(part) == started[i] && finalizes(all, part));
    }
}

/// A file that could be given its final name is told as a segment, whenever it was asked for.
pub proof fn kept_files_are_told(
    recording: Recording,
    actions: Seq<FileAction<Seq<char>>>,
    kept: Seq<bool>,
    i: int,
)
    requires
        0 <= i < actions.len(),
        actions[i] is Finalize,
        kept[i],
    ensures
        listed(
            performed(recording, actions, kept).state.finalized,
            without_part(actions[i]->Finalize_0),
        ),
    decreases actions.len(),
{
    let path = without_part(actions[i]->Finalize_0);
    let front = actions.drop_last();
    let before = performed(recording, front, kept);
    if i < front.len() {
        assert(front[i] == actions[i]);
        kept_files_are_told(recording, front, kept, i);
        if let FileAction::Finalize(part) = actions.last() {
            listed_push(before.state.finalized, without_part(part), path);
        }
    } else {
        listed_push(before.state.finalized, path, path);
    }
}

// ---------------------------------------------------------------------------
// How it comes out
// ---------------------------------------------------------------------------

/// A line of the log that is taken notice of complains of timestamps. A late word on a file that
/// already has its final name is passed over.
pub open spec fn complaint(state: FilesState, line: Line) -> bool {
    match line {
        Line::List(_) => false,
        Line::Log(text, _) => complains(text) && !(opened_path(text) matches Some(part) && listed(
            state.finalized,
            without_part(part),
        )),
    }
}

/// One of the lines complained.
pub open spec fn complained(
    detector: TimestampAnomalyDetector,
    lines: Seq<(Line, Seq<bool>)>,
) -> bool
    decreases lines.len(),
{
    lines.len() > 0 && (complained(detector, lines.drop_last()) || complaint(
        after_lines(detector, lines.drop_last()).state,
        lines.last().0,
    ))
}

proof fn opening_keeps_detector(state: FilesState, part: Seq<char>)
    ensures
        after_opening(state, part).state.detector == state.detector,
        after_opening(state, part).state.anomaly == state.anomaly,
{
}

proof fn complaints_are_noticed(
    detector: TimestampAnomalyDetector,
    lines: Seq<(Line, Seq<bool>)>,
)
    requires
        detector.last_trigger is None,
    ensures
        ({
            let state = after_lines(detector, lines).state;
            &&& state.anomaly == (detector.enabled && complained(detector, lines))
            &&& state.detector.enabled == detector.enabled
            &&& state.detector.last_trigger is Some == state.anomaly
        }),
    decreases lines.len(),
{
    if lines.len() > 0 {
        complaints_are_noticed(detector, lines.drop_last());
        events_so_far_are_in_order(detector, lines.drop_last());
        let before = after_lines(detector, lines.drop_last());
        let (line, kept) = lines.last();
        let run = after_input(before.state, line);
        match line {
            Line::List(text) => listing_is_in_order(before.state, text),
            Line::Log(text, now) => {
                log_is_in_order(before.state, text, now);
                if let Some(part) = opened_path(text) {
                    opening_keeps_detector(before.state, part);
                }
            },
        }
        input_keeps_names(before.state, line);
        step_accounted(before, run, kept);
    }
}

/// A recording comes out as complete where a line of the log complained of timestamps or the
/// process ended well, as over where the process says so, and as failed otherwise.
pub proof fn recording_comes_out(
    detector: TimestampAnomalyDetector,
    lines: Seq<(Line, Seq<bool>)>,
    kept: Seq<bool>,
    code: Option<i32>,
    status: DownloadStatus,
)
    requires
        detector.last_trigger is None,
        came_out(status, recorded(detector, lines, kept).state.anomaly, code),
    ensures
        ({
            let cut = detector.enabled && complained(detector, lines);
            &&& recorded(detector, lines, kept).state.anomaly == cut
            &&& status is SegmentCompleted == (cut || code == Some(0i32))
            &&& status is StreamEnded == (!cut && code == Some(255i32))
            &&& status is Error == (!cut && code != Some(0i32) && code != Some(255i32))
        }),
{
    let read = after_lines(detector, lines);
    complaints_are_noticed(detector, lines);
    events_so_far_are_in_order(detector, lines);
    closing_ends_every_file(read.state);
    step_accounted(read, with_active_end(begun(read.state)), seq![]);
    let closed = carried_on(read, with_active_end(begun(read.state)), seq![]);
    exit_completes_every_file(closed.state);
    exit_keeps(closed.state);
    let last = after_exit(closed.state);
    performed_in_order(Recording { state: last.state, ..closed }, last.actions, kept);
}

// ---------------------------------------------------------------------------
// A process that writes one file
// ---------------------------------------------------------------------------

/// How far the one file of a process has come.
pub enum FileStage {
    Unseen,
    Started,
    Ended,
    Finalized,
}

/// How far the file has come after `actions`, where they keep to the order: it starts once, ends
/// once and only after its start, and gets its final name once and only after its end.
pub open spec fn staged(actions: Seq<FileAction<Seq<char>>>) -> Option<FileStage>
    decreases actions.len(),
{
    if actions.len() == 0 {
        Some(FileStage::Unseen)
    } else {
        match (staged(actions.drop_last()), actions.last()) {
            (Some(FileStage::Unseen), FileAction::Start(_)) => Some(FileStage::Started),
            (Some(FileStage::Started), FileAction::End(_)) => Some(FileStage::Ended),
            (Some(FileStage::Ended), FileAction::Finalize(_)) => Some(FileStage::Finalized),
            (Some(FileStage::Finalized), _) => None,
            (Some(stage), FileAction::Stop) => Some(stage),
            (Some(stage), FileAction::Remove(_)) => Some(stage),
            _ => None,
        }
    }
}

/// What is asked for after `lines`, in the order in which they were read from either pipe.
pub open spec fn external_after(segment: ExternalSegment, lines: Seq<Line>) -> ExternalRun
    decreases lines.len(),
{
    if lines.len() == 0 {
        ExternalRun { state: segment, actions: Seq::empty() }
    } else {
        let before = external_after(segment, lines.drop_last());
        let run = match lines.last() {
            Line::List(text) => after_progress(before.state, text),
            Line::Log(text, now) => after_message(before.state, text, now),
        };
        ExternalRun { actions: before.actions + run.actions, ..run }
    }
}

/// All that is asked for of a process that leaves `length` bytes of its file, or no file.
pub open spec fn external_recording(
    segment: ExternalSegment,
    lines: Seq<Line>,
    length: Option<u64>,
) -> ExternalRun {
    let before = external_after(segment, lines);
    let run = after_process(before.state, length);
    ExternalRun { actions: before.actions + run.actions, ..run }
}

/// The stage that a process has told its file to be in.
pub open spec fn stage_of(segment: ExternalSegment) -> FileStage {
    if segment.ended {
        FileStage::Ended
    } else if segment.started {
        FileStage::Started
    } else {
        FileStage::Unseen
    }
}

/// One action more.
proof fn staged_next(actions: Seq<FileAction<Seq<char>>>, action: FileAction<Seq<char>>)
    ensures
        staged(actions.push(action)) == match (staged(actions), action) {
            (Some(FileStage::Unseen), FileAction::Start(_)) => Some(FileStage::Started),
            (Some(FileStage::Started), FileAction::End(_)) => Some(FileStage::Ended),
            (Some(FileStage::Ended), FileAction::Finalize(_)) => Some(FileStage::Finalized),
            (Some(FileStage::Finalized), _) => None,
            (Some(stage), FileAction::Stop) => Some(stage),
            (Some(stage), FileAction::Remove(_)) => Some(stage),
            _ => None,
        },
{
    assert(actions.push(action).drop_last() =~= actions);
}

/// The start and the end of the file, where they have not been told, and then one thing more.
proof fn staged_to_the_end(
    before: Seq<FileAction<Seq<char>>>,
    segment: ExternalSegment,
    last: FileAction<Seq<char>>,
)
    requires
        staged(before) == Some(stage_of(segment)),
        segment.ended ==> segment.started,
        last is Stop || last is Finalize,
    ensures
        staged(before + (start_once(segment) + end_once(segment) + seq![last])) == Some(
            if last is Stop {
                FileStage::Ended
            } else {
                FileStage::Finalized
            },
        ),
{
    let (start, end) = (FileAction::Start(segment.output@), FileAction::End(segment.output@));
    let begun = before + start_once(segment);
    let done = begun + end_once(segment);
    staged_next(before, start);
    assert(begun =~= if segment.started {
        before
    } else {
        before.push(start)
    });
    staged_next(begun, end);
    assert(done =~= if segment.ended {
        begun
    } else {
        begun.push(end)
    });
    staged_next(done, last);
    assert(before + (start_once(segment) + end_once(segment) + seq![last]) =~= done.push(last));
}

proof fn external_lines_are_in_order(segment: ExternalSegment, lines: Seq<Line>)
    requires
        segment.is_fresh(),
    ensures
        ({
            let run = external_after(segment, lines);
            &&& staged(run.actions) == Some(stage_of(run.state))
            &&& run.state.ended ==> run.state.started
            &&& run.state.progress_started ==> run.state.started
            &&& run.state.output == segment.output
            &&& run.state.detector.enabled == segment.detector.enabled
            &&& run.state.anomaly == (run.state.detector.last_trigger is Some)
            &&& run.state.anomaly == (segment.detector.enabled && exists|i: int|
                0 <= i < lines.len() && #[trigger] complaining(lines[i]))
        }),
    decreases lines.len(),
{
    if lines.len() > 0 {
        let front = lines.drop_last();
        external_lines_are_in_order(segment, front);
        let before = external_after(segment, front);
        let run = external_after(segment, lines);
        match lines.last() {
            Line::List(text) => {
                staged_next(before.actions, FileAction::Start(segment.output@));
                let more = after_progress(before.state, text).actions;
                assert(before.actions + more =~= if more.len() == 0 {
                    before.actions
                } else {
                    before.actions.push(FileAction::Start(segment.output@))
                });
            },
            Line::Log(text, now) => {
                if before.state.detector.reports(text, now) {
                    staged_to_the_end(before.actions, before.state, FileAction::Stop);
                } else {
                    assert(before.actions + Seq::<FileAction<Seq<char>>>::empty()
                        =~= before.actions);
                }
            },
        }
        let n = front.len() as int;
        assert(lines[n] == lines.last());
        if exists|i: int| 0 <= i < front.len() && #[trigger] complaining(front[i]) {
            let i = choose|i: int| 0 <= i < front.len() && #[trigger] complaining(front[i]);
            assert(complaining(lines[i]));
        }
        if exists|i: int| 0 <= i < lines.len() && #[trigger] complaining(lines[i]) {
            let i = choose|i: int| 0 <= i < lines.len() && #[trigger] complaining(lines[i]);
            if i < n {
                assert(complaining(front[i]));
            } else {
                assert(complaining(lines.last()));
            }
        }
        if complaining(lines.last()) {
            assert(complaining(lines[n]));
        }
    }
}

/// A line of the log complains of timestamps.
pub open spec fn complaining(line: Line) -> bool {
    line matches Line::Log(text, _) && complains(text)
}

/// Of a process that writes one file, however its pipes are read: the file starts at most once,
/// ends at most once and only after its start, and gets its final name at most once and only
/// after its end. It gets it, and has then started and ended, exactly where the process leaves a
/// file that is not empty. The process was asked to stop exactly where a line of the log
/// complained of timestamps, and how the recording comes out goes by that and by the exit code.
pub proof fn external_recording_is_in_order(
    segment: ExternalSegment,
    lines: Seq<Line>,
    length: Option<u64>,
    code: Option<i32>,
    status: DownloadStatus,
)
    requires
        segment.is_fresh(),
        came_out(status, external_recording(segment, lines, length).state.anomaly, code),
    ensures
        ({
            let run = external_recording(segment, lines, length);
            let kept = length matches Some(n) && n > 0;
            let cut = segment.detector.enabled && exists|i: int|
                0 <= i < lines.len() && #[trigger] complaining(lines[i]);
            &&& staged(run.actions) is Some
            &&& (staged(run.actions) == Some(FileStage::Finalized)) == kept
            &&& run.state.anomaly == cut
            &&& status is SegmentCompleted == (cut || code == Some(0i32))
            &&& status is StreamEnded == (!cut && code == Some(255i32))
            &&& status is Error == (!cut && code != Some(0i32) && code != Some(255i32))
        }),
{
    external_lines_are_in_order(segment, lines);
    let before = external_after(segment, lines);
    let part = segment.output@ + ".part"@;
    let more = after_process(before.state, length).actions;
    if length matches Some(n) && n > 0 {
        staged_to_the_end(before.actions, before.state, FileAction::Finalize(part));
    } else if length is Some {
        staged_next(before.actions, FileAction::Remove(part));
        assert(before.actions + more =~= before.actions.push(FileAction::Remove(part)));
    } else {
        assert(before.actions + more =~= before.actions);
    }
}

} // verus!
