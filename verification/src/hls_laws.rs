//! What holds of every recording of numbered pieces.

use crate::hls::{fresh_hls, gap, hls_begun, hls_fetched, hls_finished, hls_next, hls_refreshed, hls_split, is_new, last_sequence, passed_over, regressed, stepped, HlsAction, HlsRun, HlsState, NextView, HLS_SEQUENCE_REGRESSION_TOLERANCE};
use crate::outside_hls::PlaylistData;
use crate::segment::SegmentState;
use vstd::prelude::*;

verus! {

/// The piece of a number has been fetched, or one behind it.
pub open spec fn fetched(last: Option<u64>, sequence: int) -> bool {
    last matches Some(p) && sequence <= p
}

/// Passing over pieces changes only the place in the playlist, and stops at a piece that is new.
proof fn passing_over_keeps(state: HlsState)
    requires
        0 <= state.index <= state.playlist.segments.len(),
    ensures
        passed_over(state) matches Some(there) ==> {
            &&& there == (HlsState { index: there.index, sequence: there.sequence, ..state })
            &&& state.index <= there.index <= there.playlist.segments.len()
            &&& there.sequence - state.sequence == there.index - state.index
            &&& there.index < there.playlist.segments.len() ==> is_new(
                there.last,
                there.sequence,
            )
            &&& forall|n: int|
                state.sequence <= n < there.sequence ==> #[trigger] fetched(state.last, n)
        },
    decreases state.playlist.segments.len() - state.index,
{
    if state.index < state.playlist.segments.len() && !is_new(state.last, state.sequence) {
        if let Some(next) = stepped(state) {
            passing_over_keeps(next);
            assert(fetched(state.last, state.sequence as int));
        }
    }
}

/// Pieces are fetched in the order of their numbers, none twice: the one that comes next has a
/// larger number than the last one fetched, it becomes the last one fetched, and every piece of
/// the playlist that was passed over before it has been fetched.
pub proof fn pieces_are_fetched_once(state: HlsState, length: int, span: int)
    requires
        0 <= state.index <= state.playlist.segments.len(),
        hls_next(state).1 is Fetch,
    ensures
        ({
            let there = hls_next(state).0.state;
            &&& is_new(state.last, there.sequence)
            &&& there.last == state.last
            &&& hls_fetched(there, length, span) matches Some(run) ==> run.state.last == Some(
                there.sequence,
            )
            &&& forall|n: int|
                state.sequence <= n < there.sequence ==> #[trigger] fetched(state.last, n)
        }),
{
    passing_over_keeps(state);
    let there = hls_next(state).0.state;
    let passed = passed_over(state)->0;
    assert(there.index == passed.index && there.sequence == passed.sequence);
}

/// The present file has bytes after `actions`, where they keep to the order: a file is started
/// once, only a started file ends, and the next is opened once the present one has ended or was
/// never started.
pub open spec fn hls_bracketed(started: bool, actions: Seq<HlsAction>) -> Option<bool>
    decreases actions.len(),
{
    if actions.len() == 0 {
        Some(started)
    } else {
        match (hls_bracketed(started, actions.drop_last()), actions.last()) {
            (Some(false), HlsAction::Started) => Some(true),
            (Some(true), HlsAction::Ended) => Some(false),
            (Some(false), HlsAction::CreateNew) => Some(false),
            _ => None,
        }
    }
}

proof fn split_is_bracketed(run: HlsRun, started: bool)
    requires
        hls_bracketed(started, run.actions) == Some(run.state.started),
    ensures
        hls_bracketed(started, hls_split(run).actions) == Some(false),
        !hls_split(run).state.started,
{
    let ended = if run.state.started {
        run.actions.push(HlsAction::Ended)
    } else {
        run.actions
    };
    assert(run.actions.push(HlsAction::Ended).drop_last() =~= run.actions);
    assert(ended.push(HlsAction::CreateNew).drop_last() =~= ended);
    assert(hls_bracketed(started, ended) == Some(false));
}

/// The place in the playlist is none before it.
pub open spec fn in_place(state: HlsState) -> bool {
    0 <= state.index
}

/// Passing over pieces leaves the present file as it is.
proof fn passing_over_stays(state: HlsState)
    requires
        in_place(state),
    ensures
        passed_over(state) matches Some(there) ==> in_place(there) && there.started
            == state.started,
    decreases state.playlist.segments.len() - state.index,
{
    if state.index < state.playlist.segments.len() && !is_new(state.last, state.sequence) {
        if let Some(next) = stepped(state) {
            passing_over_stays(next);
        }
    }
}

proof fn next_is_bracketed(state: HlsState)
    requires
        in_place(state),
    ensures
        in_place(hls_next(state).0.state),
        hls_bracketed(state.started, hls_next(state).0.actions) == Some(
            hls_next(state).0.state.started,
        ),
{
    passing_over_stays(state);
    if let Some(there) = passed_over(state) {
        split_is_bracketed(HlsRun { state: there, actions: Seq::empty() }, state.started);
    }
}

proof fn fetched_is_bracketed(state: HlsState, length: int, span: int)
    ensures
        hls_fetched(state, length, span) matches Some(run) ==> hls_bracketed(
            state.started,
            run.actions,
        ) == Some(run.state.started),
{
    if hls_fetched(state, length, span) is Some {
        let grown = HlsRun {
            state: HlsState {
                segment: SegmentState {
                    size: (state.segment.size + length) as nat,
                    current: (state.segment.current + span) as nat,
                    ..state.segment
                },
                ..state
            },
            actions: Seq::empty(),
        };
        split_is_bracketed(grown, state.started);
    }
}

/// What a recorder is told of, in the order in which it comes.
pub enum HlsStep {
    /// The next piece is asked for.
    Next,
    /// The first bytes of a piece have come.
    FirstChunk,
    /// A piece has been fetched.
    Fetched { length: int, span: int },
    /// The playlist has been fetched again.
    Refreshed(PlaylistData),
}

/// The recorder after a step, where its numbers can be counted.
pub open spec fn after_step(state: HlsState, step: HlsStep) -> Option<HlsRun> {
    match step {
        HlsStep::Next => match hls_next(state) {
            (_, NextView::Overflow) => None,
            (run, _) => Some(run),
        },
        HlsStep::FirstChunk => Some(hls_begun(state)),
        HlsStep::Fetched { length, span } => hls_fetched(state, length, span),
        HlsStep::Refreshed(playlist) => Some(hls_refreshed(state, playlist)),
    }
}

/// The recorder after `steps`, with all that it has asked for.
pub open spec fn after_steps(state: HlsState, steps: Seq<HlsStep>) -> Option<HlsRun>
    decreases steps.len(),
{
    if steps.len() == 0 {
        Some(HlsRun { state, actions: Seq::empty() })
    } else {
        match after_steps(state, steps.drop_last()) {
            None => None,
            Some(before) => match after_step(before.state, steps.last()) {
                None => None,
                Some(run) => Some(HlsRun { actions: before.actions + run.actions, ..run }),
            },
        }
    }
}

/// All that a whole recording asks for, its end included.
pub open spec fn hls_recording(
    media_url: Seq<char>,
    playlist: PlaylistData,
    segment: SegmentState,
    steps: Seq<HlsStep>,
) -> Option<Seq<HlsAction>> {
    match after_steps(fresh_hls(media_url, playlist, segment), steps) {
        None => None,
        Some(run) => Some(run.actions + hls_finished(run.state).actions),
    }
}

/// Actions that follow others go on from where those led.
proof fn bracketed_behind(started: bool, first: Seq<HlsAction>, second: Seq<HlsAction>)
    ensures
        hls_bracketed(started, first + second) == match hls_bracketed(started, first) {
            None => None,
            Some(now) => hls_bracketed(now, second),
        },
    decreases second.len(),
{
    if second.len() == 0 {
        assert(first + second =~= first);
    } else {
        bracketed_behind(started, first, second.drop_last());
        assert((first + second).drop_last() =~= first + second.drop_last());
    }
}

proof fn files_so_far_are_in_turn(state: HlsState, steps: Seq<HlsStep>)
    requires
        in_place(state),
    ensures
        after_steps(state, steps) matches Some(run) ==> in_place(run.state) && hls_bracketed(
            state.started,
            run.actions,
        ) == Some(run.state.started),
    decreases steps.len(),
{
    if steps.len() > 0 {
        files_so_far_are_in_turn(state, steps.drop_last());
        if let Some(before) = after_steps(state, steps.drop_last()) {
            let now = before.state;
            if let Some(run) = after_step(now, steps.last()) {
                match steps.last() {
                    HlsStep::Next => {
                        next_is_bracketed(now);
                    },
                    HlsStep::FirstChunk => {
                        assert(seq![HlsAction::Started].drop_last() =~= Seq::<HlsAction>::empty());
                    },
                    HlsStep::Fetched { length, span } => {
                        fetched_is_bracketed(now, length, span);
                    },
                    HlsStep::Refreshed(playlist) => {
                        split_is_bracketed(HlsRun { state: now, actions: Seq::empty() }, now.started);
                    },
                }
                bracketed_behind(state.started, before.actions, run.actions);
            }
        }
    }
}

/// In a whole recording files begin and end in turn, whatever comes: a file is started once, at
/// its first bytes, and ends before the next is opened; and at the end none is left open.
pub proof fn hls_files_are_in_turn(
    media_url: Seq<char>,
    playlist: PlaylistData,
    segment: SegmentState,
    steps: Seq<HlsStep>,
)
    ensures
        hls_recording(media_url, playlist, segment, steps) matches Some(actions)
            ==> hls_bracketed(false, actions) == Some(false),
{
    let fresh = fresh_hls(media_url, playlist, segment);
    files_so_far_are_in_turn(fresh, steps);
    if let Some(run) = after_steps(fresh, steps) {
        let last = hls_finished(run.state).actions;
        assert(hls_bracketed(run.state.started, last) == Some(false)) by {
            if run.state.started {
                assert(last.drop_last() =~= Seq::<HlsAction>::empty());
                assert(hls_bracketed(true, last.drop_last()) == Some(true));
            }
        }
        bracketed_behind(false, run.actions, last);
    }
}

/// What comes of what a recorder asks for next.
pub enum HlsAnswer {
    /// The piece, of this many bytes and nanoseconds.
    Piece { length: int, span: int },
    /// The playlist.
    Playlist(PlaylistData),
}

/// The recorder after what it asked for has come, and the number of the piece, if it was one.
pub open spec fn after_answer(state: HlsState, answer: HlsAnswer) -> Option<
    (HlsState, Option<u64>),
> {
    let (asked, next) = hls_next(state);
    match (next, answer) {
        (NextView::Fetch { .. }, HlsAnswer::Piece { length, span }) => {
            let begun = if length > 0 {
                hls_begun(asked.state).state
            } else {
                asked.state
            };
            match hls_fetched(begun, length, span) {
                Some(run) => Some((run.state, Some(asked.state.sequence))),
                None => None,
            }
        },
        (NextView::Refresh(_), HlsAnswer::Playlist(playlist)) => Some(
            (hls_refreshed(asked.state, playlist).state, None),
        ),
        _ => None,
    }
}

/// The recorder after `answers`, and the numbers of the pieces that were fetched since the stream
/// was last found to be a new one.
pub open spec fn fetched_after(state: HlsState, answers: Seq<HlsAnswer>) -> Option<
    (HlsState, Seq<u64>),
>
    decreases answers.len(),
{
    if answers.len() == 0 {
        Some((state, Seq::empty()))
    } else {
        match fetched_after(state, answers.drop_last()) {
            None => None,
            Some((before, numbers)) => match after_answer(before, answers.last()) {
                None => None,
                Some((after, Some(number))) => Some((after, numbers.push(number))),
                Some((after, None)) => Some(
                    (
                        after,
                        if after.last is None {
                            Seq::empty()
                        } else {
                            numbers
                        },
                    ),
                ),
            },
        }
    }
}

/// The pieces of a stream are fetched in the order of their numbers, none twice, however its
/// playlists overlap.
pub proof fn numbers_rise(
    media_url: Seq<char>,
    playlist: PlaylistData,
    segment: SegmentState,
    answers: Seq<HlsAnswer>,
)
    ensures
        fetched_after(fresh_hls(media_url, playlist, segment), answers) matches Some(
            (state, numbers),
        ) ==> {
            &&& forall|i: int, j: int|
                0 <= i < j < numbers.len() ==> #[trigger] numbers[i] < #[trigger] numbers[j]
            &&& state.last == if numbers.len() == 0 {
                None
            } else {
                Some(numbers.last())
            }
            &&& 0 <= state.index <= state.playlist.segments.len()
        },
    decreases answers.len(),
{
    let fresh = fresh_hls(media_url, playlist, segment);
    if answers.len() > 0 {
        numbers_rise(media_url, playlist, segment, answers.drop_last());
        if let Some((before, numbers)) = fetched_after(fresh, answers.drop_last()) {
            passing_over_keeps(before);
            if let Some((after, Some(number))) = after_answer(before, answers.last()) {
                assert(is_new(before.last, number));
                assert(after.last == Some(number));
                let more = numbers.push(number);
                assert forall|i: int, j: int| 0 <= i < j < more.len() implies #[trigger] more[i]
                    < #[trigger] more[j] by {
                    if j == numbers.len() && i < numbers.len() - 1 {
                        assert(numbers[i] < numbers[numbers.len() - 1]);
                    }
                }
            }
        }
    }
}

/// A playlist whose window has moved on and still overlaps the last one is no new one, and the
/// piece behind the last one fetched leaves no gap.
pub proof fn overlapping_windows_go_on(last: u64, playlist: PlaylistData)
    requires
        last < u64::MAX,
        last_sequence(playlist) matches Some(end) && end + HLS_SEQUENCE_REGRESSION_TOLERANCE
            >= last,
    ensures
        !regressed(Some(last), last_sequence(playlist)),
        !gap(Some(last), (last + 1) as u64),
{
}

/// Once the stream says that it is over, the recording ends when all pieces have been fetched.
pub proof fn ended_streams_finish(state: HlsState)
    requires
        state.playlist.end_list,
        state.index == state.playlist.segments.len(),
    ensures
        hls_next(state).1 is Finished,
        hls_next(state).0.actions.len() == 0,
{
}

/// A new stream under the same address is recorded from its first piece on, into a new file.
pub proof fn new_streams_begin_new_files(state: HlsState, playlist: PlaylistData)
    requires
        state.segment.threshold_ms > 0,
        regressed(state.last, last_sequence(playlist)),
    ensures
        hls_refreshed(state, playlist).actions.last() == HlsAction::CreateNew,
        hls_next(hls_refreshed(state, playlist).state).1 == (NextView::Fetch {
            uri: playlist.segments[0].uri,
            duration_bits: playlist.segments[0].duration_bits,
        }),
{
    let next = hls_refreshed(state, playlist).state;
    assert(next.last is None);
    assert(passed_over(next) == Some(next));
}

} // verus!
