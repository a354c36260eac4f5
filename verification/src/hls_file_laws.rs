//! What holds of the files of a recording of numbered pieces: which piece comes next and where it
//! stands, why a file ends, and how large and how long it is.

use crate::hls::{address_of, best_variant, eligible, fresh_hls, gap, hls_begun, hls_fetched, hls_next, hls_refreshed, hls_split, hls_unsplit, is_new, last_sequence, opened, passed_over, poll_nanos, regressed, stepped, widest, widest_is_widest, HlsAction, HlsError, HlsRun, HlsState, NextView, Opening};
use crate::hls_laws::{after_step, after_steps, HlsStep};
use crate::outside_hls::{url_joined, url_read, PlaylistData, PlaylistView, VariantData};
use crate::segment::SegmentState;
use vstd::prelude::*;

verus! {

// ---------------------------------------------------------------------------
// Which piece comes next
// ---------------------------------------------------------------------------

/// The place in the playlist and the number of the piece there belong together, and all numbers
/// of the playlist can be counted.
pub open spec fn in_line(state: HlsState) -> bool {
    &&& 0 <= state.index <= state.playlist.segments.len()
    &&& state.sequence == state.playlist.media_sequence + state.index
    &&& state.playlist.media_sequence + state.playlist.segments.len() <= u64::MAX
}

/// The piece at `k` of the playlist still has to be fetched: it is not before the present place,
/// and its number lies behind that of the last one fetched.
pub open spec fn awaited(state: HlsState, k: int) -> bool {
    &&& state.index <= k < state.playlist.segments.len()
    &&& state.last matches Some(p) ==> state.playlist.media_sequence + k > p
}

proof fn passing_over_stops(state: HlsState)
    requires
        in_line(state),
    ensures
        passed_over(state) matches Some(there) && {
            &&& in_line(there)
            &&& there == (HlsState { index: there.index, sequence: there.sequence, ..state })
            &&& state.index <= there.index
            &&& there.index < state.playlist.segments.len() ==> awaited(state, there.index)
            &&& forall|k: int| k < there.index ==> !#[trigger] awaited(state, k)
        },
    decreases state.playlist.segments.len() - state.index,
{
    if state.index < state.playlist.segments.len() && !is_new(state.last, state.sequence) {
        let next = stepped(state)->0;
        passing_over_stops(next);
        let there = passed_over(next)->0;
        assert(passed_over(state) == Some(there));
        assert forall|k: int| k < there.index implies !#[trigger] awaited(state, k) by {
            assert(!awaited(next, k));
        }
        if there.index < state.playlist.segments.len() {
            assert(awaited(next, there.index));
        }
    }
}

/// The piece that comes next is the first of the playlist that still has to be fetched, as the
/// playlist has it. Where there is none, the recording is over if the stream says so; else the
/// playlist is fetched again, after its target duration or one second, whichever is longer.
pub proof fn the_first_awaited_piece_comes_next(state: HlsState)
    requires
        in_line(state),
    ensures
        ({
            let there = hls_next(state).0.state;
            let next = hls_next(state).1;
            let none = forall|k: int| !#[trigger] awaited(state, k);
            let secs = if state.playlist.target_duration > 1 {
                state.playlist.target_duration as int
            } else {
                1
            };
            &&& in_line(there)
            &&& !none ==> {
                &&& awaited(state, there.index)
                &&& forall|k: int| #[trigger] awaited(state, k) ==> there.index <= k
                &&& next == (NextView::Fetch {
                    uri: state.playlist.segments[there.index].uri,
                    duration_bits: state.playlist.segments[there.index].duration_bits,
                })
            }
            &&& none && state.playlist.end_list ==> next is Finished
            &&& none && !state.playlist.end_list ==> (next matches NextView::Refresh(nanos) && nanos
                == secs * 1_000_000_000)
            &&& there.playlist == state.playlist
            &&& there.media_url == state.media_url
            &&& there.last == state.last
        }),
{
    passing_over_stops(state);
    let there = passed_over(state)->0;
    if there.index >= state.playlist.segments.len() {
        assert forall|k: int| !#[trigger] awaited(state, k) by {}
        assert(forall|k: int| !#[trigger] awaited(state, k));
    } else {
        assert(awaited(state, there.index));
    }
}

/// A new recorder, a recorder that was told of a piece, and one that has a playlist again stand
/// in line.
pub proof fn recorders_stay_in_line(
    state: HlsState,
    playlist: PlaylistData,
    segment: SegmentState,
    length: int,
    span: int,
)
    requires
        playlist.media_sequence + playlist.segments.len() <= u64::MAX,
    ensures
        in_line(fresh_hls(state.media_url, playlist, segment)),
        fresh_hls(state.media_url, playlist, segment).last is None,
        in_line(hls_refreshed(state, playlist).state),
        hls_refreshed(state, playlist).state.playlist == playlist,
        hls_refreshed(state, playlist).state.index == 0,
        in_line(state) && state.index < state.playlist.segments.len() ==> (hls_fetched(
            state,
            length,
            span,
        ) matches Some(run) ==> {
            &&& in_line(run.state)
            &&& run.state.index == state.index + 1
            &&& run.state.last == Some(state.sequence)
            &&& run.state.playlist == state.playlist
        }),
{
}

// ---------------------------------------------------------------------------
// Why a file ends
// ---------------------------------------------------------------------------

/// Before a piece that is marked as a discontinuity a new file is opened, whatever the numbers
/// and the threshold; so it is before one that does not follow the last piece fetched, where the
/// rule on anomalies is on. Before any other piece nothing is done.
pub proof fn discontinuities_open_files(state: HlsState)
    requires
        in_line(state),
        hls_next(state).1 is Fetch,
    ensures
        ({
            let run = hls_next(state).0;
            let piece = state.playlist.segments[run.state.index];
            let missing = state.last matches Some(p) && p + 1 < run.state.sequence;
            if piece.discontinuity || (missing && state.segment.threshold_ms > 0) {
                &&& run.actions == if state.started {
                    seq![HlsAction::Ended, HlsAction::CreateNew]
                } else {
                    seq![HlsAction::CreateNew]
                }
                &&& !run.state.started
                &&& run.state.segment.size == 0
                &&& run.state.segment.start == run.state.segment.current
                &&& run.state.segment.current == state.segment.current
            } else {
                &&& run.actions.len() == 0
                &&& run.state.started == state.started
                &&& run.state.segment == state.segment
            }
        }),
{
    passing_over_stops(state);
    let there = passed_over(state)->0;
    let none = Seq::<HlsAction>::empty();
    assert(none.push(HlsAction::Ended).push(HlsAction::CreateNew) =~= seq![
        HlsAction::Ended,
        HlsAction::CreateNew,
    ]);
    assert(none.push(HlsAction::CreateNew) =~= seq![HlsAction::CreateNew]);
}

/// Nothing is done before a playlist is fetched again, nor at the end.
pub proof fn waiting_opens_nothing(state: HlsState)
    requires
        in_line(state),
        !(hls_next(state).1 is Fetch),
    ensures
        hls_next(state).0.actions.len() == 0,
        hls_next(state).0.state.started == state.started,
        hls_next(state).0.state.segment == state.segment,
{
    passing_over_stops(state);
}

/// Behind a piece a new file is opened exactly where a limit is reached: the bytes of the file,
/// the piece with them, reach the size, or its pieces reach the length.
pub proof fn limits_open_files(state: HlsState, length: int, span: int)
    requires
        length >= 0,
        span >= 0,
        state.segment.start <= state.segment.current,
    ensures
        hls_fetched(state, length, span) matches Some(run) ==> {
            let size = state.segment.size + length;
            let time = state.segment.current - state.segment.start + span;
            let full = (state.segment.expected_size matches Some(limit) && size >= limit) || (
            state.segment.expected_time matches Some(limit) && time >= limit);
            &&& full ==> run.actions == if state.started {
                seq![HlsAction::Ended, HlsAction::CreateNew]
            } else {
                seq![HlsAction::CreateNew]
            }
            &&& full ==> run.state.segment.size == 0 && run.state.segment.start
                == run.state.segment.current
            &&& !full ==> run.actions.len() == 0 && run.state.segment.size == size
                && run.state.segment.start == state.segment.start
            &&& run.state.segment.current == state.segment.current + span
            &&& run.state.segment.expected_size == state.segment.expected_size
            &&& run.state.segment.expected_time == state.segment.expected_time
            &&& run.state.segment.threshold_ms == state.segment.threshold_ms
        },
{
    let none = Seq::<HlsAction>::empty();
    assert(none.push(HlsAction::Ended).push(HlsAction::CreateNew) =~= seq![
        HlsAction::Ended,
        HlsAction::CreateNew,
    ]);
    assert(none.push(HlsAction::CreateNew) =~= seq![HlsAction::CreateNew]);
}

/// A playlist is a new stream where the rule on anomalies is on and its last piece lies more than
/// five before the last one fetched: a new file is opened, and all its pieces are fetched. Any
/// other playlist goes on with the present file, behind the last piece fetched.
pub proof fn new_streams_are_told_by_their_numbers(state: HlsState, playlist: PlaylistData)
    requires
        playlist.media_sequence + playlist.segments.len() <= u64::MAX,
    ensures
        ({
            let run = hls_refreshed(state, playlist);
            let end = playlist.media_sequence + playlist.segments.len() - 1;
            let behind = state.last matches Some(p) && playlist.segments.len() > 0 && end + 5 < p;
            if state.segment.threshold_ms > 0 && behind {
                &&& run.actions == if state.started {
                    seq![HlsAction::Ended, HlsAction::CreateNew]
                } else {
                    seq![HlsAction::CreateNew]
                }
                &&& run.state.last is None
                &&& !run.state.started
                &&& run.state.segment.size == 0
                &&& run.state.segment.start == run.state.segment.current
            } else {
                &&& run.actions.len() == 0
                &&& run.state.last == state.last
                &&& run.state.started == state.started
                &&& run.state.segment == state.segment
            }
        }),
        hls_refreshed(state, playlist).state.segment.current == state.segment.current,
        hls_refreshed(state, playlist).state.media_url == state.media_url,
{
    let none = Seq::<HlsAction>::empty();
    assert(none.push(HlsAction::Ended).push(HlsAction::CreateNew) =~= seq![
        HlsAction::Ended,
        HlsAction::CreateNew,
    ]);
    assert(none.push(HlsAction::CreateNew) =~= seq![HlsAction::CreateNew]);
}

/// The first bytes of a file start it, once; where the next file could not be opened, the present
/// one stays as it was.
pub proof fn files_start_once(state: HlsState)
    ensures
        hls_begun(state).actions == if state.started {
            Seq::empty()
        } else {
            seq![HlsAction::Started]
        },
        hls_begun(hls_begun(state).state).actions.len() == 0,
        hls_begun(state).state.segment == state.segment,
        hls_unsplit(
            hls_split(HlsRun { state, actions: Seq::empty() }).state,
        ).started == state.started,
{
}

// ---------------------------------------------------------------------------
// How large and how long a file is
// ---------------------------------------------------------------------------

/// A new file is opened.
pub open spec fn opens(actions: Seq<HlsAction>) -> bool {
    exists|i: int| 0 <= i < actions.len() && #[trigger] actions[i] == HlsAction::CreateNew
}

/// The bytes and the nanoseconds of the pieces in the present file after `steps`.
pub open spec fn piled_up(state: HlsState, steps: Seq<HlsStep>) -> (int, int)
    decreases steps.len(),
{
    if steps.len() == 0 {
        (0, 0)
    } else {
        let (bytes, nanos) = piled_up(state, steps.drop_last());
        match after_steps(state, steps.drop_last()) {
            None => (0, 0),
            Some(before) => match after_step(before.state, steps.last()) {
                None => (0, 0),
                Some(run) => if opens(run.actions) {
                    (0, 0)
                } else {
                    match steps.last() {
                        HlsStep::Fetched { length, span } => (bytes + length, nanos + span),
                        _ => (bytes, nanos),
                    }
                },
            },
        }
    }
}

/// The playlists and the pieces of `steps` can be counted.
pub open spec fn countable(steps: Seq<HlsStep>) -> bool {
    forall|i: int|
        0 <= i < steps.len() ==> match #[trigger] steps[i] {
            HlsStep::Fetched { length, span } => length >= 0 && span >= 0,
            HlsStep::Refreshed(playlist) => playlist.media_sequence + playlist.segments.len()
                <= u64::MAX,
            _ => true,
        }
}

proof fn passing_over_keeps_the_file(state: HlsState)
    ensures
        passed_over(state) matches Some(there) ==> there.segment == state.segment && there.started
            == state.started,
    decreases state.playlist.segments.len() - state.index,
{
    if !(state.index < 0 || state.index >= state.playlist.segments.len() || is_new(
        state.last,
        state.sequence,
    )) {
        if let Some(next) = stepped(state) {
            passing_over_keeps_the_file(next);
        }
    }
}

proof fn split_opens(run: HlsRun)
    ensures
        opens(hls_split(run).actions),
        hls_split(run).state.segment.size == 0,
        hls_split(run).state.segment.start == run.state.segment.current,
        hls_split(run).state.segment.current == run.state.segment.current,
{
    let actions = hls_split(run).actions;
    assert(actions[actions.len() - 1] == HlsAction::CreateNew);
}

/// What is held against the limits are the bytes and the length of the pieces that have been
/// fetched into the present file, after every course of a recording that begins with an empty
/// file.
pub proof fn what_is_counted_is_in_the_file(
    media_url: Seq<char>,
    playlist: PlaylistData,
    segment: SegmentState,
    steps: Seq<HlsStep>,
)
    requires
        countable(steps),
        segment.size == 0,
        segment.start == segment.current,
    ensures
        after_steps(fresh_hls(media_url, playlist, segment), steps) matches Some(run) ==> {
            let (bytes, nanos) = piled_up(fresh_hls(media_url, playlist, segment), steps);
            &&& run.state.segment.size == bytes
            &&& run.state.segment.current - run.state.segment.start == nanos
            &&& nanos >= 0
        },
    decreases steps.len(),
{
    let fresh = fresh_hls(media_url, playlist, segment);
    if steps.len() > 0 {
        let fewer = steps.drop_last();
        assert(countable(fewer)) by {
            assert forall|i: int| 0 <= i < fewer.len() implies match #[trigger] fewer[i] {
                HlsStep::Fetched { length, span } => length >= 0 && span >= 0,
                HlsStep::Refreshed(playlist) => playlist.media_sequence + playlist.segments.len()
                    <= u64::MAX,
                _ => true,
            } by {
                assert(steps[i] == fewer[i]);
            }
        }
        what_is_counted_is_in_the_file(media_url, playlist, segment, fewer);
        assert(steps[steps.len() - 1] == steps.last());
        if let Some(before) = after_steps(fresh, fewer) {
            let now = before.state;
            let none = Seq::<HlsAction>::empty();
            assert(!opens(none));
            match steps.last() {
                HlsStep::Next => {
                    passing_over_keeps_the_file(now);
                    if let Some(there) = passed_over(now) {
                        split_opens(HlsRun { state: there, actions: none });
                    }
                },
                HlsStep::FirstChunk => {
                    assert(!opens(seq![HlsAction::Started]));
                },
                HlsStep::Fetched { length, span } => {
                    let grown = HlsRun {
                        state: HlsState {
                            segment: SegmentState {
                                size: (now.segment.size + length) as nat,
                                current: (now.segment.current + span) as nat,
                                ..now.segment
                            },
                            ..now
                        },
                        actions: none,
                    };
                    split_opens(grown);
                },
                HlsStep::Refreshed(list) => {
                    split_opens(HlsRun { state: now, actions: none });
                },
            }
        }
    }
}

// ---------------------------------------------------------------------------
// The rendition
// ---------------------------------------------------------------------------

/// A rendition that is made for more than jumping about in the stream.
pub open spec fn playable(variant: VariantData) -> bool {
    !variant.is_i_frame
}

/// The rendition that is recorded can be played, where one can, and has a picture, where one
/// that can be played has. Of those it takes the most bandwidth, and of equals it is the last.
/// Where none can be played it is the first.
pub proof fn the_widest_rendition_is_recorded(variants: Seq<VariantData>)
    requires
        variants.len() > 0,
    ensures
        ({
            let best = best_variant(variants);
            let pictures = exists|k: int|
                0 <= k < variants.len() && playable(#[trigger] variants[k])
                    && variants[k].has_resolution;
            let any = exists|k: int| 0 <= k < variants.len() && playable(#[trigger] variants[k]);
            &&& 0 <= best < variants.len()
            &&& pictures ==> playable(variants[best]) && variants[best].has_resolution
            &&& any ==> playable(variants[best])
            &&& !any ==> best == 0
            &&& any ==> forall|k: int|
                0 <= k < variants.len() && playable(#[trigger] variants[k]) && (pictures
                    ==> variants[k].has_resolution) ==> {
                    &&& variants[k].bandwidth <= variants[best].bandwidth
                    &&& k > best ==> variants[k].bandwidth < variants[best].bandwidth
                }
        }),
{
    let n = variants.len() as int;
    widest_is_widest(variants, true, n);
    widest_is_widest(variants, false, n);
    let best = best_variant(variants);
    if exists|k: int|
        0 <= k < variants.len() && playable(#[trigger] variants[k]) && variants[k].has_resolution {
        let k = choose|k: int|
            0 <= k < variants.len() && playable(#[trigger] variants[k])
                && variants[k].has_resolution;
        assert(eligible(variants[k], true));
        assert(widest(variants, true, n) is Some);
    } else {
        if let Some(i) = widest(variants, true, n) {
            assert(playable(variants[i]));
        }
        if exists|k: int| 0 <= k < variants.len() && playable(#[trigger] variants[k]) {
            let k = choose|k: int| 0 <= k < variants.len() && playable(#[trigger] variants[k]);
            assert(eligible(variants[k], false));
        } else if let Some(i) = widest(variants, false, n) {
            assert(playable(variants[i]));
        }
    }
}

/// A document that lists pieces is recorded itself, from its own address; one that lists
/// renditions leads to the address of the one that is chosen, taken from its own.
pub proof fn documents_lead_on(
    url: Seq<char>,
    base: Seq<char>,
    document: PlaylistView,
    opening: Result<Opening, HlsError>,
)
    requires
        url_read(url) == Ok::<Seq<char>, Seq<char>>(base),
        opened(url, Ok(document), opening),
    ensures
        document matches PlaylistView::Media(data) ==> (opening matches Ok(
            Opening::Media { url: found, playlist },
        ) && found@ == base && playlist@ == data),
        document matches PlaylistView::Master(variants) ==> {
            &&& variants.len() == 0 ==> (opening matches Err(HlsError::NoVariant))
            &&& variants.len() > 0 && url_joined(
                base,
                variants[best_variant(variants)].uri,
            ) is Ok ==> (opening matches Ok(Opening::Variant { url: found }) && Ok::<
                Seq<char>,
                Seq<char>,
            >(found@) == url_joined(base, variants[best_variant(variants)].uri))
        },
{
}

/// The wait between two fetches is a whole number of seconds, at least one, and grows with the
/// target duration.
pub proof fn waits_are_whole_seconds(one: PlaylistData, other: PlaylistData)
    ensures
        poll_nanos(one) >= 1_000_000_000,
        poll_nanos(one) % 1_000_000_000 == 0,
        one.target_duration <= other.target_duration ==> poll_nanos(one) <= poll_nanos(other),
        one.target_duration >= 1 ==> poll_nanos(one) == one.target_duration * 1_000_000_000,
{
}

/// The last number of a playlist is the first plus the others; a piece is new behind the last one
/// fetched, and leaves a gap where it is not the next; a playlist that ends up to five pieces
/// before the last one fetched is no new one.
pub proof fn numbers_are_told_apart(playlist: PlaylistData, last: u64, number: u64)
    ensures
        playlist.segments.len() == 0 ==> last_sequence(playlist) is None,
        playlist.segments.len() > 0 && playlist.media_sequence + playlist.segments.len() - 1
            <= u64::MAX ==> last_sequence(playlist) == Some(
            (playlist.media_sequence + playlist.segments.len() - 1) as u64,
        ),
        is_new(Some(last), number) == (last < number),
        is_new(None, number),
        gap(Some(last), number) == (last + 1 < number),
        !gap(None, number),
        regressed(Some(last), Some(number)) == (number + 5 < last),
        !regressed(None, Some(number)),
        !regressed(Some(last), None),
{
}

/// The address of a piece is taken from where the pieces are listed.
pub proof fn pieces_are_found_from_their_list(state: HlsState, uri: Seq<char>)
    ensures
        address_of(state, uri) == url_joined(state.media_url, uri),
{
}

} // verus!
