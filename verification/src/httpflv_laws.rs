//! What holds of every recording: how the output times run, how files begin and end, and what is
//! written of the tags that came.

use crate::flv::{class_tells_media, tag_class, TagClass, TagType};
use crate::httpflv::{breaks, clock_after, clock_output, counted, drained, finished, flushed, fresh_clock, fresh_recorder, is_media, keyed, opening, opening_tags, positioned, put, recorded, remembered, retimed, split, timed, written_out, Action, OutputClock, RecorderState, Run, Tag};
use crate::segment::SegmentState;
use crate::timestamp::{absorbed_base, absorbed_max, clamped_offset, clamped_output, jump_absorbed, timestamp_anomaly};
use vstd::prelude::*;

verus! {

// ---------------------------------------------------------------------------
// The time axis
// ---------------------------------------------------------------------------

/// Flattening always moves the output on, as long as there is a larger time to write.
pub proof fn clamped_output_increases(raw: u32, offset: u32, prev: u32)
    requires
        prev < u32::MAX,
    ensures
        clamped_output(raw, offset, Some(prev)) > prev,
{
}

/// A frame that comes later than the one before it keeps its distance from it, whether or not
/// that one had to be moved. The sum has to fit.
pub proof fn clamped_outputs_keep_distance(
    first: u32,
    second: u32,
    offset: u32,
    last: Option<u32>,
)
    requires
        first < second,
        second + clamped_offset(first, offset, last) <= u32::MAX,
    ensures
        ({
            let out = clamped_output(first, offset, last);
            let moved = clamped_offset(first, offset, last);
            &&& clamped_output(second, moved, Some(out)) - out == second - first
            &&& clamped_offset(second, moved, Some(out)) == moved
        }),
{
}

/// A gap is absorbed once: after it, times up to the one that crossed it are no gap.
pub proof fn gap_is_absorbed_once(
    current: u32,
    later: u32,
    stream_max: Option<u32>,
    base: Option<u32>,
)
    requires
        jump_absorbed(current, stream_max, base),
        later <= current,
    ensures
        !jump_absorbed(
            later,
            absorbed_max(current, stream_max, base),
            absorbed_base(current, stream_max, base),
        ),
{
}

/// A step back is either flattened or cuts the file, never both: below the threshold it is no
/// anomaly.
pub proof fn small_regressions_are_no_anomaly(prev: u32, current: u32, threshold: u32)
    requires
        prev - current < threshold,
    ensures
        !timestamp_anomaly(prev, current, threshold),
{
}

/// The first media of a file is written at zero.
pub proof fn first_output_is_zero(time: u32)
    ensures
        clock_output(fresh_clock(), time) == 0,
{
}

/// The times of a file strictly increase, as long as there is a larger time to write.
pub proof fn clock_increases(clock: OutputClock, time: u32)
    requires
        clock.last matches Some(prev) ==> prev < u32::MAX,
    ensures
        clock.last matches Some(prev) ==> clock_output(clock, time) > prev,
        clock_after(clock, time).last == Some(clock_output(clock, time)),
{
}

/// Of a gap behind the newest frame one millisecond is left. The time has to fit.
pub proof fn gap_leaves_one_millisecond(clock: OutputClock, time: u32, prev: u32)
    requires
        jump_absorbed(time, clock.stream_max, clock.base),
        clock.base->0 <= clock.stream_max->0,
        prev == clock.stream_max->0 - clock.base->0 + clock.offset,
        prev < u32::MAX,
        clock.last == Some(prev),
    ensures
        clock_output(clock, time) == prev + 1,
{
}

// ---------------------------------------------------------------------------
// Files begin and end in turn
// ---------------------------------------------------------------------------

/// Whether a file has media after `actions`, where they keep to the order: a file is started
/// once, media is only written into a started file, only a started file ends, and the next is
/// opened once the present one has ended or was never started.
pub open spec fn bracketed(started: bool, actions: Seq<Action<Seq<u8>>>) -> Option<bool>
    decreases actions.len(),
{
    if actions.len() == 0 {
        Some(started)
    } else {
        match bracketed(started, actions.drop_last()) {
            None => None,
            Some(now) => match actions.last() {
                Action::Started => if now {
                    None
                } else {
                    Some(true)
                },
                Action::Ended => if now {
                    Some(false)
                } else {
                    None
                },
                Action::CreateNew => if now {
                    None
                } else {
                    Some(false)
                },
                Action::Write(tag) => if is_media(tag) && !now {
                    None
                } else {
                    Some(now)
                },
            },
        }
    }
}

/// The last media time of the present file after `actions`.
pub open spec fn last_written(
    last: Option<u32>,
    actions: Seq<Action<Seq<u8>>>,
) -> Option<u32>
    decreases actions.len(),
{
    if actions.len() == 0 {
        last
    } else {
        match actions.last() {
            Action::CreateNew => None,
            Action::Write(tag) if is_media(tag) => Some(tag.header.timestamp),
            _ => last_written(last, actions.drop_last()),
        }
    }
}

/// In every file the media times strictly increase, up to the largest that can be written, and
/// everything else is written at zero.
pub open spec fn increasing(last: Option<u32>, actions: Seq<Action<Seq<u8>>>) -> bool
    decreases actions.len(),
{
    if actions.len() == 0 {
        true
    } else {
        &&& increasing(last, actions.drop_last())
        &&& match actions.last() {
            Action::Write(tag) => if is_media(tag) {
                last_written(last, actions.drop_last()) matches Some(prev) ==> prev < u32::MAX
                    ==> tag.header.timestamp > prev
            } else {
                tag.header.timestamp == 0
            },
            _ => true,
        }
    }
}

/// The actions so far keep to the order and lead to where the recorder stands.
pub open spec fn orderly(started: bool, last: Option<u32>, run: Run) -> bool {
    &&& bracketed(started, run.actions) == Some(run.state.started)
    &&& increasing(last, run.actions)
    &&& last_written(last, run.actions) == run.state.clock.last
}

proof fn put_is_orderly(started: bool, last: Option<u32>, run: Run, tag: Tag<Seq<u8>>)
    requires
        orderly(started, last, run),
    ensures
        orderly(started, last, put(run, tag, is_media(tag))),
{
    let media = is_media(tag);
    let begun = if media && !run.state.started {
        run.actions.push(Action::Started)
    } else {
        run.actions
    };
    assert(run.actions.push(Action::Started).drop_last() =~= run.actions);
    let done = put(run, tag, media);
    assert(done.actions.drop_last() =~= begun);
    assert(bracketed(started, begun) == Some(run.state.started || media));
    assert(last_written(last, begun) == run.state.clock.last);
    assert(increasing(last, begun));
}

proof fn flushed_is_orderly(
    started: bool,
    last: Option<u32>,
    run: Run,
    cache: Seq<Tag<Seq<u8>>>,
    i: int,
)
    requires
        orderly(started, last, run),
        0 <= i,
    ensures
        flushed(run, cache, i) matches Some(done) ==> orderly(started, last, done),
    decreases cache.len() - i,
{
    if i < cache.len() && !breaks(run.state, cache[i]) {
        let tag = cache[i];
        put_is_orderly(started, last, run, tag);
        if let Some(next) = counted(put(run, tag, is_media(tag)), tag.header) {
            flushed_is_orderly(
                started,
                last,
                if is_media(tag) {
                    timed(next, tag.header)
                } else {
                    next
                },
                cache,
                i + 1,
            );
        }
    }
}

proof fn written_out_is_orderly(
    started: bool,
    last: Option<u32>,
    run: Run,
    cache: Seq<Tag<Seq<u8>>>,
    i: int,
)
    requires
        orderly(started, last, run),
        0 <= i,
    ensures
        written_out(run, cache, i) matches Some(done) ==> orderly(started, last, done),
    decreases cache.len() - i,
{
    if i < cache.len() {
        let tag = cache[i];
        put_is_orderly(started, last, run, tag);
        if let Some(next) = counted(put(run, tag, is_media(tag)), tag.header) {
            written_out_is_orderly(
                started,
                last,
                if is_media(tag) && tag.header.tag_type == TagType::Audio {
                    timed(next, tag.header)
                } else {
                    next
                },
                cache,
                i + 1,
            );
        }
    }
}

proof fn split_is_orderly(started: bool, last: Option<u32>, run: Run, time: u32)
    requires
        orderly(started, last, run),
    ensures
        orderly(started, last, split(run, time)),
{
    let ended = if run.state.started {
        run.actions.push(Action::Ended)
    } else {
        run.actions
    };
    assert(run.actions.push(Action::Ended).drop_last() =~= run.actions);
    assert(ended.push(Action::CreateNew).drop_last() =~= ended);
    assert(bracketed(started, ended) == Some(false));
    assert(increasing(last, ended));
}

proof fn drained_is_orderly(
    started: bool,
    last: Option<u32>,
    run: Run,
    cache: Seq<Tag<Seq<u8>>>,
    i: int,
)
    requires
        orderly(started, last, run),
        0 <= i,
    ensures
        orderly(started, last, drained(run, cache, i)),
    decreases cache.len() - i,
{
    if i < cache.len() {
        put_is_orderly(started, last, run, cache[i]);
        drained_is_orderly(started, last, put(run, cache[i], is_media(cache[i])), cache, i + 1);
    }
}

/// Whatever tag comes, what the recorder asks for keeps files in turn: a file is started once, at
/// its first media, and ends before the next is opened; and the media times of a file strictly
/// increase.
pub proof fn recording_is_orderly(state: RecorderState, tag: Tag<Seq<u8>>, class: TagClass)
    requires
        tag_class(tag.header, tag.body) == Ok::<TagClass, crate::flv::BodyFault>(class),
    ensures
        recorded(state, tag, class) matches Some(run) ==> orderly(
            state.started,
            state.clock.last,
            run,
        ),
{
    let known = remembered(state, tag, class);
    match class {
        TagClass::Video { key: true, sequence_header: false } => {
            class_tells_media(tag.header, tag.body);
            assert(is_media(tag));
            let started = state.started;
            let last = state.clock.last;
            let time = tag.header.timestamp;
            let begun = Run {
                state: RecorderState { cache: Seq::empty(), ..positioned(known, time) },
                actions: Seq::empty(),
            };
            flushed_is_orderly(started, last, begun, known.cache, 0);
            if let Some(run) = flushed(begun, known.cache, 0) {
                let broken = run.state.prev_video matches Some(prev) && timestamp_anomaly(
                    prev,
                    time,
                    run.state.segment.threshold_ms,
                );
                let called = Run {
                    state: RecorderState {
                        create_new: run.state.create_new || broken,
                        ..run.state
                    },
                    ..run
                };
                split_is_orderly(started, last, called, time);
                let placed = if called.state.segment.reached() || called.state.create_new {
                    split(called, time)
                } else {
                    called
                };
                if !placed.state.started {
                    let emptied = Run {
                        state: RecorderState { cache: Seq::empty(), ..placed.state },
                        ..placed
                    };
                    written_out_is_orderly(started, last, emptied, placed.state.cache, 0);
                    if let Some(opened) = written_out(emptied, placed.state.cache, 0) {
                        put_is_orderly(started, last, opened, tag);
                    }
                }
            }
        },
        _ => {},
    }
}

/// At the end of the stream what is left is written in order, and a file that was started ends.
pub proof fn finish_is_orderly(state: RecorderState)
    ensures
        bracketed(state.started, finished(state).actions) == Some(false),
        increasing(state.clock.last, finished(state).actions),
{
    let begun = Run {
        state: RecorderState { cache: Seq::empty(), ..state },
        actions: Seq::empty(),
    };
    drained_is_orderly(state.started, state.clock.last, begun, state.cache, 0);
    let run = drained(begun, state.cache, 0);
    assert(run.actions.push(Action::Ended).drop_last() =~= run.actions);
}

/// The recorder after `tags`, with all that it has asked for, where their bodies can be read and
/// the sizes can be counted.
pub open spec fn after_tags(segment: SegmentState, tags: Seq<Tag<Seq<u8>>>) -> Option<Run>
    decreases tags.len(),
{
    if tags.len() == 0 {
        Some(Run { state: fresh_recorder(segment), actions: Seq::empty() })
    } else {
        let tag = tags.last();
        match (after_tags(segment, tags.drop_last()), tag_class(tag.header, tag.body)) {
            (Some(before), Ok(class)) => match recorded(before.state, tag, class) {
                Some(run) => Some(Run { actions: before.actions + run.actions, ..run }),
                None => None,
            },
            _ => None,
        }
    }
}

/// All that a whole recording asks for, its end included.
pub open spec fn recording(segment: SegmentState, tags: Seq<Tag<Seq<u8>>>) -> Option<
    Seq<Action<Seq<u8>>>,
> {
    match after_tags(segment, tags) {
        Some(run) => Some(run.actions + finished(run.state).actions),
        None => None,
    }
}

/// Actions that follow others go on from where those led.
proof fn order_behind(
    started: bool,
    last: Option<u32>,
    first: Seq<Action<Seq<u8>>>,
    second: Seq<Action<Seq<u8>>>,
)
    ensures
        bracketed(started, first + second) == match bracketed(started, first) {
            Some(now) => bracketed(now, second),
            None => None,
        },
        last_written(last, first + second) == last_written(last_written(last, first), second),
        increasing(last, first + second) == (increasing(last, first) && increasing(
            last_written(last, first),
            second,
        )),
    decreases second.len(),
{
    if second.len() == 0 {
        assert(first + second =~= first);
    } else {
        order_behind(started, last, first, second.drop_last());
        assert((first + second).drop_last() =~= first + second.drop_last());
        assert((first + second).last() == second.last());
    }
}

/// Whatever tags have come, what the recorder has asked for so far is in order.
pub proof fn recording_so_far_is_orderly(segment: SegmentState, tags: Seq<Tag<Seq<u8>>>)
    ensures
        after_tags(segment, tags) matches Some(run) ==> orderly(false, None, run),
    decreases tags.len(),
{
    if tags.len() > 0 {
        recording_so_far_is_orderly(segment, tags.drop_last());
        let tag = tags.last();
        if let (Some(before), Ok(class)) = (
            after_tags(segment, tags.drop_last()),
            tag_class(tag.header, tag.body),
        ) {
            recording_is_orderly(before.state, tag, class);
            if let Some(run) = recorded(before.state, tag, class) {
                order_behind(false, None, before.actions, run.actions);
            }
        }
    }
}

/// In a whole recording files begin and end in turn: a file is started once, at its first media,
/// media is only written into a started file, every started file ends before the next is opened,
/// and none is left open at the end. In each file the media times strictly increase, up to the
/// largest that can be written, and everything else is written at zero.
pub proof fn whole_recording_is_orderly(segment: SegmentState, tags: Seq<Tag<Seq<u8>>>)
    ensures
        recording(segment, tags) matches Some(actions) ==> bracketed(false, actions) == Some(false)
            && increasing(None, actions),
{
    recording_so_far_is_orderly(segment, tags);
    if let Some(run) = after_tags(segment, tags) {
        finish_is_orderly(run.state);
        order_behind(false, None, run.actions, finished(run.state).actions);
    }
}

// ---------------------------------------------------------------------------
// What is written of the tags that came
// ---------------------------------------------------------------------------

/// The tags that `actions` write, their times aside.
pub open spec fn written(actions: Seq<Action<Seq<u8>>>) -> Seq<Tag<Seq<u8>>>
    decreases actions.len(),
{
    if actions.len() == 0 {
        Seq::empty()
    } else {
        match actions.last() {
            Action::Write(tag) => written(actions.drop_last()).push(retimed(tag, 0)),
            _ => written(actions.drop_last()),
        }
    }
}

/// Tags, their times aside.
pub open spec fn bare(tags: Seq<Tag<Seq<u8>>>) -> Seq<Tag<Seq<u8>>> {
    tags.map_values(|t: Tag<Seq<u8>>| retimed(t, 0))
}

proof fn put_writes(run: Run, tag: Tag<Seq<u8>>, media: bool)
    ensures
        written(put(run, tag, media).actions) == written(run.actions).push(retimed(tag, 0)),
{
    let begun = if media && !run.state.started {
        run.actions.push(Action::Started)
    } else {
        run.actions
    };
    assert(run.actions.push(Action::Started).drop_last() =~= run.actions);
    assert(put(run, tag, media).actions.drop_last() =~= begun);
    assert(written(begun) == written(run.actions));
}

/// Flushing writes the cache in order up to the index that is returned: its end, or the first
/// tag that breaks its track.
proof fn flushed_writes(run: Run, cache: Seq<Tag<Seq<u8>>>, i: int) -> (kept: int)
    requires
        0 <= i <= cache.len(),
    ensures
        i <= kept <= cache.len(),
        flushed(run, cache, i) matches Some(done) ==> {
            &&& written(done.actions) == written(run.actions) + bare(cache.subrange(i, kept))
            &&& kept < cache.len() ==> done.state.create_new
            &&& run.state.create_new ==> done.state.create_new
            &&& done.state.cache == run.state.cache
            &&& done.state.on_meta_data == run.state.on_meta_data
            &&& done.state.aac_sequence_header == run.state.aac_sequence_header
            &&& done.state.h264_sequence_header == run.state.h264_sequence_header
        },
    decreases cache.len() - i,
{
    if i >= cache.len() || breaks(run.state, cache[i]) {
        assert(bare(cache.subrange(i, i)) =~= Seq::<Tag<Seq<u8>>>::empty());
        assert(written(run.actions) =~= written(run.actions) + bare(cache.subrange(i, i)));
        i
    } else {
        let tag = cache[i];
        put_writes(run, tag, is_media(tag));
        match counted(put(run, tag, is_media(tag)), tag.header) {
            None => i,
            Some(next) => {
                let stepped = if is_media(tag) {
                    timed(next, tag.header)
                } else {
                    next
                };
                let kept = flushed_writes(stepped, cache, i + 1);
                assert(bare(cache.subrange(i, kept)) =~= seq![retimed(tag, 0)] + bare(
                    cache.subrange(i + 1, kept),
                ));
                assert(written(run.actions).push(retimed(tag, 0)) + bare(
                    cache.subrange(i + 1, kept),
                ) =~= written(run.actions) + bare(cache.subrange(i, kept)));
                kept
            },
        }
    }
}

proof fn written_out_writes(run: Run, cache: Seq<Tag<Seq<u8>>>, i: int)
    requires
        0 <= i <= cache.len(),
    ensures
        written_out(run, cache, i) matches Some(done) ==> written(done.actions) == written(
            run.actions,
        ) + bare(cache.skip(i)) && done.state.cache == run.state.cache,
    decreases cache.len() - i,
{
    if i >= cache.len() {
        assert(written(run.actions) =~= written(run.actions) + bare(cache.skip(i)));
    } else {
        let tag = cache[i];
        put_writes(run, tag, is_media(tag));
        if let Some(next) = counted(put(run, tag, is_media(tag)), tag.header) {
            let stepped = if is_media(tag) && tag.header.tag_type == TagType::Audio {
                timed(next, tag.header)
            } else {
                next
            };
            written_out_writes(stepped, cache, i + 1);
            assert(written(run.actions).push(retimed(tag, 0)) + bare(cache.skip(i + 1))
                =~= written(run.actions) + bare(cache.skip(i)));
        }
    }
}

proof fn drained_writes(run: Run, cache: Seq<Tag<Seq<u8>>>, i: int)
    requires
        0 <= i <= cache.len(),
    ensures
        written(drained(run, cache, i).actions) == written(run.actions) + bare(cache.skip(i)),
    decreases cache.len() - i,
{
    if i >= cache.len() {
        assert(written(run.actions) =~= written(run.actions) + bare(cache.skip(i)));
    } else {
        let tag = cache[i];
        put_writes(run, tag, is_media(tag));
        drained_writes(put(run, tag, is_media(tag)), cache, i + 1);
        assert(written(run.actions).push(retimed(tag, 0)) + bare(cache.skip(i + 1)) =~= written(
            run.actions,
        ) + bare(cache.skip(i)));
    }
}

/// The key frame begins a new file.
pub open spec fn splits(state: RecorderState, tag: Tag<Seq<u8>>) -> bool {
    let time = tag.header.timestamp;
    let begun = Run {
        state: RecorderState { cache: Seq::empty(), ..positioned(state, time) },
        actions: Seq::empty(),
    };
    flushed(begun, state.cache, 0) matches Some(run) && (run.state.segment.reached()
        || run.state.create_new || (run.state.prev_video matches Some(prev) && timestamp_anomaly(
        prev,
        time,
        run.state.segment.threshold_ms,
    )))
}

/// Tags are written once and in the order in which they came. A key frame writes the tags before
/// it, opens a new file with the tags that every file begins with where it splits, and follows
/// them, written or waiting. Where a tag broke its track, it and the waiting tags behind it are
/// dropped, and then the file is split.
///
/// Returns how many of the waiting tags are kept.
pub proof fn key_frames_keep_order(state: RecorderState, tag: Tag<Seq<u8>>) -> (kept: int)
    ensures
        0 <= kept <= state.cache.len(),
        keyed(state, tag) matches Some(run) ==> {
            &&& written(run.actions) + bare(run.state.cache) == bare(state.cache.take(kept)) + (
            if splits(state, tag) {
                bare(opening_tags(state))
            } else {
                Seq::empty()
            }) + seq![retimed(tag, 0)]
            &&& kept < state.cache.len() ==> splits(state, tag)
        },
{
    let time = tag.header.timestamp;
    let none = Seq::<Tag<Seq<u8>>>::empty();
    let begun = Run {
        state: RecorderState { cache: none, ..positioned(state, time) },
        actions: Seq::empty(),
    };
    let kept = flushed_writes(begun, state.cache, 0);
    assert(state.cache.subrange(0, kept) =~= state.cache.take(kept));
    if let Some(run) = flushed(begun, state.cache, 0) {
        let broken = run.state.prev_video matches Some(prev) && timestamp_anomaly(
            prev,
            time,
            run.state.segment.threshold_ms,
        );
        let called = Run {
            state: RecorderState { create_new: run.state.create_new || broken, ..run.state },
            ..run
        };
        let placed = if called.state.segment.reached() || called.state.create_new {
            split(called, time)
        } else {
            called
        };
        let ended = if called.state.started {
            called.actions.push(Action::Ended)
        } else {
            called.actions
        };
        assert(called.actions.push(Action::Ended).drop_last() =~= called.actions);
        assert(ended.push(Action::CreateNew).drop_last() =~= ended);
        assert(written(ended) == written(called.actions));
        assert(written(ended.push(Action::CreateNew)) == written(ended));
        assert(none + bare(state.cache.take(kept)) =~= bare(state.cache.take(kept)));
        let opened_with = if splits(state, tag) {
            bare(opening_tags(state))
        } else {
            none
        };
        assert(opening_tags(called.state) == opening_tags(state));
        assert(bare(placed.state.cache) =~= opened_with);
        if placed.state.started {
            assert(bare(placed.state.cache.push(tag)) =~= opened_with.push(retimed(tag, 0)));
            assert(written(placed.actions) + bare(placed.state.cache.push(tag)) =~= bare(
                state.cache.take(kept),
            ) + opened_with + seq![retimed(tag, 0)]);
        } else {
            let emptied = Run {
                state: RecorderState { cache: none, ..placed.state },
                ..placed
            };
            written_out_writes(emptied, placed.state.cache, 0);
            assert(placed.state.cache.skip(0) =~= placed.state.cache);
            if let Some(opened) = written_out(emptied, placed.state.cache, 0) {
                put_writes(opened, tag, true);
                if let Some(done) = counted(put(opened, tag, true), tag.header) {
                    assert(bare(none) =~= none);
                    assert(written(done.actions) + none =~= bare(state.cache.take(kept))
                        + opened_with + seq![retimed(tag, 0)]);
                }
            }
        }
    }
    kept
}

/// At the end of the stream all that waits is written, in order.
pub proof fn finish_writes_the_rest(state: RecorderState)
    ensures
        written(finished(state).actions) == bare(state.cache),
{
    let begun = Run {
        state: RecorderState { cache: Seq::empty(), ..state },
        actions: Seq::empty(),
    };
    drained_writes(begun, state.cache, 0);
    assert(state.cache.skip(0) =~= state.cache);
    let run = drained(begun, state.cache, 0);
    assert(run.actions.push(Action::Ended).drop_last() =~= run.actions);
    assert(Seq::<Tag<Seq<u8>>>::empty() + bare(state.cache) =~= bare(state.cache));
}

// ---------------------------------------------------------------------------
// How a new file begins
// ---------------------------------------------------------------------------

/// What is remembered for new files stands outside the media time axis.
pub open spec fn sound(state: RecorderState) -> bool {
    &&& state.on_meta_data matches Some(tag) ==> !is_media(tag)
    &&& state.aac_sequence_header matches Some(tag) ==> !is_media(tag)
    &&& state.h264_sequence_header matches Some(tag) ==> !is_media(tag)
}

/// A new recorder is sound.
pub proof fn fresh_recorder_is_sound(segment: SegmentState)
    ensures
        sound(fresh_recorder(segment)),
{
}

/// Writing out keeps what is remembered.
proof fn written_out_keeps(run: Run, cache: Seq<Tag<Seq<u8>>>, i: int)
    ensures
        written_out(run, cache, i) matches Some(done) ==> {
            &&& done.state.on_meta_data == run.state.on_meta_data
            &&& done.state.aac_sequence_header == run.state.aac_sequence_header
            &&& done.state.h264_sequence_header == run.state.h264_sequence_header
        },
    decreases cache.len() - i,
{
    if i < cache.len() {
        let tag = cache[i];
        if let Some(next) = counted(put(run, tag, is_media(tag)), tag.header) {
            written_out_keeps(
                if is_media(tag) && tag.header.tag_type == TagType::Audio {
                    timed(next, tag.header)
                } else {
                    next
                },
                cache,
                i + 1,
            );
        }
    }
}

/// Every tag leaves the recorder sound.
pub proof fn recording_stays_sound(state: RecorderState, tag: Tag<Seq<u8>>, class: TagClass)
    requires
        sound(state),
        tag_class(tag.header, tag.body) == Ok::<TagClass, crate::flv::BodyFault>(class),
    ensures
        recorded(state, tag, class) matches Some(run) ==> sound(run.state),
{
    class_tells_media(tag.header, tag.body);
    let known = remembered(state, tag, class);
    assert(sound(known));
    match class {
        TagClass::Video { key: true, sequence_header: false } => {
            let time = tag.header.timestamp;
            let begun = Run {
                state: RecorderState { cache: Seq::empty(), ..positioned(known, time) },
                actions: Seq::empty(),
            };
            let _ = flushed_writes(begun, known.cache, 0);
            if let Some(run) = flushed(begun, known.cache, 0) {
                let broken = run.state.prev_video matches Some(prev) && timestamp_anomaly(
                    prev,
                    time,
                    run.state.segment.threshold_ms,
                );
                let called = Run {
                    state: RecorderState {
                        create_new: run.state.create_new || broken,
                        ..run.state
                    },
                    ..run
                };
                let placed = if called.state.segment.reached() || called.state.create_new {
                    split(called, time)
                } else {
                    called
                };
                let emptied = Run {
                    state: RecorderState { cache: Seq::empty(), ..placed.state },
                    ..placed
                };
                written_out_keeps(emptied, placed.state.cache, 0);
            }
        },
        _ => {},
    }
}

/// Writing tags, as actions.
pub open spec fn writes(tags: Seq<Tag<Seq<u8>>>) -> Seq<Action<Seq<u8>>> {
    tags.map_values(|t: Tag<Seq<u8>>| Action::Write(t))
}

/// Tags that stand outside the time axis are written as they are, at zero, and nothing else
/// changes but the size.
proof fn opening_is_written(run: Run, tags: Seq<Tag<Seq<u8>>>, i: int)
    requires
        0 <= i <= tags.len(),
        forall|k: int| 0 <= k < tags.len() ==> !is_media(#[trigger] tags[k]),
        forall|k: int| 0 <= k < tags.len() ==> (#[trigger] tags[k]).header.timestamp == 0,
    ensures
        written_out(run, tags, i) matches Some(done) ==> {
            &&& done.actions == run.actions + writes(tags.skip(i))
            &&& done.state.started == run.state.started
            &&& done.state.clock == run.state.clock
        },
    decreases tags.len() - i,
{
    if i >= tags.len() {
        assert(run.actions =~= run.actions + writes(tags.skip(i)));
    } else {
        let tag = tags[i];
        assert(!is_media(tag));
        assert(tag.header.timestamp == 0);
        assert(retimed(tag, 0) == tag);
        let step = put(run, tag, false);
        if let Some(next) = counted(step, tag.header) {
            opening_is_written(next, tags, i + 1);
            assert(run.actions.push(Action::Write(tag)) + writes(tags.skip(i + 1))
                =~= run.actions + writes(tags.skip(i)));
        }
    }
}

/// A key frame that splits ends the old file where it was started, opens the next, writes the
/// metadata and the decoder configurations that are known at time zero, and then starts the file
/// with itself, at time zero.
pub proof fn split_opens_a_playable_file(state: RecorderState, tag: Tag<Seq<u8>>)
    requires
        sound(state),
        splits(state, tag),
    ensures
        keyed(state, tag) matches Some(run) ==> {
            let begun = Run {
                state: RecorderState {
                    cache: Seq::empty(),
                    ..positioned(state, tag.header.timestamp)
                },
                actions: Seq::empty(),
            };
            let before = flushed(begun, state.cache, 0)->0;
            &&& run.actions == before.actions + (if before.state.started {
                seq![Action::Ended]
            } else {
                Seq::empty()
            }) + seq![Action::CreateNew] + writes(opening_tags(state)) + seq![
                Action::Started,
                Action::Write(retimed(tag, 0)),
            ]
            &&& run.state.started
            &&& run.state.cache.len() == 0
        },
{
    let time = tag.header.timestamp;
    let begun = Run {
        state: RecorderState { cache: Seq::empty(), ..positioned(state, time) },
        actions: Seq::empty(),
    };
    let _ = flushed_writes(begun, state.cache, 0);
    let run = flushed(begun, state.cache, 0)->0;
    let broken = run.state.prev_video matches Some(prev) && timestamp_anomaly(
        prev,
        time,
        run.state.segment.threshold_ms,
    );
    let called = Run {
        state: RecorderState { create_new: run.state.create_new || broken, ..run.state },
        ..run
    };
    let placed = split(called, time);
    let tags = opening_tags(state);
    assert(opening_tags(called.state) == tags);
    assert forall|k: int| 0 <= k < tags.len() implies !is_media(#[trigger] tags[k])
        && tags[k].header.timestamp == 0 by {
        let a = opening(state.on_meta_data);
        let b = opening(state.aac_sequence_header);
        let c = opening(state.h264_sequence_header);
        assert(tags == a + b + c);
    }
    let emptied = Run { state: RecorderState { cache: Seq::empty(), ..placed.state }, ..placed };
    opening_is_written(emptied, tags, 0);
    assert(tags.skip(0) =~= tags);
    written_out_writes(emptied, tags, 0);
    if let Some(opened) = written_out(emptied, tags, 0) {
        first_output_is_zero(time);
        if let Some(done) = counted(put(opened, tag, true), tag.header) {
            assert(done.actions =~= run.actions + (if run.state.started {
                seq![Action::Ended]
            } else {
                Seq::empty()
            }) + seq![Action::CreateNew] + writes(tags) + seq![
                Action::Started,
                Action::Write(retimed(tag, 0)),
            ]);
        }
    }
}

// ---------------------------------------------------------------------------
// When a new file begins
// ---------------------------------------------------------------------------

/// With the rule on regressions off, flushing never calls for a new file, and leaves the limits
/// alone.
proof fn flushed_without_rule(run: Run, cache: Seq<Tag<Seq<u8>>>, i: int)
    requires
        run.state.segment.threshold_ms == 0,
    ensures
        flushed(run, cache, i) matches Some(done) ==> {
            &&& done.state.create_new == run.state.create_new
            &&& done.state.segment.expected_time == run.state.segment.expected_time
            &&& done.state.segment.expected_size == run.state.segment.expected_size
            &&& done.state.segment.threshold_ms == 0
        },
    decreases cache.len() - i,
{
    if i < cache.len() {
        let tag = cache[i];
        assert(!breaks(run.state, tag));
        if let Some(next) = counted(put(run, tag, is_media(tag)), tag.header) {
            flushed_without_rule(
                if is_media(tag) {
                    timed(next, tag.header)
                } else {
                    next
                },
                cache,
                i + 1,
            );
        }
    }
}

/// Without limits, with the rule on regressions off and no other codec, a recording stays in one
/// file.
pub proof fn without_a_cause_there_is_no_split(state: RecorderState, tag: Tag<Seq<u8>>)
    requires
        state.segment.expected_time is None,
        state.segment.expected_size is None,
        state.segment.threshold_ms == 0,
        !state.create_new,
    ensures
        !splits(state, tag),
{
    let begun = Run {
        state: RecorderState {
            cache: Seq::empty(),
            ..positioned(state, tag.header.timestamp)
        },
        actions: Seq::empty(),
    };
    flushed_without_rule(begun, state.cache, 0);
}

/// The recorder when the tags that wait have been written before a key frame, if they can be
/// counted.
pub open spec fn caught_up(state: RecorderState, tag: Tag<Seq<u8>>) -> Option<Run> {
    flushed(
        Run {
            state: RecorderState {
                cache: Seq::empty(),
                ..positioned(state, tag.header.timestamp)
            },
            actions: Seq::empty(),
        },
        state.cache,
        0,
    )
}

/// A key frame that falls behind the video written before it by the threshold begins a new file,
/// unless the rule is off or that video stands at zero.
pub proof fn a_large_regression_splits(state: RecorderState, tag: Tag<Seq<u8>>, prev: u32)
    requires
        caught_up(state, tag) matches Some(run) && run.state.prev_video == Some(prev)
            && run.state.segment.threshold_ms > 0 && prev - tag.header.timestamp
            >= run.state.segment.threshold_ms,
        prev != 0,
    ensures
        splits(state, tag),
{
}

/// From `i` on, no media tag falls behind the one before it in its track.
pub open spec fn steady(
    video: Option<u32>,
    audio: Option<u32>,
    tags: Seq<Tag<Seq<u8>>>,
    i: int,
) -> bool
    decreases tags.len() - i,
{
    if i >= tags.len() {
        true
    } else {
        let header = tags[i].header;
        if !is_media(tags[i]) {
            steady(video, audio, tags, i + 1)
        } else {
            match header.tag_type {
                TagType::Video => {
                    &&& video matches Some(prev) ==> prev <= header.timestamp
                    &&& steady(Some(header.timestamp), audio, tags, i + 1)
                },
                TagType::Audio => {
                    &&& audio matches Some(prev) ==> prev <= header.timestamp
                    &&& steady(video, Some(header.timestamp), tags, i + 1)
                },
                TagType::Script => steady(video, audio, tags, i + 1),
            }
        }
    }
}

/// Tags that are steady call for no new file, and leave the rest steady.
proof fn steady_tags_are_written(run: Run, cache: Seq<Tag<Seq<u8>>>, key: Tag<Seq<u8>>, i: int)
    requires
        0 <= i <= cache.len(),
        steady(run.state.prev_video, run.state.prev_audio, cache.push(key), i),
    ensures
        flushed(run, cache, i) matches Some(out) ==> out.state.create_new == run.state.create_new
            && steady(
            out.state.prev_video,
            out.state.prev_audio,
            cache.push(key),
            cache.len() as int,
        ),
    decreases cache.len() - i,
{
    if i < cache.len() {
        let tag = cache[i];
        assert(cache.push(key)[i] == tag);
        assert(!breaks(run.state, tag));
        if let Some(next) = counted(put(run, tag, is_media(tag)), tag.header) {
            let after = if is_media(tag) {
                timed(next, tag.header)
            } else {
                next
            };
            steady_tags_are_written(after, cache, key, i + 1);
        }
    }
}

/// A key frame splits only where a limit or another codec asks for it, as long as no tag falls
/// behind its own track: however far the sound has run ahead of the pictures, and whatever the
/// times of metadata and decoder configurations.
pub proof fn sound_running_ahead_does_not_split(state: RecorderState, tag: Tag<Seq<u8>>)
    requires
        tag.header.tag_type == TagType::Video,
        is_media(tag),
        steady(state.prev_video, state.prev_audio, state.cache.push(tag), 0),
        !state.create_new,
        splits(state, tag),
    ensures
        caught_up(state, tag) matches Some(run) && run.state.segment.reached(),
{
    let begun = Run {
        state: RecorderState {
            cache: Seq::empty(),
            ..positioned(state, tag.header.timestamp)
        },
        actions: Seq::empty(),
    };
    steady_tags_are_written(begun, state.cache, tag, 0);
    assert(state.cache.push(tag)[state.cache.len() as int] == tag);
}

/// Another decoder configuration of the video makes the next key frame split.
pub proof fn another_codec_splits(state: RecorderState, config: Tag<Seq<u8>>, key: bool)
    requires
        state.h264_sequence_header matches Some(known) && known.body != config.body,
    ensures
        remembered(state, config, TagClass::Video { key, sequence_header: true }).create_new,
{
}

} // verus!
