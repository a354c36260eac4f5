//! What holds of the files of an FLV recording: how large and how long they are, why one ends,
//! what the next begins with, and that nothing is lost between them.

use crate::flv::{class_tells_media, tag_class, BodyFault, TagClass, TagHeader, TagType};
use crate::httpflv::{breaks, clock_after, clock_output, counted, drained, finished, flushed, fresh_clock, is_media, keyed, opening, opening_tags, positioned, put, recorded, remembered, retimed, split, timed, written_out, Action, RecorderState, Run, Tag};
use crate::httpflv_laws::{after_tags, bare, finish_writes_the_rest, key_frames_keep_order, recording, recording_stays_sound, sound, split_opens_a_playable_file, splits, without_a_cause_there_is_no_split, writes, written};
use crate::segment::SegmentState;
use crate::timestamp::timestamp_anomaly;
use vstd::prelude::*;

verus! {

// ---------------------------------------------------------------------------
// The size of a file
// ---------------------------------------------------------------------------

/// The bytes in the present file after `actions`, where it had `before`. A new file has thirteen,
/// its header and the length field behind it. A tag takes eleven for its header, its body, and
/// four for the length field behind it.
pub open spec fn bytes_behind(before: int, actions: Seq<Action<Seq<u8>>>) -> int
    decreases actions.len(),
{
    if actions.len() == 0 {
        before
    } else {
        match actions.last() {
            Action::CreateNew => 13,
            Action::Write(tag) => bytes_behind(before, actions.drop_last()) + 11
                + tag.header.data_size + 4,
            _ => bytes_behind(before, actions.drop_last()),
        }
    }
}

/// How many files `actions` open.
pub open spec fn files_opened(actions: Seq<Action<Seq<u8>>>) -> nat
    decreases actions.len(),
{
    if actions.len() == 0 {
        0
    } else {
        files_opened(actions.drop_last()) + (if actions.last() is CreateNew {
            1nat
        } else {
            0nat
        })
    }
}

proof fn behind_others(before: int, first: Seq<Action<Seq<u8>>>, second: Seq<Action<Seq<u8>>>)
    ensures
        bytes_behind(before, first + second) == bytes_behind(bytes_behind(before, first), second),
        files_opened(first + second) == files_opened(first) + files_opened(second),
    decreases second.len(),
{
    if second.len() == 0 {
        assert(first + second =~= first);
    } else {
        behind_others(before, first, second.drop_last());
        assert((first + second).drop_last() =~= first + second.drop_last());
    }
}

/// The limits of two segments are the same.
spec fn same_limits(a: SegmentState, b: SegmentState) -> bool {
    &&& a.expected_time == b.expected_time
    &&& a.expected_size == b.expected_size
    &&& a.threshold_ms == b.threshold_ms
}

/// The same in the place on the time axis too.
spec fn same_place(a: SegmentState, b: SegmentState) -> bool {
    same_limits(a, b) && a.start == b.start && a.current == b.current
}

proof fn put_counts(before: int, run: Run, tag: Tag<Seq<u8>>, media: bool)
    requires
        run.state.segment.size == bytes_behind(before, run.actions),
    ensures
        counted(put(run, tag, media), tag.header) matches Some(next) ==> {
            &&& next.state.segment.size == bytes_behind(before, next.actions)
            &&& next.state.segment.size == run.state.segment.size + 11 + tag.header.data_size + 4
            &&& same_place(next.state.segment, run.state.segment)
            &&& files_opened(next.actions) == files_opened(run.actions)
            &&& next.state.prev_video == run.state.prev_video
            &&& next.state.create_new == run.state.create_new
        },
{
    let begun = if media && !run.state.started {
        run.actions.push(Action::Started)
    } else {
        run.actions
    };
    assert(run.actions.push(Action::Started).drop_last() =~= run.actions);
    assert(bytes_behind(before, begun) == bytes_behind(before, run.actions));
    assert(files_opened(begun) == files_opened(run.actions));
    assert(put(run, tag, media).actions.drop_last() =~= begun);
}

/// The bytes that tags take in a file.
pub open spec fn tags_bytes(tags: Seq<Tag<Seq<u8>>>, i: int) -> int
    decreases tags.len() - i,
{
    if i >= tags.len() {
        0
    } else {
        11 + tags[i].header.data_size + 4 + tags_bytes(tags, i + 1)
    }
}

/// From `i` on, a media tag falls behind the one before it in its track, by the threshold or
/// more. Nothing falls behind where the threshold is zero, nor behind a time of zero.
pub open spec fn falls_behind(
    video: Option<u32>,
    audio: Option<u32>,
    tags: Seq<Tag<Seq<u8>>>,
    i: int,
    threshold_ms: u32,
) -> bool
    decreases tags.len() - i,
{
    if i >= tags.len() || threshold_ms == 0 {
        false
    } else if !is_media(tags[i]) {
        falls_behind(video, audio, tags, i + 1, threshold_ms)
    } else {
        let time = tags[i].header.timestamp;
        match tags[i].header.tag_type {
            TagType::Video => {
                ||| video matches Some(prev) && prev > 0 && time + threshold_ms <= prev
                ||| falls_behind(Some(time), audio, tags, i + 1, threshold_ms)
            },
            TagType::Audio => {
                ||| audio matches Some(prev) && prev > 0 && time + threshold_ms <= prev
                ||| falls_behind(video, Some(time), tags, i + 1, threshold_ms)
            },
            TagType::Script => falls_behind(video, audio, tags, i + 1, threshold_ms),
        }
    }
}

proof fn flushed_counts(
    before: int,
    run: Run,
    cache: Seq<Tag<Seq<u8>>>,
    i: int,
    key: Tag<Seq<u8>>,
)
    requires
        0 <= i <= cache.len(),
        run.state.segment.size == bytes_behind(before, run.actions),
    ensures
        flushed(run, cache, i) matches Some(done) ==> {
            let threshold = run.state.segment.threshold_ms;
            let all = cache.push(key);
            &&& done.state.segment.size == bytes_behind(before, done.actions)
            &&& same_place(done.state.segment, run.state.segment)
            &&& files_opened(done.actions) == files_opened(run.actions)
            &&& run.state.prev_video is Some ==> done.state.prev_video is Some
            &&& run.state.create_new ==> done.state.create_new
            &&& done.state.create_new && !run.state.create_new ==> falls_behind(
                run.state.prev_video,
                run.state.prev_audio,
                all,
                i,
                threshold,
            )
            &&& !done.state.create_new ==> {
                &&& done.state.segment.size == run.state.segment.size + tags_bytes(cache, i)
                &&& falls_behind(
                    run.state.prev_video,
                    run.state.prev_audio,
                    all,
                    i,
                    threshold,
                ) == falls_behind(
                    done.state.prev_video,
                    done.state.prev_audio,
                    all,
                    cache.len() as int,
                    threshold,
                )
            }
        },
    decreases cache.len() - i,
{
    if i < cache.len() {
        let tag = cache[i];
        assert(cache.push(key)[i] == tag);
        if !breaks(run.state, tag) {
            put_counts(before, run, tag, is_media(tag));
            if let Some(next) = counted(put(run, tag, is_media(tag)), tag.header) {
                flushed_counts(
                    before,
                    if is_media(tag) {
                        timed(next, tag.header)
                    } else {
                        next
                    },
                    cache,
                    i + 1,
                    key,
                );
            }
        }
    }
}

proof fn written_out_counts(before: int, run: Run, cache: Seq<Tag<Seq<u8>>>, i: int)
    requires
        run.state.segment.size == bytes_behind(before, run.actions),
    ensures
        written_out(run, cache, i) matches Some(done) ==> {
            &&& done.state.segment.size == bytes_behind(before, done.actions)
            &&& same_place(done.state.segment, run.state.segment)
            &&& files_opened(done.actions) == files_opened(run.actions)
            &&& done.state.create_new == run.state.create_new
        },
    decreases cache.len() - i,
{
    if i < cache.len() {
        let tag = cache[i];
        put_counts(before, run, tag, is_media(tag));
        if let Some(next) = counted(put(run, tag, is_media(tag)), tag.header) {
            written_out_counts(
                before,
                if is_media(tag) && tag.header.tag_type == TagType::Audio {
                    timed(next, tag.header)
                } else {
                    next
                },
                cache,
                i + 1,
            );
        }
    }
}

proof fn split_counts(before: int, run: Run, time: u32)
    ensures
        split(run, time).state.segment.size == bytes_behind(before, split(run, time).actions),
        same_limits(split(run, time).state.segment, run.state.segment),
        split(run, time).state.segment.start == time * 1_000_000,
        split(run, time).state.segment.current == run.state.segment.current,
        files_opened(split(run, time).actions) == files_opened(run.actions) + 1,
        !split(run, time).state.create_new,
        !split(run, time).state.started,
{
    let ended = if run.state.started {
        run.actions.push(Action::Ended)
    } else {
        run.actions
    };
    assert(run.actions.push(Action::Ended).drop_last() =~= run.actions);
    assert(files_opened(ended) == files_opened(run.actions));
    assert(ended.push(Action::CreateNew).drop_last() =~= ended);
}

/// A limit is reached at a key frame at `time`, once the tags before it have been written: the
/// bytes reach the size, or the time since the first key frame of the file reaches the length.
pub open spec fn limit_reached(state: RecorderState, time: u32) -> bool {
    let from = if state.prev_video is None && time > 0 {
        time * 1_000_000
    } else {
        state.segment.start as int
    };
    ||| state.segment.expected_size matches Some(limit) && state.segment.size + tags_bytes(
        state.cache,
        0,
    ) >= limit
    ||| state.segment.expected_time matches Some(limit) && (limit == 0 || time * 1_000_000 - from
        >= limit)
}

/// A key frame opens one new file or none: one where a limit is reached, where another codec has
/// come, or where a tag or the frame itself falls behind its track. What is counted is what
/// stands in the file, and a new file is timed from the frame that opens it.
pub proof fn why_a_key_frame_opens_a_file(state: RecorderState, tag: Tag<Seq<u8>>)
    requires
        is_media(tag),
        tag.header.tag_type == TagType::Video,
    ensures
        keyed(state, tag) matches Some(run) ==> {
            let time = tag.header.timestamp;
            let opens = state.create_new || falls_behind(
                state.prev_video,
                state.prev_audio,
                state.cache.push(tag),
                0,
                state.segment.threshold_ms,
            ) || limit_reached(state, time);
            &&& files_opened(run.actions) == if opens {
                1nat
            } else {
                0nat
            }
            &&& run.state.segment.size == bytes_behind(state.segment.size as int, run.actions)
            &&& run.state.segment.current == time * 1_000_000
            &&& opens ==> run.state.segment.start == time * 1_000_000
            &&& opens ==> run.state.prev_video == Some(time)
            &&& !run.state.create_new
            &&& !opens && (state.prev_video is Some || time == 0) ==> run.state.segment.start
                == state.segment.start
            &&& !opens && state.prev_video is None && time > 0 ==> run.state.segment.start == time
                * 1_000_000
            &&& state.prev_video is Some ==> run.state.prev_video is Some
            &&& run.state.segment.expected_time == state.segment.expected_time
            &&& run.state.segment.expected_size == state.segment.expected_size
            &&& run.state.segment.threshold_ms == state.segment.threshold_ms
        },
{
    let time = tag.header.timestamp;
    let size = state.segment.size as int;
    let begun = Run {
        state: RecorderState { cache: Seq::empty(), ..positioned(state, time) },
        actions: Seq::empty(),
    };
    let all = state.cache.push(tag);
    flushed_counts(size, begun, state.cache, 0, tag);
    assert(all[state.cache.len() as int] == tag);
    if let Some(run) = flushed(begun, state.cache, 0) {
        assert(files_opened(run.actions) == 0);
        let broken = run.state.prev_video matches Some(prev) && timestamp_anomaly(
            prev,
            time,
            run.state.segment.threshold_ms,
        );
        assert(falls_behind(
            Some(time),
            run.state.prev_audio,
            all,
            all.len() as int,
            run.state.segment.threshold_ms,
        ) == false);
        assert(falls_behind(
            run.state.prev_video,
            run.state.prev_audio,
            all,
            state.cache.len() as int,
            run.state.segment.threshold_ms,
        ) == broken);
        let called = Run {
            state: RecorderState { create_new: run.state.create_new || broken, ..run.state },
            ..run
        };
        split_counts(size, called, time);
        let placed = if called.state.segment.reached() || called.state.create_new {
            split(called, time)
        } else {
            called
        };
        let emptied = Run {
            state: RecorderState { cache: Seq::empty(), ..placed.state },
            ..placed
        };
        written_out_counts(size, emptied, placed.state.cache, 0);
        if let Some(opened) = written_out(emptied, placed.state.cache, 0) {
            put_counts(size, opened, tag, true);
        }
    }
}

/// What the recorder counts against the size limit is what stands in the present file, from its
/// header on, after every sequence of tags; and the limits stay what they were.
pub proof fn the_size_is_that_of_the_file(segment: SegmentState, tags: Seq<Tag<Seq<u8>>>)
    ensures
        after_tags(segment, tags) matches Some(run) ==> {
            &&& run.state.segment.size == bytes_behind(13, run.actions)
            &&& run.state.segment.expected_time == segment.expected_time
            &&& run.state.segment.expected_size == segment.expected_size
            &&& run.state.segment.threshold_ms == segment.threshold_ms
        },
    decreases tags.len(),
{
    if tags.len() > 0 {
        the_size_is_that_of_the_file(segment, tags.drop_last());
        let tag = tags.last();
        if let (Some(before), Ok(class)) = (
            after_tags(segment, tags.drop_last()),
            tag_class(tag.header, tag.body),
        ) {
            if let Some(run) = recorded(before.state, tag, class) {
                let known = remembered(before.state, tag, class);
                if class == (TagClass::Video { key: true, sequence_header: false }) {
                    class_tells_media(tag.header, tag.body);
                    why_a_key_frame_opens_a_file(known, tag);
                }
                behind_others(13, before.actions, run.actions);
            }
        }
    }
}

/// The source time of the last tag at which a file was opened, if one was.
pub open spec fn last_opened_at(segment: SegmentState, tags: Seq<Tag<Seq<u8>>>) -> Option<u32>
    decreases tags.len(),
{
    if tags.len() == 0 {
        None
    } else {
        match (after_tags(segment, tags.drop_last()), after_tags(segment, tags)) {
            (Some(before), Some(run)) => if files_opened(run.actions) > files_opened(
                before.actions,
            ) {
                Some(tags.last().header.timestamp)
            } else {
                last_opened_at(segment, tags.drop_last())
            },
            _ => None,
        }
    }
}

/// A file that was opened by a key frame is timed from that frame until the next is opened.
pub proof fn files_are_timed_from_their_key_frame(segment: SegmentState, tags: Seq<Tag<Seq<u8>>>)
    ensures
        after_tags(segment, tags) matches Some(run) ==> (last_opened_at(segment, tags) matches Some(
            time,
        ) ==> run.state.segment.start == time * 1_000_000 && run.state.prev_video is Some),
    decreases tags.len(),
{
    if tags.len() > 0 {
        files_are_timed_from_their_key_frame(segment, tags.drop_last());
        let tag = tags.last();
        if let (Some(before), Ok(class)) = (
            after_tags(segment, tags.drop_last()),
            tag_class(tag.header, tag.body),
        ) {
            if let Some(run) = recorded(before.state, tag, class) {
                let known = remembered(before.state, tag, class);
                if class == (TagClass::Video { key: true, sequence_header: false }) {
                    class_tells_media(tag.header, tag.body);
                    why_a_key_frame_opens_a_file(known, tag);
                }
                behind_others(13, before.actions, run.actions);
            }
        }
    }
}

/// Where nothing but a size limit asks for it, a key frame opens a new file exactly where the bytes
/// of the present one, those of the waiting tags included, have reached the limit.
pub proof fn files_are_cut_at_their_size(
    segment: SegmentState,
    tags: Seq<Tag<Seq<u8>>>,
    key: Tag<Seq<u8>>,
)
    requires
        tag_class(key.header, key.body) == Ok::<TagClass, BodyFault>(
            (TagClass::Video { key: true, sequence_header: false }),
        ),
        segment.expected_time is None,
        segment.threshold_ms == 0,
    ensures
        after_tags(segment, tags) matches Some(before) ==> (after_tags(
            segment,
            tags.push(key),
        ) matches Some(run) ==> (!before.state.create_new ==> {
            let bytes = bytes_behind(13, before.actions) + tags_bytes(before.state.cache, 0);
            let full = segment.expected_size matches Some(limit) && bytes >= limit;
            files_opened(run.actions) == files_opened(before.actions) + (if full {
                1nat
            } else {
                0nat
            })
        })),
{
    assert(tags.push(key).drop_last() =~= tags);
    the_size_is_that_of_the_file(segment, tags);
    class_tells_media(key.header, key.body);
    if let Some(before) = after_tags(segment, tags) {
        let class = TagClass::Video { key: true, sequence_header: false };
        assert(remembered(before.state, key, class) == before.state);
        why_a_key_frame_opens_a_file(before.state, key);
        if let Some(run) = recorded(before.state, key, class) {
            behind_others(13, before.actions, run.actions);
        }
    }
}

/// Where nothing but a time limit asks for it, a key frame opens a new file exactly where it comes
/// as long after the key frame that opened the present one as the limit says.
pub proof fn files_are_cut_at_their_length(
    segment: SegmentState,
    tags: Seq<Tag<Seq<u8>>>,
    key: Tag<Seq<u8>>,
    opened: u32,
    limit: nat,
)
    requires
        tag_class(key.header, key.body) == Ok::<TagClass, BodyFault>(
            (TagClass::Video { key: true, sequence_header: false }),
        ),
        segment.expected_time == Some(limit),
        limit > 0,
        segment.expected_size is None,
        segment.threshold_ms == 0,
        last_opened_at(segment, tags) == Some(opened),
    ensures
        after_tags(segment, tags) matches Some(before) ==> (after_tags(
            segment,
            tags.push(key),
        ) matches Some(run) ==> (!before.state.create_new ==> files_opened(run.actions)
            == files_opened(before.actions) + (if (key.header.timestamp - opened) * 1_000_000
            >= limit {
            1nat
        } else {
            0nat
        }))),
{
    assert(tags.push(key).drop_last() =~= tags);
    the_size_is_that_of_the_file(segment, tags);
    files_are_timed_from_their_key_frame(segment, tags);
    class_tells_media(key.header, key.body);
    if let Some(before) = after_tags(segment, tags) {
        let class = TagClass::Video { key: true, sequence_header: false };
        assert(remembered(before.state, key, class) == before.state);
        why_a_key_frame_opens_a_file(before.state, key);
        if let Some(run) = recorded(before.state, key, class) {
            behind_others(13, before.actions, run.actions);
        }
    }
}

// ---------------------------------------------------------------------------
// What a file begins with
// ---------------------------------------------------------------------------

/// What every file has to begin with.
pub enum Opener {
    Metadata,
    AudioConfiguration,
    VideoConfiguration,
}

/// A tag is of this kind.
pub open spec fn opens_with(tag: Tag<Seq<u8>>, kind: Opener) -> bool {
    match (tag_class(tag.header, tag.body), kind) {
        (Ok(TagClass::Script), Opener::Metadata) => true,
        (Ok(TagClass::Audio { sequence_header }), Opener::AudioConfiguration) => sequence_header,
        (Ok(TagClass::Video { sequence_header, .. }), Opener::VideoConfiguration) => {
            sequence_header
        },
        _ => false,
    }
}

/// The last tag of a kind.
pub open spec fn latest(tags: Seq<Tag<Seq<u8>>>, kind: Opener) -> Option<Tag<Seq<u8>>>
    decreases tags.len(),
{
    if tags.len() == 0 {
        None
    } else if opens_with(tags.last(), kind) {
        Some(tags.last())
    } else {
        latest(tags.drop_last(), kind)
    }
}

proof fn flushed_remembers(run: Run, cache: Seq<Tag<Seq<u8>>>, i: int)
    ensures
        flushed(run, cache, i) matches Some(done) ==> {
            &&& done.state.on_meta_data == run.state.on_meta_data
            &&& done.state.aac_sequence_header == run.state.aac_sequence_header
            &&& done.state.h264_sequence_header == run.state.h264_sequence_header
        },
    decreases cache.len() - i,
{
    if i < cache.len() && !breaks(run.state, cache[i]) {
        let tag = cache[i];
        if let Some(next) = counted(put(run, tag, is_media(tag)), tag.header) {
            flushed_remembers(
                if is_media(tag) {
                    timed(next, tag.header)
                } else {
                    next
                },
                cache,
                i + 1,
            );
        }
    }
}

proof fn written_out_remembers(run: Run, cache: Seq<Tag<Seq<u8>>>, i: int)
    ensures
        written_out(run, cache, i) matches Some(done) ==> {
            &&& done.state.on_meta_data == run.state.on_meta_data
            &&& done.state.aac_sequence_header == run.state.aac_sequence_header
            &&& done.state.h264_sequence_header == run.state.h264_sequence_header
        },
    decreases cache.len() - i,
{
    if i < cache.len() {
        let tag = cache[i];
        if let Some(next) = counted(put(run, tag, is_media(tag)), tag.header) {
            written_out_remembers(
                if is_media(tag) && tag.header.tag_type == TagType::Audio {
                    timed(next, tag.header)
                } else {
                    next
                },
                cache,
                i + 1,
            );
        }
    }
}

proof fn keyed_remembers(state: RecorderState, tag: Tag<Seq<u8>>)
    ensures
        keyed(state, tag) matches Some(run) ==> {
            &&& run.state.on_meta_data == state.on_meta_data
            &&& run.state.aac_sequence_header == state.aac_sequence_header
            &&& run.state.h264_sequence_header == state.h264_sequence_header
        },
{
    let time = tag.header.timestamp;
    let begun = Run {
        state: RecorderState { cache: Seq::empty(), ..positioned(state, time) },
        actions: Seq::empty(),
    };
    flushed_remembers(begun, state.cache, 0);
    if let Some(run) = flushed(begun, state.cache, 0) {
        let broken = run.state.prev_video matches Some(prev) && timestamp_anomaly(
            prev,
            time,
            run.state.segment.threshold_ms,
        );
        let called = Run {
            state: RecorderState { create_new: run.state.create_new || broken, ..run.state },
            ..run
        };
        let placed = if called.state.segment.reached() || called.state.create_new {
            split(called, time)
        } else {
            called
        };
        let emptied = Run {
            state: RecorderState { cache: Seq::empty(), ..placed.state },
            ..placed
        };
        written_out_remembers(emptied, placed.state.cache, 0);
    }
}

/// What is kept for the files to come is the last metadata and the last decoder configuration of
/// each track that the stream has sent.
pub proof fn the_latest_is_remembered(segment: SegmentState, tags: Seq<Tag<Seq<u8>>>)
    ensures
        after_tags(segment, tags) matches Some(run) ==> {
            &&& run.state.on_meta_data == latest(tags, Opener::Metadata)
            &&& run.state.aac_sequence_header == latest(tags, Opener::AudioConfiguration)
            &&& run.state.h264_sequence_header == latest(tags, Opener::VideoConfiguration)
        },
    decreases tags.len(),
{
    if tags.len() > 0 {
        the_latest_is_remembered(segment, tags.drop_last());
        let tag = tags.last();
        if let (Some(before), Ok(class)) = (
            after_tags(segment, tags.drop_last()),
            tag_class(tag.header, tag.body),
        ) {
            keyed_remembers(remembered(before.state, tag, class), tag);
        }
    }
}

/// A file that a key frame opens begins with the metadata, the audio and the video configuration
/// that came last, in this order, as far as there are any, at time zero; then comes the frame, at
/// time zero.
pub proof fn new_files_begin_with_the_latest(
    segment: SegmentState,
    tags: Seq<Tag<Seq<u8>>>,
    key: Tag<Seq<u8>>,
)
    requires
        tag_class(key.header, key.body) == Ok::<TagClass, BodyFault>(
            (TagClass::Video { key: true, sequence_header: false }),
        ),
    ensures
        after_tags(segment, tags) matches Some(before) ==> (after_tags(
            segment,
            tags.push(key),
        ) matches Some(run) ==> (splits(before.state, key) ==> {
            let first = at_zero(latest(tags, Opener::Metadata)) + at_zero(
                latest(tags, Opener::AudioConfiguration),
            ) + at_zero(latest(tags, Opener::VideoConfiguration));
            let whole = seq![Action::CreateNew] + first + seq![
                Action::Started,
                Action::Write(Tag {
                    header: TagHeader { timestamp: 0, ..key.header },
                    body: key.body,
                    previous_size: key.previous_size,
                }),
            ];
            &&& whole.len() <= run.actions.len()
            &&& run.actions.skip(run.actions.len() - whole.len()) == whole
        })),
{
    assert(tags.push(key).drop_last() =~= tags);
    if let Some(before) = after_tags(segment, tags) {
        let class = TagClass::Video { key: true, sequence_header: false };
        assert(remembered(before.state, key, class) == before.state);
        if let Some(run) = recorded(before.state, key, class) {
            if splits(before.state, key) {
                the_latest_is_remembered(segment, tags);
                recording_so_far_is_sound(segment, tags);
                split_opens_a_playable_file(before.state, key);
                let state = before.state;
                let a = at_zero(state.on_meta_data);
                let b = at_zero(state.aac_sequence_header);
                let c = at_zero(state.h264_sequence_header);
                let first = a + b + c;
                assert(writes(opening_tags(state)) =~= first) by {
                    assert(writes(opening(state.on_meta_data)) =~= a);
                    assert(writes(opening(state.aac_sequence_header)) =~= b);
                    assert(writes(opening(state.h264_sequence_header)) =~= c);
                }
                let frame = Action::Write(retimed(key, 0));
                let whole = seq![Action::CreateNew] + first + seq![Action::Started, frame];
                let all = before.actions + run.actions;
                assert(all.skip(all.len() - whole.len()) =~= whole);
            }
        }
    }
}

/// A tag, if there is one, written at time zero.
pub open spec fn at_zero(tag: Option<Tag<Seq<u8>>>) -> Seq<Action<Seq<u8>>> {
    match tag {
        Some(t) => seq![
            Action::Write(Tag {
                header: TagHeader { timestamp: 0, ..t.header },
                body: t.body,
                previous_size: t.previous_size,
            }),
        ],
        None => Seq::empty(),
    }
}

/// After any tags the recorder is sound.
proof fn recording_so_far_is_sound(segment: SegmentState, tags: Seq<Tag<Seq<u8>>>)
    ensures
        after_tags(segment, tags) matches Some(run) ==> sound(run.state),
    decreases tags.len(),
{
    if tags.len() > 0 {
        recording_so_far_is_sound(segment, tags.drop_last());
        let tag = tags.last();
        if let (Some(before), Ok(class)) = (
            after_tags(segment, tags.drop_last()),
            tag_class(tag.header, tag.body),
        ) {
            recording_stays_sound(before.state, tag, class);
        }
    }
}

// ---------------------------------------------------------------------------
// Nothing is lost
// ---------------------------------------------------------------------------

/// What is written of a tag is the tag, at another time.
pub proof fn only_the_time_is_changed(tag: Tag<Seq<u8>>, time: u32)
    ensures
        retimed(tag, time).body == tag.body,
        retimed(tag, time).previous_size == tag.previous_size,
        retimed(tag, time).header.tag_type == tag.header.tag_type,
        retimed(tag, time).header.data_size == tag.header.data_size,
        retimed(tag, time).header.stream_id == tag.header.stream_id,
        retimed(tag, time).header.timestamp == time,
{
}

proof fn written_behind(first: Seq<Action<Seq<u8>>>, second: Seq<Action<Seq<u8>>>)
    ensures
        written(first + second) == written(first) + written(second),
    decreases second.len(),
{
    if second.len() == 0 {
        assert(first + second =~= first);
        assert(written(first) =~= written(first) + written(second));
    } else {
        written_behind(first, second.drop_last());
        assert((first + second).drop_last() =~= first + second.drop_last());
        assert(written(first + second) =~= written(first) + written(second));
    }
}

/// No two video configurations differ.
pub open spec fn one_codec(tags: Seq<Tag<Seq<u8>>>) -> bool {
    forall|i: int, j: int|
        0 <= i < tags.len() && 0 <= j < tags.len() && opens_with(
            #[trigger] tags[i],
            Opener::VideoConfiguration,
        ) && opens_with(#[trigger] tags[j], Opener::VideoConfiguration) ==> tags[i].body
            == tags[j].body
}

proof fn latest_is_among(tags: Seq<Tag<Seq<u8>>>, kind: Opener)
    ensures
        latest(tags, kind) matches Some(tag) ==> exists|i: int|
            0 <= i < tags.len() && #[trigger] tags[i] == tag && opens_with(tag, kind),
    decreases tags.len(),
{
    if tags.len() > 0 {
        latest_is_among(tags.drop_last(), kind);
        if opens_with(tags.last(), kind) {
            assert(tags[tags.len() - 1] == tags.last());
        } else if let Some(tag) = latest(tags.drop_last(), kind) {
            let i = choose|i: int|
                0 <= i < tags.drop_last().len() && #[trigger] tags.drop_last()[i] == tag;
            assert(tags[i] == tag);
        }
    }
}

/// So far all tags of an undisturbed recording are written or wait, in order.
proof fn nothing_is_lost_so_far(segment: SegmentState, tags: Seq<Tag<Seq<u8>>>)
    requires
        segment.expected_time is None,
        segment.expected_size is None,
        segment.threshold_ms == 0,
        one_codec(tags),
    ensures
        after_tags(segment, tags) matches Some(run) ==> {
            &&& !run.state.create_new
            &&& written(run.actions) + bare(run.state.cache) == bare(tags)
            &&& files_opened(run.actions) == 0
        },
    decreases tags.len(),
{
    if tags.len() == 0 {
        assert(bare(tags) =~= Seq::<Tag<Seq<u8>>>::empty());
        assert(bare(Seq::<Tag<Seq<u8>>>::empty()) =~= Seq::<Tag<Seq<u8>>>::empty());
    } else {
        let fewer = tags.drop_last();
        let tag = tags.last();
        assert(one_codec(fewer)) by {
            assert forall|i: int, j: int|
                0 <= i < fewer.len() && 0 <= j < fewer.len() && opens_with(
                    #[trigger] fewer[i],
                    Opener::VideoConfiguration,
                ) && opens_with(
                    #[trigger] fewer[j],
                    Opener::VideoConfiguration,
                ) implies fewer[i].body == fewer[j].body by {
                assert(tags[i] == fewer[i] && tags[j] == fewer[j]);
            }
        }
        nothing_is_lost_so_far(segment, fewer);
        the_size_is_that_of_the_file(segment, fewer);
        the_latest_is_remembered(segment, fewer);
        latest_is_among(fewer, Opener::VideoConfiguration);
        assert(bare(tags) =~= bare(fewer).push(retimed(tag, 0)));
        if let (Some(before), Ok(class)) = (
            after_tags(segment, fewer),
            tag_class(tag.header, tag.body),
        ) {
            let known = remembered(before.state, tag, class);
            assert(!known.create_new) by {
                if opens_with(tag, Opener::VideoConfiguration) {
                    assert(tags[tags.len() - 1] == tag);
                    if let Some(old) = latest(fewer, Opener::VideoConfiguration) {
                        let i = choose|i: int|
                            0 <= i < fewer.len() && #[trigger] fewer[i] == old && opens_with(
                                old,
                                Opener::VideoConfiguration,
                            );
                        assert(tags[i] == old);
                    }
                }
            }
            if let Some(run) = recorded(before.state, tag, class) {
                written_behind(before.actions, run.actions);
                behind_others(13, before.actions, run.actions);
                if class == (TagClass::Video { key: true, sequence_header: false }) {
                    class_tells_media(tag.header, tag.body);
                    without_a_cause_there_is_no_split(known, tag);
                    let kept = key_frames_keep_order(known, tag);
                    assert(known.cache.take(kept) =~= known.cache);
                    why_a_key_frame_opens_a_file(known, tag);
                    no_rule_nothing_behind(
                        known.prev_video,
                        known.prev_audio,
                        known.cache.push(tag),
                    );
                    let all = written(run.actions) + bare(run.state.cache);
                    assert(all =~= bare(known.cache) + seq![retimed(tag, 0)]);
                    assert(written(before.actions + run.actions) + bare(run.state.cache)
                        =~= written(before.actions) + all);
                    assert(written(before.actions) + all =~= bare(fewer).push(retimed(tag, 0)));
                } else {
                    assert(bare(known.cache.push(tag)) =~= bare(known.cache).push(
                        retimed(tag, 0),
                    ));
                    assert(written(run.actions) =~= Seq::<Tag<Seq<u8>>>::empty());
                    assert(written(before.actions + run.actions) + bare(run.state.cache)
                        =~= bare(tags));
                }
            }
        }
    }
}

proof fn no_rule_nothing_behind(
    video: Option<u32>,
    audio: Option<u32>,
    tags: Seq<Tag<Seq<u8>>>,
)
    ensures
        !falls_behind(video, audio, tags, 0, 0),
{
}

/// Without limits, with the rule on regressions off and one codec, a whole recording is one file
/// that holds every tag of the stream once, in the order in which they came.
pub proof fn undisturbed_recordings_are_complete(segment: SegmentState, tags: Seq<Tag<Seq<u8>>>)
    requires
        segment.expected_time is None,
        segment.expected_size is None,
        segment.threshold_ms == 0,
        one_codec(tags),
    ensures
        recording(segment, tags) matches Some(actions) ==> written(actions) == bare(tags),
        after_tags(segment, tags) matches Some(run) ==> files_opened(run.actions) == 0,
{
    nothing_is_lost_so_far(segment, tags);
    if let Some(run) = after_tags(segment, tags) {
        finish_writes_the_rest(run.state);
        written_behind(run.actions, finished(run.state).actions);
    }
}

// ---------------------------------------------------------------------------
// The times of a file
// ---------------------------------------------------------------------------

/// Media is written at the time that the clock of the file gives it, which then goes on;
/// everything else at zero. The first media of a file starts it.
pub proof fn media_is_written_by_the_clock(run: Run, tag: Tag<Seq<u8>>)
    ensures
        put(run, tag, true).actions.last() == Action::Write(
            Tag {
                header: TagHeader {
                    timestamp: clock_output(run.state.clock, tag.header.timestamp),
                    ..tag.header
                },
                body: tag.body,
                previous_size: tag.previous_size,
            },
        ),
        put(run, tag, true).state.clock == clock_after(run.state.clock, tag.header.timestamp),
        put(run, tag, true).state.started,
        put(run, tag, true).actions.drop_last() == if run.state.started {
            run.actions
        } else {
            run.actions.push(Action::Started)
        },
        put(run, tag, false).actions == run.actions.push(
            Action::Write(
                Tag {
                    header: TagHeader { timestamp: 0, ..tag.header },
                    body: tag.body,
                    previous_size: tag.previous_size,
                },
            ),
        ),
        put(run, tag, false).state == run.state,
{
    let begun = if run.state.started {
        run.actions
    } else {
        run.actions.push(Action::Started)
    };
    assert(put(run, tag, true).actions.drop_last() =~= begun);
}

/// All that is written and is no media stands at zero.
pub open spec fn outside_at_zero(actions: Seq<Action<Seq<u8>>>) -> bool {
    forall|i: int|
        0 <= i < actions.len() ==> (#[trigger] actions[i] matches Action::Write(tag) ==> (!is_media(
            tag,
        ) ==> tag.header.timestamp == 0))
}

proof fn put_keeps_zero(run: Run, tag: Tag<Seq<u8>>)
    requires
        outside_at_zero(run.actions),
    ensures
        outside_at_zero(put(run, tag, is_media(tag)).actions),
{
    let media = is_media(tag);
    let done = put(run, tag, media).actions;
    media_is_written_by_the_clock(run, tag);
    assert forall|i: int| 0 <= i < done.len() implies (#[trigger] done[i] matches Action::Write(t)
        ==> (!is_media(t) ==> t.header.timestamp == 0)) by {
        if i < run.actions.len() {
            assert(done[i] == run.actions[i]);
        }
    }
}

proof fn flushed_keeps_zero(run: Run, cache: Seq<Tag<Seq<u8>>>, i: int)
    requires
        outside_at_zero(run.actions),
        0 <= i,
    ensures
        flushed(run, cache, i) matches Some(done) ==> outside_at_zero(done.actions),
    decreases cache.len() - i,
{
    if i < cache.len() && !breaks(run.state, cache[i]) {
        let tag = cache[i];
        put_keeps_zero(run, tag);
        if let Some(next) = counted(put(run, tag, is_media(tag)), tag.header) {
            flushed_keeps_zero(
                if is_media(tag) {
                    timed(next, tag.header)
                } else {
                    next
                },
                cache,
                i + 1,
            );
        }
    }
}

proof fn written_out_keeps_zero(run: Run, cache: Seq<Tag<Seq<u8>>>, i: int)
    requires
        outside_at_zero(run.actions),
        0 <= i,
    ensures
        written_out(run, cache, i) matches Some(done) ==> outside_at_zero(done.actions),
    decreases cache.len() - i,
{
    if i < cache.len() {
        let tag = cache[i];
        put_keeps_zero(run, tag);
        if let Some(next) = counted(put(run, tag, is_media(tag)), tag.header) {
            written_out_keeps_zero(
                if is_media(tag) && tag.header.tag_type == TagType::Audio {
                    timed(next, tag.header)
                } else {
                    next
                },
                cache,
                i + 1,
            );
        }
    }
}

proof fn drained_keeps_zero(run: Run, cache: Seq<Tag<Seq<u8>>>, i: int)
    requires
        outside_at_zero(run.actions),
        0 <= i,
    ensures
        outside_at_zero(drained(run, cache, i).actions),
    decreases cache.len() - i,
{
    if i < cache.len() {
        put_keeps_zero(run, cache[i]);
        drained_keeps_zero(put(run, cache[i], is_media(cache[i])), cache, i + 1);
    }
}

proof fn keyed_keeps_zero(state: RecorderState, tag: Tag<Seq<u8>>)
    requires
        is_media(tag),
    ensures
        keyed(state, tag) matches Some(run) ==> outside_at_zero(run.actions),
{
    let time = tag.header.timestamp;
    let begun = Run {
        state: RecorderState { cache: Seq::empty(), ..positioned(state, time) },
        actions: Seq::empty(),
    };
    flushed_keeps_zero(begun, state.cache, 0);
    if let Some(run) = flushed(begun, state.cache, 0) {
        let broken = run.state.prev_video matches Some(prev) && timestamp_anomaly(
            prev,
            time,
            run.state.segment.threshold_ms,
        );
        let called = Run {
            state: RecorderState { create_new: run.state.create_new || broken, ..run.state },
            ..run
        };
        let placed = if called.state.segment.reached() || called.state.create_new {
            split(called, time)
        } else {
            called
        };
        assert(outside_at_zero(placed.actions)) by {
            assert forall|i: int| 0 <= i < placed.actions.len() implies (
            #[trigger] placed.actions[i] matches Action::Write(t) ==> (!is_media(t)
                ==> t.header.timestamp == 0)) by {
                if i < run.actions.len() {
                    assert(placed.actions[i] == run.actions[i]);
                }
            }
        }
        let emptied = Run {
            state: RecorderState { cache: Seq::empty(), ..placed.state },
            ..placed
        };
        written_out_keeps_zero(emptied, placed.state.cache, 0);
        if let Some(opened) = written_out(emptied, placed.state.cache, 0) {
            put_keeps_zero(opened, tag);
        }
    }
}

/// In a whole recording, metadata and decoder configurations are written at zero, wherever they
/// came.
pub proof fn what_is_no_media_stands_at_zero(segment: SegmentState, tags: Seq<Tag<Seq<u8>>>)
    ensures
        after_tags(segment, tags) matches Some(run) ==> outside_at_zero(run.actions),
        recording(segment, tags) matches Some(actions) ==> outside_at_zero(actions),
    decreases tags.len(),
{
    if tags.len() > 0 {
        what_is_no_media_stands_at_zero(segment, tags.drop_last());
        let tag = tags.last();
        if let (Some(before), Ok(class)) = (
            after_tags(segment, tags.drop_last()),
            tag_class(tag.header, tag.body),
        ) {
            if class == (TagClass::Video { key: true, sequence_header: false }) {
                class_tells_media(tag.header, tag.body);
                keyed_keeps_zero(remembered(before.state, tag, class), tag);
            }
            if let Some(run) = recorded(before.state, tag, class) {
                zero_behind(before.actions, run.actions);
            }
        }
    }
    if let Some(run) = after_tags(segment, tags) {
        let begun = Run {
            state: RecorderState { cache: Seq::empty(), ..run.state },
            actions: Seq::empty(),
        };
        drained_keeps_zero(begun, run.state.cache, 0);
        let rest = drained(begun, run.state.cache, 0).actions;
        let last = finished(run.state).actions;
        assert(outside_at_zero(last)) by {
            assert forall|i: int| 0 <= i < last.len() implies (
            #[trigger] last[i] matches Action::Write(t) ==> (!is_media(t) ==> t.header.timestamp
                == 0)) by {
                if i < rest.len() {
                    assert(last[i] == rest[i]);
                }
            }
        }
        zero_behind(run.actions, last);
    }
}

proof fn zero_behind(first: Seq<Action<Seq<u8>>>, second: Seq<Action<Seq<u8>>>)
    requires
        outside_at_zero(first),
        outside_at_zero(second),
    ensures
        outside_at_zero(first + second),
{
    let all = first + second;
    assert forall|i: int| 0 <= i < all.len() implies (#[trigger] all[i] matches Action::Write(t)
        ==> (!is_media(t) ==> t.header.timestamp == 0)) by {
        if i < first.len() {
            assert(all[i] == first[i]);
        } else {
            assert(all[i] == second[i - first.len()]);
        }
    }
}

proof fn opening_leaves_tracks(run: Run, tags: Seq<Tag<Seq<u8>>>, i: int)
    requires
        0 <= i,
        forall|k: int| 0 <= k < tags.len() ==> !is_media(#[trigger] tags[k]),
    ensures
        written_out(run, tags, i) matches Some(done) ==> {
            &&& done.state.prev_audio == run.state.prev_audio
            &&& done.state.prev_video == run.state.prev_video
            &&& done.state.clock == run.state.clock
            &&& done.state.started == run.state.started
        },
    decreases tags.len() - i,
{
    if i < tags.len() {
        let tag = tags[i];
        assert(!is_media(tag));
        if let Some(next) = counted(put(run, tag, false), tag.header) {
            opening_leaves_tracks(next, tags, i + 1);
        }
    }
}

/// A file that a key frame opens knows nothing of the times before it: its clock has seen that
/// frame alone, and no track has a time but the video, which has the frame's.
pub proof fn new_files_start_over(state: RecorderState, tag: Tag<Seq<u8>>)
    requires
        sound(state),
        splits(state, tag),
        tag.header.tag_type == TagType::Video,
    ensures
        keyed(state, tag) matches Some(run) ==> {
            &&& run.state.clock == clock_after(fresh_clock(), tag.header.timestamp)
            &&& run.state.prev_video == Some(tag.header.timestamp)
            &&& run.state.prev_audio is None
            &&& run.state.cache.len() == 0
            &&& run.state.started
        },
{
    let time = tag.header.timestamp;
    let begun = Run {
        state: RecorderState { cache: Seq::empty(), ..positioned(state, time) },
        actions: Seq::empty(),
    };
    flushed_remembers(begun, state.cache, 0);
    let run = flushed(begun, state.cache, 0)->0;
    let broken = run.state.prev_video matches Some(prev) && timestamp_anomaly(
        prev,
        time,
        run.state.segment.threshold_ms,
    );
    let called = Run {
        state: RecorderState { create_new: run.state.create_new || broken, ..run.state },
        ..run
    };
    let placed = split(called, time);
    let tags = opening_tags(state);
    assert(opening_tags(called.state) == tags);
    assert forall|k: int| 0 <= k < tags.len() implies !is_media(#[trigger] tags[k]) by {
        let a = opening(state.on_meta_data);
        let b = opening(state.aac_sequence_header);
        let c = opening(state.h264_sequence_header);
        assert(tags == a + b + c);
    }
    let emptied = Run { state: RecorderState { cache: Seq::empty(), ..placed.state }, ..placed };
    opening_leaves_tracks(emptied, tags, 0);
    split_opens_a_playable_file(state, tag);
}

// ---------------------------------------------------------------------------
// When tags are written
// ---------------------------------------------------------------------------

/// A tag that is no key frame waits; nothing is asked for, and nothing that waits is changed.
pub proof fn other_tags_wait(state: RecorderState, tag: Tag<Seq<u8>>, class: TagClass)
    requires
        class != (TagClass::Video { key: true, sequence_header: false }),
    ensures
        recorded(state, tag, class) matches Some(run) && run.actions.len() == 0
            && run.state.cache == state.cache.push(tag) && run.state.segment == state.segment
            && run.state.started == state.started && run.state.clock == state.clock,
{
}

proof fn flushed_stays_started(run: Run, cache: Seq<Tag<Seq<u8>>>, i: int)
    requires
        run.state.started,
    ensures
        flushed(run, cache, i) matches Some(done) ==> done.state.started && done.state.cache
            == run.state.cache,
    decreases cache.len() - i,
{
    if i < cache.len() && !breaks(run.state, cache[i]) {
        let tag = cache[i];
        if let Some(next) = counted(put(run, tag, is_media(tag)), tag.header) {
            flushed_stays_started(
                if is_media(tag) {
                    timed(next, tag.header)
                } else {
                    next
                },
                cache,
                i + 1,
            );
        }
    }
}

/// A key frame that stays in a file with media waits itself, alone: what is asked for is that the
/// tags before it are written.
pub proof fn key_frames_wait_in_a_started_file(state: RecorderState, tag: Tag<Seq<u8>>)
    requires
        state.started,
        !splits(state, tag),
    ensures
        keyed(state, tag) matches Some(run) ==> {
            &&& run.state.cache == seq![tag]
            &&& written(run.actions) == bare(state.cache)
            &&& files_opened(run.actions) == 0
        },
{
    let time = tag.header.timestamp;
    let begun = Run {
        state: RecorderState { cache: Seq::empty(), ..positioned(state, time) },
        actions: Seq::empty(),
    };
    flushed_stays_started(begun, state.cache, 0);
    flushed_counts(state.segment.size as int, begun, state.cache, 0, tag);
    let kept = key_frames_keep_order(state, tag);
    if let Some(run) = keyed(state, tag) {
        assert(Seq::<Tag<Seq<u8>>>::empty().push(tag) =~= seq![tag]);
        assert(state.cache.take(kept) =~= state.cache);
        let all = written(run.actions) + bare(run.state.cache);
        assert(bare(run.state.cache) =~= seq![retimed(tag, 0)]);
        assert(all =~= bare(state.cache) + seq![retimed(tag, 0)]);
        assert(written(run.actions) =~= all.take(all.len() - 1));
        assert(bare(state.cache) =~= all.take(all.len() - 1));
    }
}

} // verus!
