//! Recording an FLV stream into files: the output time axis, and when one file ends and the next
//! begins.

use crate::flv::{classify_tag, is_media_timestamp_tag, map_parse_err, media_tag, tag_class, tag_header, tag_type_of, header_of, BodyFault, Error, Needed, ParseFailure, TagClass, TagHeader, TagType, TAG_HEADER_SIZE};
use crate::outside_bytes::{bytes_shared, bytes_slice, contents};
use crate::segment::{SegmentState, Segmentable};
use crate::time::{Duration, NANOS_PER_MILLI};
use crate::timestamp::{absorb_forward_timestamp_jump_with_max, absorbed_base, absorbed_max, clamp_regression_monotonic, clamped_offset, clamped_output, is_timestamp_anomaly, retimestamp_tag_header, timestamp_anomaly};
use bytes::Bytes;
use vstd::prelude::*;

verus! {

// ---------------------------------------------------------------------------
// The output time axis
// ---------------------------------------------------------------------------

/// What carries source times over to the times of one file.
#[derive(Debug, Clone, Copy, PartialEq, Eq, Structural)]
pub struct OutputClock {
    /// The source time that is written as zero.
    pub base: Option<u32>,
    /// The largest source time so far.
    pub stream_max: Option<u32>,
    /// How far regressions have moved the output.
    pub offset: u32,
    /// The last time that was written.
    pub last: Option<u32>,
}

/// The clock of a new file.
pub open spec fn fresh_clock() -> OutputClock {
    OutputClock { base: None, stream_max: None, offset: 0, last: None }
}

/// The distance of `time` from `base`, zero before it. The first time is its own base.
pub open spec fn rebased(time: u32, base: Option<u32>) -> u32 {
    match base {
        Some(b) if time >= b => (time - b) as u32,
        _ => 0,
    }
}

/// The base after `time`: raised over a gap, and set by the first time.
pub open spec fn clock_base(clock: OutputClock, time: u32) -> Option<u32> {
    match absorbed_base(time, clock.stream_max, clock.base) {
        Some(base) => Some(base),
        None => Some(time),
    }
}

/// What is written for the source time `time`.
pub open spec fn clock_output(clock: OutputClock, time: u32) -> u32 {
    clamped_output(rebased(time, clock_base(clock, time)), clock.offset, clock.last)
}

/// The clock after `time` was written.
pub open spec fn clock_after(clock: OutputClock, time: u32) -> OutputClock {
    OutputClock {
        base: clock_base(clock, time),
        stream_max: absorbed_max(time, clock.stream_max, clock.base),
        offset: clamped_offset(rebased(time, clock_base(clock, time)), clock.offset, clock.last),
        last: Some(clock_output(clock, time)),
    }
}

/// The header as it is written: media at its distance from the base, which the first media tag
/// sets; everything else at zero.
pub fn rebase_media_timestamp(
    header: &TagHeader,
    is_media: bool,
    output_timestamp_base: &mut Option<u32>,
) -> (out: TagHeader)
    ensures
        !is_media ==> out == (TagHeader { timestamp: 0, ..*header })
            && *final(output_timestamp_base) == *old(output_timestamp_base),
        is_media ==> out == (TagHeader {
            timestamp: rebased(header.timestamp, *old(output_timestamp_base)),
            ..*header
        }),
        is_media ==> *final(output_timestamp_base) == match *old(output_timestamp_base) {
            Some(base) => Some(base),
            None => Some(header.timestamp),
        },
{
    if !is_media {
        return retimestamp_tag_header(header, 0);
    }
    let base: u32 = match *output_timestamp_base {
        Some(base) => base,
        None => {
            *output_timestamp_base = Some(header.timestamp);
            header.timestamp
        },
    };
    retimestamp_tag_header(header, header.timestamp.saturating_sub(base))
}

/// The header as it is written: gaps in the source are closed first, then the time is taken from
/// the base, then small regressions are flattened.
pub fn rebase_media_timestamp_for_write(
    header: &TagHeader,
    is_media: bool,
    output_timestamp_base: &mut Option<u32>,
    stream_max_ms: &mut Option<u32>,
    regression_offset: &mut u32,
    last_output_ms: &mut Option<u32>,
) -> (out: TagHeader)
    ensures
        ({
            let before = OutputClock {
                base: *old(output_timestamp_base),
                stream_max: *old(stream_max_ms),
                offset: *old(regression_offset),
                last: *old(last_output_ms),
            };
            let after = OutputClock {
                base: *final(output_timestamp_base),
                stream_max: *final(stream_max_ms),
                offset: *final(regression_offset),
                last: *final(last_output_ms),
            };
            &&& is_media ==> out == (TagHeader {
                timestamp: clock_output(before, header.timestamp),
                ..*header
            }) && after == clock_after(before, header.timestamp)
            &&& !is_media ==> out == (TagHeader { timestamp: 0, ..*header }) && after == before
        }),
{
    if is_media {
        let _absorbed = absorb_forward_timestamp_jump_with_max(
            header.timestamp,
            stream_max_ms,
            output_timestamp_base,
        );
    }
    let mut out_header = rebase_media_timestamp(header, is_media, output_timestamp_base);
    if is_media {
        let time: u32 = clamp_regression_monotonic(
            out_header.timestamp,
            regression_offset,
            last_output_ms,
        );
        out_header = retimestamp_tag_header(&out_header, time);
    }
    out_header
}

// ---------------------------------------------------------------------------
// The recorder
// ---------------------------------------------------------------------------

/// A tag with its body and the size field behind it.
#[derive(Debug)]
pub struct Tag<B> {
    pub header: TagHeader,
    pub body: B,
    pub previous_size: B,
}

/// What the recorder asks for, in order.
#[derive(Debug)]
pub enum Action<B> {
    /// Tell that the present file has its first media.
    Started,
    /// Tell that the present file is complete.
    Ended,
    /// Write a tag into the present file.
    Write(Tag<B>),
    /// Close the present file and open the next.
    CreateNew,
}

impl View for Tag<Bytes> {
    type V = Tag<Seq<u8>>;

    open spec fn view(&self) -> Tag<Seq<u8>> {
        Tag {
            header: self.header,
            body: contents(self.body),
            previous_size: contents(self.previous_size),
        }
    }
}

impl View for Action<Bytes> {
    type V = Action<Seq<u8>>;

    open spec fn view(&self) -> Action<Seq<u8>> {
        match *self {
            Action::Started => Action::Started,
            Action::Ended => Action::Ended,
            Action::Write(tag) => Action::Write(tag@),
            Action::CreateNew => Action::CreateNew,
        }
    }
}

/// Actions by their views.
pub open spec fn actions_of(actions: Seq<Action<Bytes>>) -> Seq<Action<Seq<u8>>> {
    actions.map_values(|a: Action<Bytes>| a@)
}

/// Tags by their views.
pub open spec fn tags_of(tags: Seq<Tag<Bytes>>) -> Seq<Tag<Seq<u8>>> {
    tags.map_values(|t: Tag<Bytes>| t@)
}

/// A tag, if there is one, by its view.
pub open spec fn tag_of(tag: Option<Tag<Bytes>>) -> Option<Tag<Seq<u8>>> {
    match tag {
        Some(t) => Some(t@),
        None => None,
    }
}

/// All that the recorder remembers.
#[verifier::ext_equal]
pub struct RecorderState {
    pub segment: SegmentState,
    /// Tags since the last key frame.
    pub cache: Seq<Tag<Seq<u8>>>,
    pub on_meta_data: Option<Tag<Seq<u8>>>,
    pub aac_sequence_header: Option<Tag<Seq<u8>>>,
    pub h264_sequence_header: Option<Tag<Seq<u8>>>,
    pub prev_video: Option<u32>,
    pub prev_audio: Option<u32>,
    pub clock: OutputClock,
    /// The present file has media.
    pub started: bool,
    /// The next key frame begins a new file.
    pub create_new: bool,
}

/// The recorder and what it has asked for.
#[verifier::ext_equal]
pub struct Run {
    pub state: RecorderState,
    pub actions: Seq<Action<Seq<u8>>>,
}

/// The bytes of a file's own header.
pub const FILE_HEADER_SIZE: u64 = 13;

/// The bytes that a tag takes in a file.
pub open spec fn written_size(header: TagHeader) -> int {
    11 + header.data_size + 4
}

/// Whether a tag stands on the media time axis.
pub open spec fn is_media(tag: Tag<Seq<u8>>) -> bool {
    media_tag(tag.header.tag_type, tag.body)
}

/// A tag at another time.
pub open spec fn retimed<B>(tag: Tag<B>, timestamp: u32) -> Tag<B> {
    Tag { header: TagHeader { timestamp, ..tag.header }, ..tag }
}

/// Writes a tag. The first media of a file starts it.
pub open spec fn put(run: Run, tag: Tag<Seq<u8>>, media: bool) -> Run {
    let s = run.state;
    let time = if media {
        clock_output(s.clock, tag.header.timestamp)
    } else {
        0
    };
    let begun = if media && !s.started {
        run.actions.push(Action::Started)
    } else {
        run.actions
    };
    Run {
        state: RecorderState {
            started: s.started || media,
            clock: if media {
                clock_after(s.clock, tag.header.timestamp)
            } else {
                s.clock
            },
            ..s
        },
        actions: begun.push(Action::Write(retimed(tag, time))),
    }
}

/// Counts a tag towards the size of the file, where the number can hold it.
pub open spec fn counted(run: Run, header: TagHeader) -> Option<Run> {
    let size = run.state.segment.size + written_size(header);
    if size > u64::MAX {
        None
    } else {
        Some(
            Run {
                state: RecorderState {
                    segment: SegmentState { size: size as nat, ..run.state.segment },
                    ..run.state
                },
                ..run
            },
        )
    }
}

/// The last media time of the track that a tag belongs to.
pub open spec fn track_prev(state: RecorderState, tag_type: TagType) -> Option<u32> {
    match tag_type {
        TagType::Video => state.prev_video,
        TagType::Audio => state.prev_audio,
        TagType::Script => None,
    }
}

/// Remembers a media time of its track.
pub open spec fn timed(run: Run, header: TagHeader) -> Run {
    Run {
        state: match header.tag_type {
            TagType::Video => RecorderState { prev_video: Some(header.timestamp), ..run.state },
            TagType::Audio => RecorderState { prev_audio: Some(header.timestamp), ..run.state },
            TagType::Script => run.state,
        },
        ..run
    }
}

/// A tag falls so far behind its track that the file has to end.
pub open spec fn breaks(state: RecorderState, tag: Tag<Seq<u8>>) -> bool {
    &&& is_media(tag)
    &&& track_prev(state, tag.header.tag_type) matches Some(prev)
    &&& timestamp_anomaly(prev, tag.header.timestamp, state.segment.threshold_ms)
}

/// Writes cached tags from `i` on, up to the first that breaks its track: that one and the rest
/// are dropped, and a new file is called for.
pub open spec fn flushed(run: Run, cache: Seq<Tag<Seq<u8>>>, i: int) -> Option<Run>
    decreases cache.len() - i,
{
    if i >= cache.len() {
        Some(run)
    } else {
        let tag = cache[i];
        if breaks(run.state, tag) {
            Some(Run { state: RecorderState { create_new: true, ..run.state }, ..run })
        } else {
            match counted(put(run, tag, is_media(tag)), tag.header) {
                None => None,
                Some(next) => flushed(
                    if is_media(tag) {
                        timed(next, tag.header)
                    } else {
                        next
                    },
                    cache,
                    i + 1,
                ),
            }
        }
    }
}

/// Writes cached tags from `i` on, whatever their times.
pub open spec fn written_out(run: Run, cache: Seq<Tag<Seq<u8>>>, i: int) -> Option<Run>
    decreases cache.len() - i,
{
    if i >= cache.len() {
        Some(run)
    } else {
        let tag = cache[i];
        match counted(put(run, tag, is_media(tag)), tag.header) {
            None => None,
            Some(next) => written_out(
                if is_media(tag) && tag.header.tag_type == TagType::Audio {
                    timed(next, tag.header)
                } else {
                    next
                },
                cache,
                i + 1,
            ),
        }
    }
}

/// A tag, if there is one, at time zero.
pub open spec fn opening(tag: Option<Tag<Seq<u8>>>) -> Seq<Tag<Seq<u8>>> {
    match tag {
        Some(t) => seq![retimed(t, 0)],
        None => Seq::empty(),
    }
}

/// The tags that every file has to begin with, as far as the stream has sent them.
pub open spec fn opening_tags(state: RecorderState) -> Seq<Tag<Seq<u8>>> {
    opening(state.on_meta_data) + opening(state.aac_sequence_header) + opening(
        state.h264_sequence_header,
    )
}

/// Milliseconds as nanoseconds.
pub open spec fn millis(ms: u32) -> nat {
    (ms * NANOS_PER_MILLI) as nat
}

/// Ends the present file and begins the next at the key frame at `time`.
pub open spec fn split(run: Run, time: u32) -> Run {
    let s = run.state;
    let ended = if s.started {
        run.actions.push(Action::Ended)
    } else {
        run.actions
    };
    Run {
        state: RecorderState {
            segment: SegmentState {
                start: millis(time),
                size: FILE_HEADER_SIZE as nat,
                ..s.segment
            },
            cache: opening_tags(s),
            prev_video: None,
            prev_audio: None,
            clock: fresh_clock(),
            started: false,
            create_new: false,
            ..s
        },
        actions: ended.push(Action::CreateNew),
    }
}

/// The time position at a key frame. The first one of a file begins it.
pub open spec fn positioned(state: RecorderState, time: u32) -> RecorderState {
    RecorderState {
        segment: SegmentState {
            start: if state.prev_video is None && time != 0 {
                millis(time)
            } else {
                state.segment.start
            },
            current: millis(time),
            ..state.segment
        },
        ..state
    }
}

/// A key frame: the tags before it are written, the file is split where a limit, an anomaly or
/// another codec asks for it, and the frame goes to the file that has none yet, or waits.
pub open spec fn keyed(state: RecorderState, tag: Tag<Seq<u8>>) -> Option<Run> {
    let time = tag.header.timestamp;
    let begun = Run {
        state: RecorderState { cache: Seq::empty(), ..positioned(state, time) },
        actions: Seq::empty(),
    };
    match flushed(begun, state.cache, 0) {
        None => None,
        Some(run) => {
            let broken = run.state.prev_video matches Some(prev) && timestamp_anomaly(
                prev,
                time,
                run.state.segment.threshold_ms,
            );
            let called = Run {
                state: RecorderState { create_new: run.state.create_new || broken, ..run.state },
                ..run
            };
            let placed = if called.state.segment.reached() || called.state.create_new {
                split(called, time)
            } else {
                called
            };
            if placed.state.started {
                Some(
                    Run {
                        state: RecorderState {
                            cache: placed.state.cache.push(tag),
                            ..placed.state
                        },
                        ..placed
                    },
                )
            } else {
                let emptied = Run {
                    state: RecorderState { cache: Seq::empty(), ..placed.state },
                    ..placed
                };
                match written_out(emptied, placed.state.cache, 0) {
                    None => None,
                    Some(opened) => match counted(put(opened, tag, true), tag.header) {
                        None => None,
                        Some(done) => Some(timed(done, tag.header)),
                    },
                }
            }
        },
    }
}

/// What is remembered of a tag for the files to come. Another decoder configuration of the video
/// calls for a new file.
pub open spec fn remembered(
    state: RecorderState,
    tag: Tag<Seq<u8>>,
    class: TagClass,
) -> RecorderState {
    match class {
        TagClass::Script => RecorderState { on_meta_data: Some(tag), ..state },
        TagClass::Audio { sequence_header: true } => RecorderState {
            aac_sequence_header: Some(tag),
            ..state
        },
        TagClass::Video { sequence_header: true, .. } => RecorderState {
            h264_sequence_header: Some(tag),
            create_new: state.create_new || (state.h264_sequence_header matches Some(known)
                && known.body != tag.body),
            ..state
        },
        _ => state,
    }
}

/// The recorder after a tag of known class.
pub open spec fn recorded(state: RecorderState, tag: Tag<Seq<u8>>, class: TagClass) -> Option<Run> {
    let known = remembered(state, tag, class);
    match class {
        TagClass::Video { key: true, sequence_header: false } => keyed(known, tag),
        _ => Some(
            Run {
                state: RecorderState { cache: known.cache.push(tag), ..known },
                actions: Seq::empty(),
            },
        ),
    }
}

/// Writes cached tags from `i` on at the end of the stream.
pub open spec fn drained(run: Run, cache: Seq<Tag<Seq<u8>>>, i: int) -> Run
    decreases cache.len() - i,
{
    if i >= cache.len() {
        run
    } else {
        drained(put(run, cache[i], is_media(cache[i])), cache, i + 1)
    }
}

/// The recorder at the end of the stream.
pub open spec fn finished(state: RecorderState) -> Run {
    let begun = Run {
        state: RecorderState { cache: Seq::empty(), ..state },
        actions: Seq::empty(),
    };
    let run = drained(begun, state.cache, 0);
    Run {
        actions: if run.state.started {
            run.actions.push(Action::Ended)
        } else {
            run.actions
        },
        ..run
    }
}

/// A recorder at the beginning of a stream.
pub open spec fn fresh_recorder(segment: SegmentState) -> RecorderState {
    RecorderState {
        segment: SegmentState { size: FILE_HEADER_SIZE as nat, ..segment },
        cache: Seq::empty(),
        on_meta_data: None,
        aac_sequence_header: None,
        h264_sequence_header: None,
        prev_video: None,
        prev_audio: None,
        clock: fresh_clock(),
        started: false,
        create_new: false,
    }
}

/// The recorder of one stream.
pub struct FlvRecorder {
    segment: Segmentable,
    cache: Vec<Tag<Bytes>>,
    on_meta_data: Option<Tag<Bytes>>,
    aac_sequence_header: Option<Tag<Bytes>>,
    h264_sequence_header: Option<Tag<Bytes>>,
    prev_video: Option<u32>,
    prev_audio: Option<u32>,
    clock: OutputClock,
    started: bool,
    create_new: bool,
}

impl View for FlvRecorder {
    type V = RecorderState;

    closed spec fn view(&self) -> RecorderState {
        RecorderState {
            segment: self.segment@,
            cache: tags_of(self.cache@),
            on_meta_data: tag_of(self.on_meta_data),
            aac_sequence_header: tag_of(self.aac_sequence_header),
            h264_sequence_header: tag_of(self.h264_sequence_header),
            prev_video: self.prev_video,
            prev_audio: self.prev_audio,
            clock: self.clock,
            started: self.started,
            create_new: self.create_new,
        }
    }
}

/// The bytes are the same.
fn same_bytes(a: &[u8], b: &[u8]) -> (same: bool)
    ensures
        same == (a@ == b@),
{
    if a.len() != b.len() {
        return false;
    }
    let mut i: usize = 0;
    while i < a.len()
        invariant
            a.len() == b.len(),
            i <= a.len(),
            forall|k: int| 0 <= k < i ==> a@[k] == b@[k],
        decreases a.len() - i,
    {
        if a[i] != b[i] {
            return false;
        }
        i += 1;
    }
    assert(a@ =~= b@);
    true
}

/// Another handle on a tag, at another time.
fn share_tag(tag: &Tag<Bytes>, timestamp: u32) -> (other: Tag<Bytes>)
    ensures
        other@ == retimed(tag@, timestamp),
{
    Tag {
        header: retimestamp_tag_header(&tag.header, timestamp),
        body: bytes_shared(&tag.body),
        previous_size: bytes_shared(&tag.previous_size),
    }
}

fn push_action(actions: &mut Vec<Action<Bytes>>, action: Action<Bytes>)
    ensures
        actions_of(final(actions)@) == actions_of(old(actions)@).push(action@),
{
    actions.push(action);
    assert(actions_of(actions@) =~= actions_of(old(actions)@).push(action@));
}

fn push_tag(tags: &mut Vec<Tag<Bytes>>, tag: Tag<Bytes>)
    ensures
        tags_of(final(tags)@) == tags_of(old(tags)@).push(tag@),
{
    tags.push(tag);
    assert(tags_of(tags@) =~= tags_of(old(tags)@).push(tag@));
}

fn push_opening(tags: &mut Vec<Tag<Bytes>>, tag: &Option<Tag<Bytes>>)
    ensures
        tags_of(final(tags)@) == tags_of(old(tags)@) + opening(tag_of(*tag)),
{
    match tag {
        Some(t) => {
            push_tag(tags, share_tag(t, 0));
        },
        None => {},
    }
    assert(tags_of(tags@) =~= tags_of(old(tags)@) + opening(tag_of(*tag)));
}

impl FlvRecorder {
    /// The recorder with what it has asked for.
    spec fn run(self, actions: Seq<Action<Bytes>>) -> Run {
        Run { state: self@, actions: actions_of(actions) }
    }

    /// A recorder at the beginning of a stream, its first file just opened.
    pub fn new(segment: Segmentable) -> (recorder: Self)
        ensures
            recorder@ == fresh_recorder(segment@),
    {
        let mut segment = segment;
        segment.set_size_position(FILE_HEADER_SIZE);
        let recorder = FlvRecorder {
            segment,
            cache: Vec::new(),
            on_meta_data: None,
            aac_sequence_header: None,
            h264_sequence_header: None,
            prev_video: None,
            prev_audio: None,
            clock: OutputClock { base: None, stream_max: None, offset: 0, last: None },
            started: false,
            create_new: false,
        };
        assert(recorder@ =~= fresh_recorder(segment@));
        recorder
    }

    fn put(&mut self, tag: &Tag<Bytes>, media: bool, actions: &mut Vec<Action<Bytes>>)
        ensures
            final(self).run(final(actions)@) == put(old(self).run(old(actions)@), tag@, media),
    {
        if media && !self.started {
            push_action(actions, Action::Started);
            self.started = true;
        }
        let mut clock = self.clock;
        let header = rebase_media_timestamp_for_write(
            &tag.header,
            media,
            &mut clock.base,
            &mut clock.stream_max,
            &mut clock.offset,
            &mut clock.last,
        );
        self.clock = clock;
        let time: u32 = header.timestamp;
        push_action(actions, Action::Write(share_tag(tag, time)));
        assert(self.run(actions@) =~= put(old(self).run(old(actions)@), tag@, media));
    }

    fn count(&mut self, header: &TagHeader) -> (counts: bool)
        ensures
            forall|actions: Seq<Action<Seq<u8>>>|
                match #[trigger] counted(Run { state: old(self)@, actions }, *header) {
                    Some(run) => counts && run == (Run { state: final(self)@, actions }),
                    None => !counts,
                },
    {
        let size: u64 = 11 + header.data_size as u64 + 4;
        if self.segment.size_position() > u64::MAX - size {
            return false;
        }
        self.segment.increase_size(size);
        true
    }

    fn remember_time(&mut self, header: &TagHeader)
        ensures
            forall|actions: Seq<Action<Seq<u8>>>|
                #[trigger] timed(Run { state: old(self)@, actions }, *header) == (Run {
                    state: final(self)@,
                    actions,
                }),
    {
        match header.tag_type {
            TagType::Video => {
                self.prev_video = Some(header.timestamp);
            },
            TagType::Audio => {
                self.prev_audio = Some(header.timestamp);
            },
            TagType::Script => {},
        }
    }

    fn breaks(&self, tag: &Tag<Bytes>, media: bool) -> (broken: bool)
        requires
            media == is_media(tag@),
        ensures
            broken == breaks(self@, tag@),
    {
        if !media {
            return false;
        }
        let prev: Option<u32> = match tag.header.tag_type {
            TagType::Video => self.prev_video,
            TagType::Audio => self.prev_audio,
            TagType::Script => None,
        };
        match prev {
            Some(p) => is_timestamp_anomaly(
                p,
                tag.header.timestamp,
                self.segment.timestamp_anomaly_threshold_ms(),
            ),
            None => false,
        }
    }

    /// Takes the cache out.
    fn take_cache(&mut self) -> (cache: Vec<Tag<Bytes>>)
        ensures
            tags_of(cache@) == old(self)@.cache,
            final(self)@ == (RecorderState { cache: Seq::empty(), ..old(self)@ }),
    {
        let mut cache: Vec<Tag<Bytes>> = Vec::new();
        core::mem::swap(&mut cache, &mut self.cache);
        assert(tags_of(self.cache@) =~= Seq::<Tag<Seq<u8>>>::empty());
        cache
    }

    fn flush(&mut self, cache: &Vec<Tag<Bytes>>, actions: &mut Vec<Action<Bytes>>) -> (counts: bool)
        ensures
            match flushed(old(self).run(old(actions)@), tags_of(cache@), 0) {
                Some(run) => counts && run == final(self).run(final(actions)@),
                None => !counts,
            },
    {
        let ghost whole = flushed(self.run(actions@), tags_of(cache@), 0);
        let mut i: usize = 0;
        while i < cache.len()
            invariant
                i <= cache.len(),
                whole == flushed(old(self).run(old(actions)@), tags_of(cache@), 0),
                whole == flushed(self.run(actions@), tags_of(cache@), i as int),
            decreases cache.len() - i,
        {
            let tag: &Tag<Bytes> = &cache[i];
            assert(tags_of(cache@)[i as int] == tag@);
            let media: bool = is_media_timestamp_tag(&tag.header, bytes_slice(&tag.body));
            if self.breaks(tag, media) {
                self.create_new = true;
                return true;
            }
            self.put(tag, media, actions);
            if !self.count(&tag.header) {
                return false;
            }
            if media {
                self.remember_time(&tag.header);
            }
            i += 1;
        }
        true
    }

    fn write_out(
        &mut self,
        cache: &Vec<Tag<Bytes>>,
        actions: &mut Vec<Action<Bytes>>,
    ) -> (counts: bool)
        ensures
            match written_out(old(self).run(old(actions)@), tags_of(cache@), 0) {
                Some(run) => counts && run == final(self).run(final(actions)@),
                None => !counts,
            },
    {
        let ghost whole = written_out(self.run(actions@), tags_of(cache@), 0);
        let mut i: usize = 0;
        while i < cache.len()
            invariant
                i <= cache.len(),
                whole == written_out(old(self).run(old(actions)@), tags_of(cache@), 0),
                whole == written_out(self.run(actions@), tags_of(cache@), i as int),
            decreases cache.len() - i,
        {
            let tag: &Tag<Bytes> = &cache[i];
            assert(tags_of(cache@)[i as int] == tag@);
            let media: bool = is_media_timestamp_tag(&tag.header, bytes_slice(&tag.body));
            self.put(tag, media, actions);
            if !self.count(&tag.header) {
                return false;
            }
            if media && tag.header.tag_type == TagType::Audio {
                self.remember_time(&tag.header);
            }
            i += 1;
        }
        true
    }

    fn split(&mut self, time: u32, actions: &mut Vec<Action<Bytes>>)
        requires
            old(self)@.cache == Seq::<Tag<Seq<u8>>>::empty(),
        ensures
            final(self).run(final(actions)@) == split(old(self).run(old(actions)@), time),
    {
        if self.started {
            push_action(actions, Action::Ended);
        }
        push_action(actions, Action::CreateNew);
        self.segment.set_start_time(Duration::from_millis(time as u64));
        self.segment.set_size_position(FILE_HEADER_SIZE);
        self.prev_video = None;
        self.prev_audio = None;
        self.clock = OutputClock { base: None, stream_max: None, offset: 0, last: None };
        self.started = false;
        self.create_new = false;
        let mut opening: Vec<Tag<Bytes>> = Vec::new();
        push_opening(&mut opening, &self.on_meta_data);
        push_opening(&mut opening, &self.aac_sequence_header);
        push_opening(&mut opening, &self.h264_sequence_header);
        assert(tags_of(opening@) =~= opening_tags(old(self)@));
        self.cache = opening;
        assert(self.run(actions@) =~= split(old(self).run(old(actions)@), time));
    }

    fn on_key_frame(&mut self, tag: Tag<Bytes>, actions: &mut Vec<Action<Bytes>>) -> (counts: bool)
        requires
            old(actions)@.len() == 0,
        ensures
            match keyed(old(self)@, tag@) {
                Some(run) => counts && run == final(self).run(final(actions)@),
                None => !counts,
            },
    {
        let time: u32 = tag.header.timestamp;
        let position = Duration::from_millis(time as u64);
        if self.prev_video.is_none() && time != 0 {
            self.segment.set_start_time(position);
        }
        self.segment.set_time_position(position);
        assert(self@ =~= positioned(old(self)@, time));
        let cache: Vec<Tag<Bytes>> = self.take_cache();
        assert(actions_of(actions@) =~= Seq::<Action<Seq<u8>>>::empty());
        if !self.flush(&cache, actions) {
            return false;
        }
        let broken: bool = match self.prev_video {
            Some(prev) => is_timestamp_anomaly(
                prev,
                time,
                self.segment.timestamp_anomaly_threshold_ms(),
            ),
            None => false,
        };
        if broken {
            self.create_new = true;
        }
        proof {
            flushed_keeps_cache(
                Run {
                    state: RecorderState { cache: Seq::empty(), ..positioned(old(self)@, time) },
                    actions: Seq::empty(),
                },
                old(self)@.cache,
                0,
            );
        }
        if self.segment.needed() || self.create_new {
            self.split(time, actions);
        }
        if self.started {
            push_tag(&mut self.cache, tag);
            return true;
        }
        let opening: Vec<Tag<Bytes>> = self.take_cache();
        if !self.write_out(&opening, actions) {
            return false;
        }
        self.put(&tag, true, actions);
        if !self.count(&tag.header) {
            return false;
        }
        self.remember_time(&tag.header);
        true
    }

    /// Records a tag, or tells why it cannot. After an error the recording is over.
    pub fn on_tag(&mut self, tag: Tag<Bytes>) -> (actions: Result<Vec<Action<Bytes>>, Error>)
        ensures
            match tag_class(tag.header, contents(tag.body)) {
                Ok(class) => match recorded(old(self)@, tag@, class) {
                    Some(run) => actions is Ok && final(self)@ == run.state && actions_of(
                        actions->Ok_0@,
                    ) == run.actions,
                    None => actions is Err && actions->Err_0 == Error::SizeOverflow,
                },
                Err(fault) => actions is Err && tells_fault(actions->Err_0, fault),
            },
    {
        let class: TagClass = match classify_tag(&tag.header, bytes_slice(&tag.body)) {
            Ok(class) => class,
            Err(fault) => return Err(error_of_fault(fault)),
        };
        let mut key: bool = false;
        match class {
            TagClass::Script => {
                self.on_meta_data = Some(share_tag(&tag, tag.header.timestamp));
            },
            TagClass::Audio { sequence_header } => {
                if sequence_header {
                    self.aac_sequence_header = Some(share_tag(&tag, tag.header.timestamp));
                }
            },
            TagClass::Video { key: key_frame, sequence_header } => {
                if sequence_header {
                    if let Some(known) = &self.h264_sequence_header {
                        if !same_bytes(bytes_slice(&tag.body), bytes_slice(&known.body)) {
                            self.create_new = true;
                        }
                    }
                    self.h264_sequence_header = Some(share_tag(&tag, tag.header.timestamp));
                } else {
                    key = key_frame;
                }
            },
        }
        assert(self@ =~= remembered(old(self)@, tag@, class));
        let mut actions: Vec<Action<Bytes>> = Vec::new();
        if key {
            if !self.on_key_frame(tag, &mut actions) {
                return Err(Error::SizeOverflow);
            }
        } else {
            push_tag(&mut self.cache, tag);
            assert(actions_of(actions@) =~= Seq::<Action<Seq<u8>>>::empty());
        }
        Ok(actions)
    }

    /// Ends the recording: what is cached is written, and the file is complete.
    pub fn finish(&mut self) -> (actions: Vec<Action<Bytes>>)
        ensures
            final(self)@ == finished(old(self)@).state,
            actions_of(actions@) == finished(old(self)@).actions,
    {
        let cache: Vec<Tag<Bytes>> = self.take_cache();
        let mut actions: Vec<Action<Bytes>> = Vec::new();
        assert(actions_of(actions@) =~= Seq::<Action<Seq<u8>>>::empty());
        let ghost begun = self.run(actions@);
        let ghost whole = drained(begun, tags_of(cache@), 0);
        let mut i: usize = 0;
        while i < cache.len()
            invariant
                i <= cache.len(),
                whole == drained(self.run(actions@), tags_of(cache@), i as int),
            decreases cache.len() - i,
        {
            let tag: &Tag<Bytes> = &cache[i];
            assert(tags_of(cache@)[i as int] == tag@);
            let media: bool = is_media_timestamp_tag(&tag.header, bytes_slice(&tag.body));
            self.put(tag, media, &mut actions);
            i += 1;
        }
        if self.started {
            push_action(&mut actions, Action::Ended);
        }
        actions
    }
}

/// Flushing leaves the cache alone.
proof fn flushed_keeps_cache(run: Run, cache: Seq<Tag<Seq<u8>>>, i: int)
    ensures
        flushed(run, cache, i) matches Some(done) ==> done.state.cache == run.state.cache,
    decreases cache.len() - i,
{
    if i < cache.len() && !breaks(run.state, cache[i]) {
        let tag = cache[i];
        if let Some(next) = counted(put(run, tag, is_media(tag)), tag.header) {
            flushed_keeps_cache(
                if is_media(tag) {
                    timed(next, tag.header)
                } else {
                    next
                },
                cache,
                i + 1,
            );
        }
    }
}

/// The error that a fault in a body becomes.
pub open spec fn tells_fault(error: Error, fault: BodyFault) -> bool {
    match fault {
        BodyFault::Short(n) => (error matches Error::NomIncomplete(text, needed) && text@
            == "tag data"@ && needed == Needed::Size(n)),
        BodyFault::Format => (error matches Error::Custom(text) && text@ == "parse "@
            + "tag data"@ + " err: "@ + "unknown body format"@),
        BodyFault::AacHeader => error == Error::AacHeader,
        BodyFault::AvcHeader => error == Error::AvcHeader,
    }
}

fn error_of_fault(fault: BodyFault) -> (error: Error)
    ensures
        tells_fault(error, fault),
{
    let failure: ParseFailure = match fault {
        BodyFault::Short(n) => ParseFailure::Incomplete(Needed::Size(n)),
        BodyFault::Format => ParseFailure::Error("unknown body format".to_owned()),
        BodyFault::AacHeader => return Error::AacHeader,
        BodyFault::AvcHeader => return Error::AvcHeader,
    };
    let mapped: Result<(), Error> = map_parse_err(Err(failure), "tag data");
    match mapped {
        Ok(_) => Error::AacHeader,
        Err(error) => error,
    }
}

/// Reads the frame that should hold a tag header. An empty frame is the end of the stream.
pub fn next_tag_header(frame: &[u8]) -> (header: Result<Option<TagHeader>, Error>)
    ensures
        frame@.len() == 0 ==> header == Ok::<Option<TagHeader>, Error>(None),
        0 < frame@.len() < TAG_HEADER_SIZE ==> (header matches Err(
            Error::NomIncomplete(text, needed),
        ) && text@ == "tag header"@ && needed == Needed::Size(
            (TAG_HEADER_SIZE - frame@.len()) as usize,
        )),
        frame@.len() >= TAG_HEADER_SIZE && tag_type_of(frame@[0]) is None ==> (header matches Err(
            Error::Custom(text),
        ) && text@ == "parse "@ + "tag header"@ + " err: "@ + "unknown tag type"@),
        frame@.len() >= TAG_HEADER_SIZE && tag_type_of(frame@[0]) is Some ==> header == Ok::<
            Option<TagHeader>,
            Error,
        >(Some(header_of(frame@))),
{
    if frame.len() == 0 {
        return Ok(None);
    }
    match map_parse_err(tag_header(frame), "tag header") {
        Ok(header) => Ok(Some(header)),
        Err(error) => Err(error),
    }
}

} // verus!
