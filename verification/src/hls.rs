//! Recording a stream that is cut into numbered pieces and listed in a playlist: which rendition
//! is taken, which pieces are fetched, and when one file ends and the next begins.

use crate::outside_hls::{join_url, media_playlist_read, parse_url, playlist_read, read_media_playlist, read_playlist, url_joined, url_read, variants_of, MediaPlaylist, MediaSegment, Playlist, PlaylistData, PlaylistView, VariantData, VariantStream};
use crate::segment::{SegmentState, Segmentable};
use crate::time::{Duration, MAX_DURATION_NANOS, NANOS_PER_SEC};
use vstd::prelude::*;

verus! {

/// Playlists are not fetched again before this many seconds.
pub const MIN_PLAYLIST_POLL_SECS: u64 = 1;

/// A playlist may end this many pieces before the last one fetched without being a new one.
pub const HLS_SEQUENCE_REGRESSION_TOLERANCE: u64 = 5;

/// Why a recording ended early.
#[derive(Debug)]
pub enum HlsError {
    /// A playlist could not be read.
    Custom(String),
    /// An address could not be read.
    Url(String),
    /// A playlist of renditions has none.
    NoVariant,
    /// The number of a piece, the size or the length of a file cannot be counted.
    Overflow,
}

/// A text that follows another.
fn told(before: &str, text: &str) -> (whole: String)
    ensures
        whole@ == before@ + text@,
{
    let mut whole: String = before.to_owned();
    whole.append(text);
    whole
}

/// Reads a playlist of pieces.
pub fn parse_media_playlist(bytes: &[u8]) -> (playlist: Result<MediaPlaylist, HlsError>)
    ensures
        match media_playlist_read(bytes@) {
            Ok(data) => playlist is Ok && playlist->Ok_0@ == data,
            Err(e) => (playlist matches Err(HlsError::Custom(text)) && text@
                == "Unable to parse media playlist content: "@ + e),
        },
{
    match read_media_playlist(bytes) {
        Ok(playlist) => Ok(playlist),
        Err(e) => Err(
            HlsError::Custom(told("Unable to parse media playlist content: ", e.as_str())),
        ),
    }
}

/// How long to wait between two fetches of a playlist.
pub fn playlist_poll_interval(playlist: &MediaPlaylist) -> (interval: Duration)
    ensures
        interval@ == poll_nanos(playlist@),
{
    if playlist.target_duration > MIN_PLAYLIST_POLL_SECS {
        Duration::from_secs(playlist.target_duration)
    } else {
        Duration::from_secs(MIN_PLAYLIST_POLL_SECS)
    }
}

/// Whether more pieces may come.
pub fn playlist_should_refresh(playlist: &MediaPlaylist) -> (refresh: bool)
    ensures
        refresh == !playlist@.end_list,
{
    !playlist.end_list
}

/// The number of the last piece of a playlist, held to the largest number.
pub open spec fn last_sequence(playlist: PlaylistData) -> Option<u64> {
    if playlist.segments.len() == 0 {
        None
    } else if playlist.media_sequence + playlist.segments.len() - 1 > u64::MAX {
        Some(u64::MAX)
    } else {
        Some((playlist.media_sequence + playlist.segments.len() - 1) as u64)
    }
}

/// The number of the last piece of a playlist.
pub fn playlist_last_sequence(playlist: &MediaPlaylist) -> (last: Option<u64>)
    ensures
        last == last_sequence(playlist@),
{
    if playlist.segments.len() == 0 {
        None
    } else {
        let behind: u64 = (playlist.segments.len() - 1) as u64;
        Some(playlist.media_sequence.saturating_add(behind))
    }
}

/// A playlist ends so far before the last piece fetched that it must be a new one.
pub open spec fn regressed(previous: Option<u64>, current: Option<u64>) -> bool {
    previous is Some && current is Some && current->0 + HLS_SEQUENCE_REGRESSION_TOLERANCE
        < previous->0
}

pub fn is_sequence_regression(previous: Option<u64>, current: Option<u64>) -> (found: bool)
    ensures
        found == regressed(previous, current),
{
    match (previous, current) {
        (Some(p), Some(c)) => c.saturating_add(HLS_SEQUENCE_REGRESSION_TOLERANCE) < p,
        _ => false,
    }
}

/// A piece has not been fetched.
pub open spec fn is_new(previous: Option<u64>, current: u64) -> bool {
    previous matches Some(p) ==> current > p
}

pub fn should_download_sequence(previous: Option<u64>, current: u64) -> (new: bool)
    ensures
        new == is_new(previous, current),
{
    match previous {
        Some(p) => current > p,
        None => true,
    }
}

/// Pieces are missing between two.
pub open spec fn gap(previous: Option<u64>, current: u64) -> bool {
    previous matches Some(p) && current > p + 1
}

pub fn has_sequence_gap(previous: Option<u64>, current: u64) -> (found: bool)
    ensures
        found == gap(previous, current),
{
    match previous {
        Some(p) => current > p.saturating_add(1),
        None => false,
    }
}

// ---------------------------------------------------------------------------
// The rendition
// ---------------------------------------------------------------------------

/// A rendition that can be played, and, where it matters, is known to have a picture.
pub open spec fn eligible(variant: VariantData, with_resolution: bool) -> bool {
    !variant.is_i_frame && (with_resolution ==> variant.has_resolution)
}

/// Of the first `n` renditions, the last of those that take the most bandwidth.
pub open spec fn widest(variants: Seq<VariantData>, with_resolution: bool, n: int) -> Option<int>
    decreases n,
{
    if n <= 0 {
        None
    } else {
        let before = widest(variants, with_resolution, n - 1);
        if eligible(variants[n - 1], with_resolution) && (before matches Some(i)
            ==> variants[n - 1].bandwidth >= variants[i].bandwidth) {
            Some(n - 1)
        } else {
            before
        }
    }
}

/// The rendition that is recorded: the widest that has a picture, else the widest that can be
/// played, else the first.
pub open spec fn best_variant(variants: Seq<VariantData>) -> int {
    match widest(variants, true, variants.len() as int) {
        Some(i) => i,
        None => match widest(variants, false, variants.len() as int) {
            Some(i) => i,
            None => 0,
        },
    }
}

/// Of the renditions that count, none takes more bandwidth than the widest, and those behind it
/// take less.
pub proof fn widest_is_widest(variants: Seq<VariantData>, with_resolution: bool, n: int)
    requires
        n <= variants.len(),
    ensures
        match widest(variants, with_resolution, n) {
            Some(i) => {
                &&& 0 <= i < n
                &&& eligible(variants[i], with_resolution)
                &&& forall|k: int|
                    0 <= k < n && eligible(#[trigger] variants[k], with_resolution)
                        ==> variants[k].bandwidth <= variants[i].bandwidth
                &&& forall|k: int|
                    i < k < n && eligible(#[trigger] variants[k], with_resolution)
                        ==> variants[k].bandwidth < variants[i].bandwidth
            },
            None => forall|k: int|
                0 <= k < n ==> !eligible(#[trigger] variants[k], with_resolution),
        },
    decreases n,
{
    if n > 0 {
        widest_is_widest(variants, with_resolution, n - 1);
    }
}

fn find_widest(variants: &Vec<VariantStream>, with_resolution: bool) -> (found: Option<usize>)
    ensures
        match found {
            Some(i) => widest(variants_of(variants@), with_resolution, variants@.len() as int)
                == Some(i as int) && i < variants@.len(),
            None => widest(variants_of(variants@), with_resolution, variants@.len() as int) is None,
        },
{
    let mut best: Option<usize> = None;
    let mut n: usize = 0;
    while n < variants.len()
        invariant
            n <= variants.len(),
            match best {
                Some(i) => widest(variants_of(variants@), with_resolution, n as int) == Some(
                    i as int,
                ) && i < n,
                None => widest(variants_of(variants@), with_resolution, n as int) is None,
            },
        decreases variants.len() - n,
    {
        let variant: &VariantStream = &variants[n];
        assert(variants_of(variants@)[n as int] == variant@);
        let fits: bool = !variant.is_i_frame && (!with_resolution || variant.has_resolution);
        let wider: bool = match best {
            Some(i) => {
                assert(variants_of(variants@)[i as int] == variants@[i as int]@);
                variant.bandwidth >= variants[i].bandwidth
            },
            None => true,
        };
        if fits && wider {
            best = Some(n);
        }
        n += 1;
    }
    best
}

/// The rendition that is recorded.
pub fn select_variant(variants: &Vec<VariantStream>) -> (best: usize)
    requires
        variants@.len() > 0,
    ensures
        best == best_variant(variants_of(variants@)),
        best < variants@.len(),
{
    match find_widest(variants, true) {
        Some(i) => i,
        None => match find_widest(variants, false) {
            Some(i) => i,
            None => 0,
        },
    }
}

/// What the first document leads to.
#[derive(Debug)]
pub enum Opening {
    /// It lists the pieces itself.
    Media { url: String, playlist: MediaPlaylist },
    /// The pieces are listed at another address.
    Variant { url: String },
}

/// What the first document, found at `url`, leads to.
pub open spec fn opened(
    url: Seq<char>,
    document: Result<PlaylistView, Seq<char>>,
    opening: Result<Opening, HlsError>,
) -> bool {
    match url_read(url) {
        Err(e) => (opening matches Err(HlsError::Url(text)) && text@ == e),
        Ok(base) => match document {
            Err(e) => (opening matches Err(HlsError::Custom(text)) && text@
                == "Parsing playlist error: "@ + e),
            Ok(PlaylistView::Media(data)) => (opening matches Ok(Opening::Media { url, playlist })
                && url@ == base && playlist@ == data),
            Ok(PlaylistView::Master(variants)) => if variants.len() == 0 {
                opening matches Err(HlsError::NoVariant)
            } else {
                match url_joined(base, variants[best_variant(variants)].uri) {
                    Ok(joined) => (opening matches Ok(Opening::Variant { url }) && url@ == joined),
                    Err(e) => (opening matches Err(HlsError::Url(text)) && text@ == e),
                }
            },
        },
    }
}

/// Goes on from the first document, once it has been read.
pub fn open_document(url: &str, document: Result<Playlist, String>) -> (opening: Result<
    Opening,
    HlsError,
>)
    ensures
        opened(
            url@,
            match document {
                Ok(playlist) => Ok::<PlaylistView, Seq<char>>(playlist@),
                Err(e) => Err::<PlaylistView, Seq<char>>(e@),
            },
            opening,
        ),
{
    let base: String = match parse_url(url) {
        Ok(base) => base,
        Err(e) => return Err(HlsError::Url(e)),
    };
    match document {
        Err(e) => Err(HlsError::Custom(told("Parsing playlist error: ", e.as_str()))),
        Ok(Playlist::Media(playlist)) => Ok(Opening::Media { url: base, playlist }),
        Ok(Playlist::Master(variants)) => {
            if variants.len() == 0 {
                return Err(HlsError::NoVariant);
            }
            let best: usize = select_variant(&variants);
            assert(variants_of(variants@)[best as int] == variants@[best as int]@);
            match join_url(base.as_str(), variants[best].uri.as_str()) {
                Ok(joined) => Ok(Opening::Variant { url: joined }),
                Err(e) => Err(HlsError::Url(e)),
            }
        },
    }
}

/// Reads the first document and tells where the pieces are listed.
pub fn open_playlist(url: &str, bytes: &[u8]) -> (opening: Result<Opening, HlsError>)
    ensures
        opened(url@, playlist_read(bytes@), opening),
{
    open_document(url, read_playlist(bytes))
}

// ---------------------------------------------------------------------------
// The recorder
// ---------------------------------------------------------------------------

/// What the recorder asks for, in order.
#[derive(Debug, Clone, Copy, PartialEq, Eq, Structural)]
pub enum HlsAction {
    /// Tell that the present file has its first bytes.
    Started,
    /// Tell that the present file is complete.
    Ended,
    /// Close the present file and open the next.
    CreateNew,
}

/// What comes next.
#[derive(Debug)]
pub enum HlsNext {
    /// Fetch the piece that this refers to into the present file. Its length in seconds comes
    /// with it, as the bits of a number of single precision.
    Fetch { uri: String, duration_bits: u32 },
    /// Fetch the playlist again, this long after the last time.
    Refresh(Duration),
    /// The stream is over.
    Finished,
    /// There is no number for the next piece.
    Overflow,
}

/// What comes next, by its view. Times are nanoseconds.
pub enum NextView {
    Fetch { uri: Seq<char>, duration_bits: u32 },
    Refresh(nat),
    Finished,
    Overflow,
}

impl View for HlsNext {
    type V = NextView;

    open spec fn view(&self) -> NextView {
        match *self {
            HlsNext::Fetch { uri, duration_bits } => NextView::Fetch { uri: uri@, duration_bits },
            HlsNext::Refresh(interval) => NextView::Refresh(interval@),
            HlsNext::Finished => NextView::Finished,
            HlsNext::Overflow => NextView::Overflow,
        }
    }
}

/// Where the recording stands.
#[verifier::ext_equal]
pub struct HlsState {
    pub media_url: Seq<char>,
    pub playlist: PlaylistData,
    /// The piece of the playlist that comes next, and its number.
    pub index: int,
    pub sequence: u64,
    /// The number of the last piece that was fetched.
    pub last: Option<u64>,
    /// The present file has bytes.
    pub started: bool,
    /// The file before the present one had bytes.
    pub before_started: bool,
    pub segment: SegmentState,
}

/// The state and what has been asked for.
#[verifier::ext_equal]
pub struct HlsRun {
    pub state: HlsState,
    pub actions: Seq<HlsAction>,
}

/// The recording of a stream whose pieces `playlist` lists.
pub open spec fn fresh_hls(
    media_url: Seq<char>,
    playlist: PlaylistData,
    segment: SegmentState,
) -> HlsState {
    HlsState {
        media_url,
        playlist,
        index: 0,
        sequence: playlist.media_sequence,
        last: None,
        started: false,
        before_started: false,
        segment,
    }
}

/// Ends the present file and begins the next.
pub open spec fn hls_split(run: HlsRun) -> HlsRun {
    HlsRun {
        state: HlsState {
            started: false,
            before_started: run.state.started,
            segment: SegmentState {
                size: 0,
                start: run.state.segment.current,
                ..run.state.segment
            },
            ..run.state
        },
        actions: (if run.state.started {
            run.actions.push(HlsAction::Ended)
        } else {
            run.actions
        }).push(HlsAction::CreateNew),
    }
}

/// The next file could not be opened: the file before it is the present one again.
pub open spec fn hls_unsplit(state: HlsState) -> HlsState {
    HlsState { started: state.before_started, ..state }
}

/// The first bytes of a piece have come. The first ones of a file start it.
pub open spec fn hls_begun(state: HlsState) -> HlsRun {
    HlsRun {
        state: HlsState { started: true, ..state },
        actions: if state.started {
            Seq::empty()
        } else {
            seq![HlsAction::Started]
        },
    }
}

/// The recording is over: a file that was started ends.
pub open spec fn hls_finished(state: HlsState) -> HlsRun {
    HlsRun {
        state: HlsState { started: false, ..state },
        actions: if state.started {
            seq![HlsAction::Ended]
        } else {
            Seq::empty()
        },
    }
}

/// Goes on to the next piece, where there is a number for it.
pub open spec fn stepped(state: HlsState) -> Option<HlsState> {
    if state.sequence == u64::MAX {
        None
    } else {
        Some(
            HlsState {
                index: state.index + 1,
                sequence: (state.sequence + 1) as u64,
                ..state
            },
        )
    }
}

/// Passes over the pieces that have been fetched.
pub open spec fn passed_over(state: HlsState) -> Option<HlsState>
    decreases state.playlist.segments.len() - state.index,
{
    if state.index < 0 || state.index >= state.playlist.segments.len() || is_new(
        state.last,
        state.sequence,
    ) {
        Some(state)
    } else {
        match stepped(state) {
            None => None,
            Some(next) => passed_over(next),
        }
    }
}

/// A piece does not continue the present file: the stream says so, or pieces are missing before
/// it and the rule on time anomalies is on.
pub open spec fn breaks_off(state: HlsState) -> bool {
    ||| state.segment.threshold_ms > 0 && gap(state.last, state.sequence)
    ||| state.playlist.segments[state.index].discontinuity
}

/// How long to wait between two fetches of a playlist.
pub open spec fn poll_nanos(playlist: PlaylistData) -> nat {
    (NANOS_PER_SEC * (if playlist.target_duration > MIN_PLAYLIST_POLL_SECS {
        playlist.target_duration
    } else {
        MIN_PLAYLIST_POLL_SECS
    })) as nat
}

/// What comes next, and the state and the actions before it.
pub open spec fn hls_next(state: HlsState) -> (HlsRun, NextView) {
    match passed_over(state) {
        None => (HlsRun { state, actions: Seq::empty() }, NextView::Overflow),
        Some(there) => {
            let here = HlsRun { state: there, actions: Seq::empty() };
            if there.index >= there.playlist.segments.len() {
                (
                    here,
                    if there.playlist.end_list {
                        NextView::Finished
                    } else {
                        NextView::Refresh(poll_nanos(there.playlist))
                    },
                )
            } else {
                (
                    if breaks_off(there) {
                        hls_split(here)
                    } else {
                        here
                    },
                    NextView::Fetch {
                        uri: there.playlist.segments[there.index].uri,
                        duration_bits: there.playlist.segments[there.index].duration_bits,
                    },
                )
            }
        },
    }
}

/// A piece of `length` bytes and `span` nanoseconds has been fetched.
pub open spec fn hls_fetched(state: HlsState, length: int, span: int) -> Option<HlsRun> {
    let size = state.segment.size + length;
    let current = state.segment.current + span;
    if size > u64::MAX || current > MAX_DURATION_NANOS {
        None
    } else {
        let grown = HlsRun {
            state: HlsState {
                segment: SegmentState {
                    size: size as nat,
                    current: current as nat,
                    ..state.segment
                },
                ..state
            },
            actions: Seq::empty(),
        };
        let run = if grown.state.segment.reached() {
            hls_split(grown)
        } else {
            grown
        };
        match stepped(HlsState { last: Some(run.state.sequence), ..run.state }) {
            None => None,
            Some(next) => Some(HlsRun { state: next, ..run }),
        }
    }
}

/// The playlist has been fetched again. Where it is a new one, a new file begins, and all its
/// pieces are new.
pub open spec fn hls_refreshed(state: HlsState, playlist: PlaylistData) -> HlsRun {
    let here = HlsRun { state, actions: Seq::empty() };
    let run = if state.segment.threshold_ms > 0 && regressed(
        state.last,
        last_sequence(playlist),
    ) {
        let split = hls_split(here);
        HlsRun { state: HlsState { last: None, ..split.state }, ..split }
    } else {
        here
    };
    HlsRun {
        state: HlsState {
            playlist,
            index: 0,
            sequence: playlist.media_sequence,
            ..run.state
        },
        ..run
    }
}

/// The address that `uri` refers to, taken from where the pieces are listed.
pub open spec fn address_of(state: HlsState, uri: Seq<char>) -> Result<Seq<char>, Seq<char>> {
    url_joined(state.media_url, uri)
}

/// The recorder of one stream.
pub struct HlsRecorder {
    media_url: String,
    playlist: MediaPlaylist,
    index: usize,
    sequence: u64,
    last: Option<u64>,
    started: bool,
    before_started: bool,
    segment: Segmentable,
}

impl View for HlsRecorder {
    type V = HlsState;

    closed spec fn view(&self) -> HlsState {
        HlsState {
            media_url: self.media_url@,
            playlist: self.playlist@,
            index: self.index as int,
            sequence: self.sequence,
            last: self.last,
            started: self.started,
            before_started: self.before_started,
            segment: self.segment@,
        }
    }
}

impl HlsRecorder {
    /// The next piece lies in the playlist or right behind it.
    pub open spec fn wf(&self) -> bool {
        0 <= self@.index <= self@.playlist.segments.len()
    }

    pub fn new(media_url: String, playlist: MediaPlaylist, segment: Segmentable) -> (recorder: Self)
        ensures
            recorder@ == fresh_hls(media_url@, playlist@, segment@),
            recorder.wf(),
    {
        let sequence: u64 = playlist.media_sequence;
        HlsRecorder {
            media_url,
            playlist,
            index: 0,
            sequence,
            last: None,
            started: false,
            before_started: false,
            segment,
        }
    }

    fn split(&mut self, actions: &mut Vec<HlsAction>)
        ensures
            ({
                let run = hls_split(HlsRun { state: old(self)@, actions: old(actions)@ });
                final(self)@ == run.state && final(actions)@ == run.actions
            }),
    {
        if self.started {
            actions.push(HlsAction::Ended);
        }
        actions.push(HlsAction::CreateNew);
        self.segment.reset();
        self.before_started = self.started;
        self.started = false;
    }

    /// The next file could not be opened. The end of the file before it, which has been told, is
    /// told once more at the end of the recording.
    pub fn on_create_failed(&mut self)
        ensures
            final(self)@ == hls_unsplit(old(self)@),
    {
        self.started = self.before_started;
    }

    /// Where the pieces are listed.
    pub fn media_url(&self) -> (url: &str)
        ensures
            url@ == self@.media_url,
    {
        self.media_url.as_str()
    }

    /// The address of the piece that `uri` refers to.
    pub fn piece_url(&self, uri: &str) -> (url: Result<String, HlsError>)
        ensures
            match address_of(self@, uri@) {
                Ok(joined) => url is Ok && url->Ok_0@ == joined,
                Err(e) => (url matches Err(HlsError::Url(text)) && text@ == e),
            },
    {
        match join_url(self.media_url.as_str(), uri) {
            Ok(url) => Ok(url),
            Err(e) => Err(HlsError::Url(e)),
        }
    }

    /// What comes next, and what is to be done before it.
    pub fn next(&mut self) -> (step: (Vec<HlsAction>, HlsNext))
        requires
            old(self).wf(),
        ensures
            final(self).wf(),
            step.0@ == hls_next(old(self)@).0.actions,
            step.1@ == hls_next(old(self)@).1,
            !(step.1 is Overflow) ==> final(self)@ == hls_next(old(self)@).0.state,
            step.1 is Fetch ==> final(self)@.index < final(self)@.playlist.segments.len(),
    {
        let mut actions: Vec<HlsAction> = Vec::new();
        while self.index < self.playlist.segments.len() && !should_download_sequence(
            self.last,
            self.sequence,
        )
            invariant
                self.wf(),
                passed_over(old(self)@) == passed_over(self@),
                actions@ == Seq::<HlsAction>::empty(),
            decreases self.playlist.segments.len() - self.index,
        {
            if self.sequence == u64::MAX {
                return (actions, HlsNext::Overflow);
            }
            self.index = self.index + 1;
            self.sequence = self.sequence + 1;
        }
        if self.index >= self.playlist.segments.len() {
            if !playlist_should_refresh(&self.playlist) {
                return (actions, HlsNext::Finished);
            }
            return (actions, HlsNext::Refresh(playlist_poll_interval(&self.playlist)));
        }
        assert(self@.playlist.segments[self@.index] == self.playlist.segments@[self.index as int]@);
        let missing: bool = has_sequence_gap(self.last, self.sequence);
        let anomaly: bool = self.segment.timestamp_anomaly_threshold_ms() > 0 && missing;
        if anomaly || self.playlist.segments[self.index].discontinuity {
            self.split(&mut actions);
        }
        let piece: &MediaSegment = &self.playlist.segments[self.index];
        let uri: String = piece.uri.clone();
        (actions, HlsNext::Fetch { uri, duration_bits: piece.duration_bits })
    }

    /// The first bytes of a piece have come.
    pub fn on_first_chunk(&mut self) -> (actions: Vec<HlsAction>)
        ensures
            actions@ == hls_begun(old(self)@).actions,
            final(self)@ == hls_begun(old(self)@).state,
    {
        let mut actions: Vec<HlsAction> = Vec::new();
        if !self.started {
            actions.push(HlsAction::Started);
            self.started = true;
        }
        assert(actions@ =~= hls_begun(old(self)@).actions);
        actions
    }

    /// The piece that came next has been fetched.
    pub fn on_fetched(&mut self, length: u64, span: Duration) -> (actions: Result<
        Vec<HlsAction>,
        HlsError,
    >)
        requires
            old(self).wf(),
            old(self)@.index < old(self)@.playlist.segments.len(),
        ensures
            match hls_fetched(old(self)@, length as int, span@ as int) {
                Some(run) => actions is Ok && actions->Ok_0@ == run.actions && final(self)@
                    == run.state && final(self).wf(),
                None => actions == Err::<Vec<HlsAction>, HlsError>(HlsError::Overflow),
            },
    {
        let mut actions: Vec<HlsAction> = Vec::new();
        if self.segment.size_position() > u64::MAX - length || span.nanos > MAX_DURATION_NANOS
            || self.segment.time_position().nanos > MAX_DURATION_NANOS - span.nanos {
            return Err(HlsError::Overflow);
        }
        self.segment.increase_size(length);
        self.segment.increase_time(span);
        if self.segment.needed() {
            self.split(&mut actions);
        }
        self.last = Some(self.sequence);
        if self.sequence == u64::MAX {
            return Err(HlsError::Overflow);
        }
        assert(self.index < self.playlist.segments.len() <= usize::MAX);
        self.index = self.index + 1;
        self.sequence = self.sequence + 1;
        Ok(actions)
    }

    /// The playlist has been fetched again.
    pub fn on_playlist(&mut self, playlist: MediaPlaylist) -> (actions: Vec<HlsAction>)
        ensures
            final(self).wf(),
            final(self)@ == hls_refreshed(old(self)@, playlist@).state,
            actions@ == hls_refreshed(old(self)@, playlist@).actions,
    {
        let mut actions: Vec<HlsAction> = Vec::new();
        if self.segment.timestamp_anomaly_threshold_ms() > 0 && is_sequence_regression(
            self.last,
            playlist_last_sequence(&playlist),
        ) {
            self.split(&mut actions);
            self.last = None;
        }
        self.sequence = playlist.media_sequence;
        self.playlist = playlist;
        self.index = 0;
        actions
    }

    /// The recording is over, for whatever reason.
    pub fn finish(&mut self) -> (actions: Vec<HlsAction>)
        ensures
            actions@ == hls_finished(old(self)@).actions,
            final(self)@ == hls_finished(old(self)@).state,
    {
        let mut actions: Vec<HlsAction> = Vec::new();
        if self.started {
            actions.push(HlsAction::Ended);
            self.started = false;
        }
        assert(actions@ =~= hls_finished(old(self)@).actions);
        actions
    }
}

} // verus!
