//! When a recording is cut into another file: by elapsed time or by size.

use crate::time::{Duration, MAX_DURATION_NANOS};
use crate::timestamp::DEFAULT_TIMESTAMP_ANOMALY_THRESHOLD_MS;
use vstd::prelude::*;

verus! {

/// What a cut goes by: where it stands and where the limit lies.
#[derive(Debug)]
pub enum Segment {
    Time(Duration, Duration),
    Size(u64, u64),
    Never,
}

/// The limits of a segment and its position, as numbers. Times are nanoseconds.
pub struct SegmentState {
    pub expected_time: Option<nat>,
    pub start: nat,
    pub current: nat,
    pub expected_size: Option<nat>,
    pub size: nat,
    pub threshold_ms: u32,
}

impl SegmentState {
    /// The time since the start of the segment, zero where the position lies before it.
    pub open spec fn elapsed(self) -> nat {
        if self.current >= self.start {
            (self.current - self.start) as nat
        } else {
            0
        }
    }

    /// The time limit has been reached.
    pub open spec fn time_reached(self) -> bool {
        self.expected_time matches Some(limit) && self.elapsed() >= limit
    }

    /// The size limit has been reached.
    pub open spec fn size_reached(self) -> bool {
        self.expected_size matches Some(limit) && self.size >= limit
    }

    /// Either limit has been reached.
    pub open spec fn reached(self) -> bool {
        self.time_reached() || self.size_reached()
    }
}

impl SegmentState {
    /// Which limits have been reached, in words.
    pub open spec fn reason(self) -> Seq<char> {
        match (self.time_reached(), self.size_reached()) {
            (true, true) => "Time and size limits reached"@,
            (true, false) => "Time limit reached"@,
            (false, true) => "Size limit reached"@,
            (false, false) => "No segmentation needed"@,
        }
    }
}

/// A segment at its beginning.
pub open spec fn fresh_segment(
    expected_time: Option<nat>,
    expected_size: Option<nat>,
) -> SegmentState {
    SegmentState {
        expected_time,
        start: 0,
        current: 0,
        expected_size,
        size: 0,
        threshold_ms: DEFAULT_TIMESTAMP_ANOMALY_THRESHOLD_MS,
    }
}

#[derive(Debug, Clone, Copy)]
struct Time {
    expected: Option<Duration>,
    start: Duration,
    current: Duration,
}

#[derive(Debug, Clone, Copy)]
struct Size {
    expected: Option<u64>,
    current: u64,
}

/// The limits of a segment and how far it has come.
#[derive(Debug, Clone, Copy)]
pub struct Segmentable {
    time: Time,
    size: Size,
    timestamp_anomaly_threshold_ms: u32,
}

/// A limit on time as a number.
pub open spec fn nanos_of(limit: Option<Duration>) -> Option<nat> {
    match limit {
        Some(d) => Some(d@),
        None => None,
    }
}

/// A limit on size as a number.
pub open spec fn bytes_of(limit: Option<u64>) -> Option<nat> {
    match limit {
        Some(n) => Some(n as nat),
        None => None,
    }
}

impl View for Segmentable {
    type V = SegmentState;

    closed spec fn view(&self) -> SegmentState {
        SegmentState {
            expected_time: nanos_of(self.time.expected),
            start: self.time.start@,
            current: self.time.current@,
            expected_size: bytes_of(self.size.expected),
            size: self.size.current as nat,
            threshold_ms: self.timestamp_anomaly_threshold_ms,
        }
    }
}

impl Default for Segmentable {
    /// A segment without limits.
    fn default() -> (segment: Self)
        ensures
            segment@ == fresh_segment(None, None),
    {
        Segmentable::new(None, None)
    }
}

/// How far one limit has been used up, its numbers written out.
#[derive(Debug)]
pub struct Progress {
    pub current: String,
    pub expected: String,
    pub percentage: String,
}

/// One limit in words.
pub open spec fn progress_text(
    label: Seq<char>,
    limited: bool,
    progress: Progress,
    unit: Seq<char>,
) -> Seq<char> {
    if limited {
        label + ": "@ + progress.current@ + "/"@ + progress.expected@ + " "@ + unit + " ("@
            + progress.percentage@ + "%)"@
    } else {
        label + ": No limit"@
    }
}

impl Segmentable {
    /// A segment at its beginning, under the given limits.
    pub fn new(expected_time: Option<Duration>, expected_size: Option<u64>) -> (segment: Self)
        ensures
            segment@ == fresh_segment(nanos_of(expected_time), bytes_of(expected_size)),
    {
        Segmentable {
            time: Time {
                expected: expected_time,
                start: Duration::zero(),
                current: Duration::zero(),
            },
            size: Size { expected: expected_size, current: 0 },
            timestamp_anomaly_threshold_ms: DEFAULT_TIMESTAMP_ANOMALY_THRESHOLD_MS,
        }
    }

    /// Regressions from this many milliseconds on cut the file; zero turns the rule off.
    pub fn set_timestamp_anomaly_threshold_ms(&mut self, threshold_ms: u32)
        ensures
            final(self)@ == (SegmentState { threshold_ms, ..old(self)@ }),
    {
        self.timestamp_anomaly_threshold_ms = threshold_ms;
    }

    pub fn timestamp_anomaly_threshold_ms(&self) -> (threshold_ms: u32)
        ensures
            threshold_ms == self@.threshold_ms,
    {
        self.timestamp_anomaly_threshold_ms
    }

    /// Whether either limit has been reached.
    pub fn needed(&self) -> (needed: bool)
        ensures
            needed == self@.reached(),
    {
        self.time_needed() || self.size_needed()
    }

    /// The time since the start of the segment.
    pub fn elapsed_time(&self) -> (elapsed: Duration)
        ensures
            elapsed@ == self@.elapsed(),
    {
        self.time.current.saturating_sub(self.time.start)
    }

    /// The limit on time.
    pub fn expected_time(&self) -> (limit: Option<Duration>)
        ensures
            nanos_of(limit) == self@.expected_time,
    {
        self.time.expected
    }

    /// The limit on size.
    pub fn expected_size(&self) -> (limit: Option<u64>)
        ensures
            bytes_of(limit) == self@.expected_size,
    {
        self.size.expected
    }

    /// The bytes so far.
    pub fn size_position(&self) -> (size: u64)
        ensures
            size == self@.size,
    {
        self.size.current
    }

    /// The time so far.
    pub fn time_position(&self) -> (position: Duration)
        ensures
            position@ == self@.current,
    {
        self.time.current
    }

    /// Whether the time limit has been reached.
    pub fn time_needed(&self) -> (needed: bool)
        ensures
            needed == self@.time_reached(),
    {
        match self.time.expected {
            Some(expected_time) => self.elapsed_time().nanos >= expected_time.nanos,
            None => false,
        }
    }

    /// Whether the size limit has been reached.
    pub fn size_needed(&self) -> (needed: bool)
        ensures
            needed == self@.size_reached(),
    {
        match self.size.expected {
            Some(expected_size) => self.size.current >= expected_size,
            None => false,
        }
    }

    /// Which limits have been reached, in words.
    pub fn get_segment_reason(&self) -> (reason: String)
        ensures
            reason@ == self@.reason(),
    {
        match (self.time_needed(), self.size_needed()) {
            (true, true) => "Time and size limits reached".to_owned(),
            (true, false) => "Time limit reached".to_owned(),
            (false, true) => "Size limit reached".to_owned(),
            (false, false) => "No segmentation needed".to_owned(),
        }
    }

    /// Moves the time position on. The sum has to fit into a span.
    pub fn increase_time(&mut self, number: Duration)
        requires
            old(self)@.current + number@ <= MAX_DURATION_NANOS,
        ensures
            final(self)@ == (SegmentState {
                current: old(self)@.current + number@,
                ..old(self)@
            }),
    {
        self.time.current = Duration { nanos: self.time.current.nanos + number.nanos };
    }

    pub fn set_time_position(&mut self, number: Duration)
        ensures
            final(self)@ == (SegmentState { current: number@, ..old(self)@ }),
    {
        self.time.current = number;
    }

    pub fn set_start_time(&mut self, number: Duration)
        ensures
            final(self)@ == (SegmentState { start: number@, ..old(self)@ }),
    {
        self.time.start = number;
    }

    /// Counts bytes. The sum has to fit.
    pub fn increase_size(&mut self, number: u64)
        requires
            old(self)@.size + number <= u64::MAX,
        ensures
            final(self)@ == (SegmentState {
                size: (old(self)@.size + number) as nat,
                ..old(self)@
            }),
    {
        self.size.current = self.size.current + number;
    }

    pub fn set_size_position(&mut self, number: u64)
        ensures
            final(self)@ == (SegmentState { size: number as nat, ..old(self)@ }),
    {
        self.size.current = number;
    }

    /// Begins the next segment at the present time position.
    pub fn reset(&mut self)
        ensures
            final(self)@ == (SegmentState { size: 0, start: old(self)@.current, ..old(self)@ }),
    {
        self.size.current = 0;
        self.time.start = self.time.current;
    }

    /// Goes back to the very beginning, under the same limits.
    pub fn full_reset(&mut self)
        ensures
            final(self)@ == (SegmentState { size: 0, start: 0, current: 0, ..old(self)@ }),
    {
        self.size.current = 0;
        self.time.current = Duration::zero();
        self.time.start = Duration::zero();
    }

    /// One limit in words.
    fn format_progress(label: &str, limited: bool, progress: &Progress, unit: &str) -> (text: String)
        ensures
            text@ == progress_text(label@, limited, *progress, unit@),
    {
        let mut text = label.to_owned();
        if limited {
            text.append(": ");
            text.append(progress.current.as_str());
            text.append("/");
            text.append(progress.expected.as_str());
            text.append(" ");
            text.append(unit);
            text.append(" (");
            text.append(progress.percentage.as_str());
            text.append("%)");
        } else {
            text.append(": No limit");
        }
        assert(text@ =~= progress_text(label@, limited, *progress, unit@));
        text
    }

    /// Both limits in words. The numbers come written out.
    pub fn get_status(&self, time: &Progress, size: &Progress) -> (text: String)
        ensures
            text@ == progress_text("Time"@, self@.expected_time is Some, *time, "s"@) + ", "@
                + progress_text("Size"@, self@.expected_size is Some, *size, "bytes"@),
    {
        let mut text = Self::format_progress("Time", self.time.expected.is_some(), time, "s");
        text.append(", ");
        let size_info = Self::format_progress(
            "Size",
            self.size.expected.is_some(),
            size,
            "bytes",
        );
        text.append(size_info.as_str());
        text
    }
}

} // verus!
