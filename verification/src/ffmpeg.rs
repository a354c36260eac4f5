//! Following an FFmpeg process: what its output says, when its files start and end, and what
//! becomes of them.

use crate::path::{plain, same_path, strip_part_suffix, without_part};
use crate::text::{chars_of, contains, ends_with, find, find_from, find_is_first, lower, lowered, push_signed, rfind, rfind_from, rfind_is_last, signed_decimal, stands_at, starts_with, string_of, text_starts_with};
use crate::time::{Duration, NANOS_PER_SEC};
use crate::timestamp::TIMESTAMP_ANOMALY_COOLDOWN_SECS;
use vstd::prelude::*;
use vstd::slice::slice_subrange;

verus! {

// ---------------------------------------------------------------------------
// Lines of output
// ---------------------------------------------------------------------------

/// A line by which FFmpeg complains of decreasing times.
pub open spec fn complains(line: Seq<char>) -> bool {
    let small = lower(line);
    ||| contains(small, "non-monotonic dts"@)
    ||| contains(small, "non-monotonous dts"@)
    ||| contains(small, "non monotonically increasing dts"@)
}

/// Whether FFmpeg complains of decreasing times.
pub fn is_ffmpeg_timestamp_anomaly_line(line: &str) -> (found: bool)
    ensures
        found == complains(line@),
{
    let small: Vec<char> = lowered(chars_of(line).as_slice());
    let first: Vec<char> = chars_of("non-monotonic dts");
    let second: Vec<char> = chars_of("non-monotonous dts");
    let third: Vec<char> = chars_of("non monotonically increasing dts");
    find_from(small.as_slice(), first.as_slice(), 0).is_some() || find_from(
        small.as_slice(),
        second.as_slice(),
        0,
    ).is_some() || find_from(small.as_slice(), third.as_slice(), 0).is_some()
}

/// The path that a line says is being opened: what stands between the first opening mark and the
/// last closing mark, where it is an unfinished file.
pub open spec fn opened_path(line: Seq<char>) -> Option<Seq<char>> {
    let small = lower(line);
    match rfind(small, "' for writing"@, small.len() as int) {
        None => None,
        Some(end) => match find(small.take(end), "opening '"@, 0) {
            None => None,
            Some(mark) => {
                let path = line.subrange(mark + "opening '"@.len(), end);
                if path.len() == 0 || !ends_with(path, ".part"@) {
                    None
                } else {
                    Some(path)
                }
            },
        },
    }
}

/// The path that a line says is being opened.
pub fn parse_ffmpeg_opening_path(line: &str) -> (path: Option<String>)
    ensures
        match path {
            Some(text) => opened_path(line@) == Some(text@),
            None => opened_path(line@) is None,
        },
{
    let chars: Vec<char> = chars_of(line);
    let small: Vec<char> = lowered(chars.as_slice());
    let closing: Vec<char> = chars_of("' for writing");
    let opening: Vec<char> = chars_of("opening '");
    let suffix: Vec<char> = chars_of(".part");
    proof {
        rfind_is_last(small@, closing@, small@.len() as int);
    }
    let end: usize = match rfind_from(small.as_slice(), closing.as_slice()) {
        Some(end) => end,
        None => return None,
    };
    let front: &[char] = slice_subrange(small.as_slice(), 0, end);
    assert(front@ =~= small@.take(end as int));
    proof {
        find_is_first(front@, opening@, 0);
    }
    let mark: usize = match find_from(front, opening.as_slice(), 0) {
        Some(mark) => mark,
        None => return None,
    };
    let path: &[char] = slice_subrange(chars.as_slice(), mark + opening.len(), end);
    if path.len() == 0 || path.len() < suffix.len() || !stands_at(
        path,
        suffix.as_slice(),
        path.len() - suffix.len(),
    ) {
        return None;
    }
    Some(string_of(path))
}

/// Notices complaints of decreasing times, and not again before some time has passed.
#[derive(Debug, Clone, Copy)]
pub struct TimestampAnomalyDetector {
    pub enabled: bool,
    /// When it last reported one.
    pub last_trigger: Option<Duration>,
}

/// The time that has to pass between two reports.
pub fn timestamp_anomaly_cooldown() -> (span: Duration)
    ensures
        span@ == TIMESTAMP_ANOMALY_COOLDOWN_SECS * NANOS_PER_SEC,
{
    Duration::from_secs(TIMESTAMP_ANOMALY_COOLDOWN_SECS)
}

impl TimestampAnomalyDetector {
    /// A line at `now` is to be reported.
    pub open spec fn reports(self, line: Seq<char>, now: Duration) -> bool {
        &&& self.enabled
        &&& complains(line)
        &&& (self.last_trigger matches Some(last) ==> now@ >= last@
            + TIMESTAMP_ANOMALY_COOLDOWN_SECS * NANOS_PER_SEC)
    }

    /// The detector after a line.
    pub open spec fn after(self, line: Seq<char>, now: Duration) -> Self {
        if self.reports(line, now) {
            TimestampAnomalyDetector { last_trigger: Some(now), ..self }
        } else {
            self
        }
    }

    /// A detector that has reported nothing yet. A threshold of zero turns it off.
    pub open spec fn watching(threshold_ms: u32) -> Self {
        TimestampAnomalyDetector { enabled: threshold_ms > 0, last_trigger: None }
    }

    /// A threshold of zero turns the detector off.
    pub fn new(threshold_ms: u32) -> (detector: Self)
        ensures
            detector == Self::watching(threshold_ms),
    {
        TimestampAnomalyDetector { enabled: threshold_ms > 0, last_trigger: None }
    }

    /// Whether a line that came at `now` is to be reported.
    pub fn observe(&mut self, line: &str, now: Duration) -> (reported: bool)
        ensures
            reported == old(self).reports(line@, now),
            *final(self) == old(self).after(line@, now),
    {
        if !self.enabled || !is_ffmpeg_timestamp_anomaly_line(line) {
            return false;
        }
        if let Some(last) = self.last_trigger {
            if now.saturating_sub(last).nanos < timestamp_anomaly_cooldown().nanos {
                return false;
            }
        }
        self.last_trigger = Some(now);
        true
    }
}

/// Reports never follow each other more closely than the time that has to pass between them.
pub proof fn reports_keep_their_distance(
    detector: TimestampAnomalyDetector,
    first: Seq<char>,
    second: Seq<char>,
    then: Duration,
    now: Duration,
)
    requires
        detector.reports(first, then),
        now@ < then@ + TIMESTAMP_ANOMALY_COOLDOWN_SECS * NANOS_PER_SEC,
    ensures
        !detector.after(first, then).reports(second, now),
{
}

// ---------------------------------------------------------------------------
// The end of the process
// ---------------------------------------------------------------------------

/// How a recording came out.
#[derive(Debug)]
pub enum DownloadStatus {
    /// A file is complete; there may be more to record.
    SegmentCompleted,
    /// The stream is over.
    StreamEnded,
    /// The process failed.
    Error(String),
}

/// An exit code as it is shown.
pub open spec fn code_text(code: Option<i32>) -> Seq<char> {
    match code {
        Some(n) => "Some("@ + signed_decimal(n as int) + ")"@,
        None => "None"@,
    }
}

/// `status` is how a recording came out, by the exit code of the process. A cut that was asked
/// for is no failure.
pub open spec fn came_out(status: DownloadStatus, anomaly: bool, code: Option<i32>) -> bool {
    if anomaly || code == Some(0i32) {
        status == DownloadStatus::SegmentCompleted
    } else if code == Some(255i32) {
        status == DownloadStatus::StreamEnded
    } else {
        status matches DownloadStatus::Error(text) && text@ == "FFmpeg error: "@ + code_text(code)
    }
}

/// How a recording came out, by the exit code of the process. A cut that was asked for is no
/// failure.
pub fn exit_status(anomaly: bool, code: Option<i32>) -> (status: DownloadStatus)
    ensures
        came_out(status, anomaly, code),
{
    if anomaly {
        return DownloadStatus::SegmentCompleted;
    }
    let mut text = "FFmpeg error: ".to_owned();
    match code {
        Some(n) => {
            if n == 0 {
                return DownloadStatus::SegmentCompleted;
            }
            if n == 255 {
                return DownloadStatus::StreamEnded;
            }
            text.append("Some(");
            push_signed(&mut text, n as i64);
            text.append(")");
        },
        None => {
            text.append("None");
        },
    }
    assert(text@ =~= "FFmpeg error: "@ + code_text(code));
    DownloadStatus::Error(text)
}

/// The process that is held is the one that was interrupted, and has not been waited for.
pub open spec fn still_running(expected: Option<u32>, current: Option<Option<u32>>) -> bool {
    current matches Some(Some(pid)) && (expected matches Some(wanted) ==> pid == wanted)
}

/// Whether a process that was interrupted has to be killed once its time is up: only where the
/// process that is held is still the one that was interrupted, and has not been waited for.
///
/// `current` is what is held: no process, or a process with the number it has as long as it has
/// not been waited for.
pub fn should_force_kill(expected: Option<u32>, current: Option<Option<u32>>) -> (kill: bool)
    ensures
        kill == still_running(expected, current),
{
    match current {
        None => false,
        Some(None) => false,
        Some(Some(pid)) => match expected {
            Some(wanted) => pid == wanted,
            None => true,
        },
    }
}

/// What becomes of an unfinished file.
#[derive(Debug)]
pub enum PartFate {
    /// There is nothing to keep.
    Nothing,
    /// It is empty and goes.
    Remove,
    /// It already has its final name.
    Done(String),
    /// It gets its final name.
    Rename(String),
}

/// `fate` is what becomes of the unfinished file at `path`.
pub open spec fn is_fate(
    fate: PartFate,
    path: Seq<char>,
    exists: bool,
    final_exists: bool,
    length: Option<u64>,
) -> bool {
    let done = without_part(path);
    if !exists {
        if final_exists {
            fate matches PartFate::Done(text) && text@ == done
        } else {
            fate is Nothing
        }
    } else {
        match length {
            None => fate is Nothing,
            Some(0) => fate is Remove,
            Some(_) => if plain(path) == plain(done) {
                fate matches PartFate::Done(text) && text@ == done
            } else {
                fate matches PartFate::Rename(text) && text@ == done
            },
        }
    }
}

/// What becomes of the unfinished file at `path`. Its length is missing where it cannot be told.
pub fn finalize_part_file(
    path: &str,
    exists: bool,
    final_exists: bool,
    length: Option<u64>,
) -> (fate: PartFate)
    ensures
        is_fate(fate, path@, exists, final_exists, length),
{
    if !exists {
        if final_exists {
            return PartFate::Done(strip_part_suffix(path));
        }
        return PartFate::Nothing;
    }
    match length {
        None => PartFate::Nothing,
        Some(n) => {
            if n == 0 {
                return PartFate::Remove;
            }
            let done: String = strip_part_suffix(path);
            if same_path(path, done.as_str()) {
                PartFate::Done(done)
            } else {
                PartFate::Rename(done)
            }
        },
    }
}

// ---------------------------------------------------------------------------
// One process per file
// ---------------------------------------------------------------------------

/// What following a process asks for, in order.
#[derive(Debug)]
pub enum FileAction<T> {
    /// Tell that a file has started.
    Start(T),
    /// Tell that a file has ended.
    End(T),
    /// Give an unfinished file its final name.
    Finalize(T),
    /// Remove an unfinished file that is empty.
    Remove(T),
    /// Make the process stop, so that the next file can begin.
    Stop,
}

impl View for FileAction<String> {
    type V = FileAction<Seq<char>>;

    open spec fn view(&self) -> FileAction<Seq<char>> {
        match *self {
            FileAction::Start(path) => FileAction::Start(path@),
            FileAction::End(path) => FileAction::End(path@),
            FileAction::Finalize(path) => FileAction::Finalize(path@),
            FileAction::Remove(path) => FileAction::Remove(path@),
            FileAction::Stop => FileAction::Stop,
        }
    }
}

/// Actions by their views.
pub open spec fn file_actions(actions: Seq<FileAction<String>>) -> Seq<FileAction<Seq<char>>> {
    actions.map_values(|a: FileAction<String>| a@)
}

/// Asks for one thing more.
pub(crate) fn push_action(actions: &mut Vec<FileAction<String>>, action: FileAction<String>)
    ensures
        file_actions(final(actions)@) == file_actions(old(actions)@).push(action@),
{
    actions.push(action);
    assert(file_actions(actions@) =~= file_actions(old(actions)@).push(action@));
}

/// Where a process that writes one file stands.
#[derive(Debug)]
pub struct ExternalSegment {
    pub output: String,
    pub detector: TimestampAnomalyDetector,
    /// The process has reported progress.
    pub progress_started: bool,
    /// The process was asked to stop.
    pub anomaly: bool,
    /// The start of the file has been told.
    pub started: bool,
    /// The end of the file has been told.
    pub ended: bool,
}

/// The start of the file, where it has not been told.
pub open spec fn start_once(s: ExternalSegment) -> Seq<FileAction<Seq<char>>> {
    if s.started {
        Seq::empty()
    } else {
        seq![FileAction::Start(s.output@)]
    }
}

/// The end of the file, where it has not been told.
pub open spec fn end_once(s: ExternalSegment) -> Seq<FileAction<Seq<char>>> {
    if s.ended {
        Seq::empty()
    } else {
        seq![FileAction::End(s.output@)]
    }
}

/// A process that writes one file, and what has been asked for.
pub struct ExternalRun {
    pub state: ExternalSegment,
    pub actions: Seq<FileAction<Seq<char>>>,
}

/// A line of progress: the first one starts the file.
pub open spec fn after_progress(s: ExternalSegment, line: Seq<char>) -> ExternalRun {
    let first = !s.progress_started && starts_with(line, "progress="@);
    ExternalRun {
        state: ExternalSegment {
            progress_started: s.progress_started || first,
            started: s.started || first,
            ..s
        },
        actions: if first {
            start_once(s)
        } else {
            Seq::empty()
        },
    }
}

/// A line of the log: a complaint that is to be reported ends the file and stops the process.
pub open spec fn after_message(s: ExternalSegment, line: Seq<char>, now: Duration) -> ExternalRun {
    let reported = s.detector.reports(line, now);
    ExternalRun {
        state: ExternalSegment {
            detector: s.detector.after(line, now),
            anomaly: s.anomaly || reported,
            started: s.started || reported,
            ended: s.ended || reported,
            ..s
        },
        actions: if reported {
            start_once(s) + end_once(s) + seq![FileAction::Stop]
        } else {
            Seq::empty()
        },
    }
}

/// The process has ended and left `length` bytes of the file, or no file.
pub open spec fn after_process(s: ExternalSegment, length: Option<u64>) -> ExternalRun {
    let kept = length matches Some(n) && n > 0;
    let part = s.output@ + ".part"@;
    ExternalRun {
        state: ExternalSegment { started: s.started || kept, ended: s.ended || kept, ..s },
        actions: if kept {
            start_once(s) + end_once(s) + seq![FileAction::Finalize(part)]
        } else if length is Some {
            seq![FileAction::Remove(part)]
        } else {
            Seq::empty()
        },
    }
}

impl ExternalSegment {
    /// Nothing has come of the process yet.
    pub open spec fn is_fresh(self) -> bool {
        &&& self.detector.last_trigger is None
        &&& !self.progress_started && !self.anomaly && !self.started && !self.ended
    }

    /// A process that writes `output`, just begun.
    pub fn new(output: String, threshold_ms: u32) -> (segment: Self)
        ensures
            segment.output@ == output@,
            segment.detector == TimestampAnomalyDetector::watching(threshold_ms),
            segment.is_fresh(),
    {
        ExternalSegment {
            output,
            detector: TimestampAnomalyDetector::new(threshold_ms),
            progress_started: false,
            anomaly: false,
            started: false,
            ended: false,
        }
    }

    /// A line of progress: the first one starts the file.
    pub fn on_stdout_line(&mut self, line: &str) -> (actions: Vec<FileAction<String>>)
        ensures
            *final(self) == after_progress(*old(self), line@).state,
            file_actions(actions@) == after_progress(*old(self), line@).actions,
    {
        let mut actions: Vec<FileAction<String>> = Vec::new();
        assert(file_actions(actions@) =~= Seq::<FileAction<Seq<char>>>::empty());
        if !self.progress_started && text_starts_with(line, "progress=") {
            self.progress_started = true;
            if !self.started {
                push_action(&mut actions, FileAction::Start(self.output.clone()));
                self.started = true;
                assert(file_actions(actions@) =~= start_once(*old(self)));
            }
        }
        actions
    }

    /// A line of the log: a complaint that is to be reported ends the file and stops the process.
    pub fn on_stderr_line(&mut self, line: &str, now: Duration) -> (actions: Vec<
        FileAction<String>,
    >)
        ensures
            *final(self) == after_message(*old(self), line@, now).state,
            file_actions(actions@) == after_message(*old(self), line@, now).actions,
    {
        let mut actions: Vec<FileAction<String>> = Vec::new();
        assert(file_actions(actions@) =~= Seq::<FileAction<Seq<char>>>::empty());
        if self.detector.observe(line, now) {
            self.anomaly = true;
            if !self.started {
                push_action(&mut actions, FileAction::Start(self.output.clone()));
                self.started = true;
            }
            if !self.ended {
                push_action(&mut actions, FileAction::End(self.output.clone()));
                self.ended = true;
            }
            push_action(&mut actions, FileAction::Stop);
            assert(file_actions(actions@) =~= start_once(*old(self)) + end_once(*old(self)) + seq![
                FileAction::Stop,
            ]);
        }
        actions
    }

    /// The file as long as it is unfinished.
    pub fn part_file(&self) -> (part: String)
        ensures
            part@ == self.output@ + ".part"@,
    {
        let mut part: String = self.output.clone();
        part.append(".part");
        part
    }

    /// What is done once the process has ended and left `length` bytes of the file, or no file.
    pub fn on_exit(&mut self, length: Option<u64>) -> (actions: Vec<FileAction<String>>)
        ensures
            *final(self) == after_process(*old(self), length).state,
            file_actions(actions@) == after_process(*old(self), length).actions,
    {
        let mut actions: Vec<FileAction<String>> = Vec::new();
        let ghost none = Seq::<FileAction<Seq<char>>>::empty();
        assert(file_actions(actions@) =~= none);
        let part: String = self.part_file();
        match length {
            Some(n) => {
                if n == 0 {
                    push_action(&mut actions, FileAction::Remove(part));
                    assert(file_actions(actions@) =~= seq![FileAction::Remove(part@)]);
                    return actions;
                }
                if !self.started {
                    push_action(&mut actions, FileAction::Start(self.output.clone()));
                    self.started = true;
                }
                if !self.ended {
                    push_action(&mut actions, FileAction::End(self.output.clone()));
                    self.ended = true;
                }
                push_action(&mut actions, FileAction::Finalize(part));
                assert(file_actions(actions@) =~= start_once(*old(self)) + end_once(*old(self))
                    + seq![FileAction::Finalize(part@)]);
            },
            None => {},
        }
        actions
    }
}

} // verus!
