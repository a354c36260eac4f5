//! Following one FFmpeg process that cuts its output into files for itself. It names a file on
//! its log when it opens it, and in a list when it is complete; the two pipes are independent,
//! so either may be read first.

use crate::ffmpeg::{file_actions, opened_path, parse_ffmpeg_opening_path, push_action, FileAction, TimestampAnomalyDetector};
use crate::path::{plain, same_path, strip_part_suffix, without_part};
use crate::text::{chars_of, texts, trim, trimmed};
use crate::time::Duration;
use vstd::prelude::*;

verus! {

// ---------------------------------------------------------------------------
// Lists of paths
// ---------------------------------------------------------------------------

/// `path` is among `paths`.
pub open spec fn listed(paths: Seq<Seq<char>>, path: Seq<char>) -> bool {
    exists|i: int| 0 <= i < paths.len() && plain(#[trigger] paths[i]) == plain(path)
}

/// `paths` with `path`, which is added at the end where it is missing.
pub open spec fn with_path(paths: Seq<Seq<char>>, path: Seq<char>) -> Seq<Seq<char>> {
    if listed(paths, path) {
        paths
    } else {
        paths.push(path)
    }
}

/// `paths` without any that is `path`.
pub open spec fn without_path(paths: Seq<Seq<char>>, path: Seq<char>) -> Seq<Seq<char>>
    decreases paths.len(),
{
    if paths.len() == 0 {
        paths
    } else {
        let rest = without_path(paths.drop_last(), path);
        if plain(paths.last()) == plain(path) {
            rest
        } else {
            rest.push(paths.last())
        }
    }
}

/// `paths` without the first that is `path`.
pub open spec fn without_first(paths: Seq<Seq<char>>, path: Seq<char>) -> Seq<Seq<char>>
    decreases paths.len(),
{
    if paths.len() == 0 {
        paths
    } else if plain(paths[0]) == plain(path) {
        paths.skip(1)
    } else {
        seq![paths[0]] + without_first(paths.skip(1), path)
    }
}

/// A path, if there is one, by its view.
pub open spec fn path_of(path: Option<String>) -> Option<Seq<char>> {
    match path {
        Some(p) => Some(p@),
        None => None,
    }
}

fn position(paths: &Vec<String>, path: &str) -> (found: Option<usize>)
    ensures
        match found {
            Some(i) => {
                &&& i < paths@.len()
                &&& plain(texts(paths@)[i as int]) == plain(path@)
                &&& forall|k: int|
                    0 <= k < i ==> plain(#[trigger] texts(paths@)[k]) != plain(path@)
                &&& listed(texts(paths@), path@)
            },
            None => !listed(texts(paths@), path@),
        },
{
    let mut i: usize = 0;
    while i < paths.len()
        invariant
            i <= paths.len(),
            forall|k: int| 0 <= k < i ==> plain(#[trigger] texts(paths@)[k]) != plain(path@),
        decreases paths.len() - i,
    {
        assert(texts(paths@)[i as int] == paths@[i as int]@);
        if same_path(paths[i].as_str(), path) {
            return Some(i);
        }
        i += 1;
    }
    None
}

fn is_listed(paths: &Vec<String>, path: &str) -> (found: bool)
    ensures
        found == listed(texts(paths@), path@),
{
    position(paths, path).is_some()
}

/// Adds a path where it is missing, and tells whether it was.
fn put_in(paths: &mut Vec<String>, path: &str) -> (missing: bool)
    ensures
        missing == !listed(texts(old(paths)@), path@),
        texts(final(paths)@) == with_path(texts(old(paths)@), path@),
{
    if is_listed(paths, path) {
        return false;
    }
    paths.push(path.to_owned());
    assert(texts(paths@) =~= texts(old(paths)@).push(path@));
    true
}

fn leave_out(paths: &Vec<String>, path: &str) -> (kept: Vec<String>)
    ensures
        texts(kept@) == without_path(texts(paths@), path@),
{
    let mut kept: Vec<String> = Vec::new();
    let mut i: usize = 0;
    assert(texts(paths@).take(0) =~= Seq::<Seq<char>>::empty());
    assert(texts(kept@) =~= without_path(texts(paths@).take(0), path@));
    while i < paths.len()
        invariant
            i <= paths.len(),
            texts(kept@) == without_path(texts(paths@).take(i as int), path@),
        decreases paths.len() - i,
    {
        let ghost upto = texts(paths@).take(i + 1);
        assert(upto.drop_last() =~= texts(paths@).take(i as int));
        assert(upto.last() == paths@[i as int]@);
        if !same_path(paths[i].as_str(), path) {
            let ghost before = texts(kept@);
            kept.push(paths[i].clone());
            assert(texts(kept@) =~= before.push(paths@[i as int]@));
        }
        i += 1;
    }
    assert(texts(paths@).take(paths@.len() as int) =~= texts(paths@));
    kept
}

proof fn without_first_at(paths: Seq<Seq<char>>, path: Seq<char>, i: int)
    requires
        0 <= i < paths.len(),
        plain(paths[i]) == plain(path),
        forall|k: int| 0 <= k < i ==> plain(#[trigger] paths[k]) != plain(path),
    ensures
        without_first(paths, path) == paths.remove(i),
    decreases i,
{
    if i == 0 {
        assert(paths.skip(1) =~= paths.remove(0));
    } else {
        let rest = paths.skip(1);
        assert forall|k: int| 0 <= k < i - 1 implies plain(#[trigger] rest[k]) != plain(path) by {
            assert(rest[k] == paths[k + 1]);
        }
        without_first_at(rest, path, i - 1);
        assert(paths.remove(i) =~= seq![paths[0]] + rest.remove(i - 1));
    }
}

// ---------------------------------------------------------------------------
// The files of the process
// ---------------------------------------------------------------------------

/// What is known of the files of the process.
#[verifier::ext_equal]
pub struct FilesState {
    /// Unfinished files that were opened and not completed, in the order of their opening.
    pub pending: Seq<Seq<char>>,
    /// Unfinished files that were listed as complete before they were seen to open.
    pub listed: Seq<Seq<char>>,
    /// The file that was opened last.
    pub active: Option<Seq<char>>,
    /// The files whose start has been told.
    pub started: Seq<Seq<char>>,
    /// The files whose end has been told.
    pub ended: Seq<Seq<char>>,
    /// The files that have got their final names.
    pub finalized: Seq<Seq<char>>,
    pub detector: TimestampAnomalyDetector,
    /// The process was asked to stop.
    pub anomaly: bool,
}

/// The files and what has been asked for.
#[verifier::ext_equal]
pub struct FilesRun {
    pub state: FilesState,
    pub actions: Seq<FileAction<Seq<char>>>,
}

/// No files, and nothing asked for yet.
pub open spec fn begun(state: FilesState) -> FilesRun {
    FilesRun { state, actions: Seq::empty() }
}

/// Tells the start of a file, once.
pub open spec fn with_start(run: FilesRun, path: Seq<char>) -> FilesRun {
    if listed(run.state.started, path) {
        run
    } else {
        FilesRun {
            state: FilesState { started: run.state.started.push(path), ..run.state },
            actions: run.actions.push(FileAction::Start(path)),
        }
    }
}

/// Tells the end of a file, once.
pub open spec fn with_end(run: FilesRun, path: Seq<char>) -> FilesRun {
    if listed(run.state.ended, path) {
        run
    } else {
        FilesRun {
            state: FilesState { ended: run.state.ended.push(path), ..run.state },
            actions: run.actions.push(FileAction::End(path)),
        }
    }
}

/// Tells the end of the active file, once.
pub open spec fn with_active_end(run: FilesRun) -> FilesRun {
    match run.state.active {
        Some(path) => with_end(run, path),
        None => run,
    }
}

/// Completes an unfinished file: its start and its end are told where they have not been, and
/// then it gets its final name.
pub open spec fn completed(run: FilesRun, part: Seq<char>) -> FilesRun {
    let path = without_part(part);
    let told = with_end(with_start(run, path), path);
    FilesRun { actions: told.actions.push(FileAction::Finalize(part)), ..told }
}

/// A line of the list: the file is complete. If it has not been seen to open, it is kept for then.
pub open spec fn after_listing(state: FilesState, line: Seq<char>) -> FilesRun {
    let part = trimmed(line);
    let path = without_part(part);
    if part.len() == 0 {
        begun(state)
    } else if listed(state.started, path) {
        let run = completed(begun(state), part);
        FilesRun {
            state: FilesState {
                active: match run.state.active {
                    Some(now) if plain(now) == plain(path) => None,
                    other => other,
                },
                pending: without_path(run.state.pending, part),
                ..run.state
            },
            ..run
        }
    } else {
        begun(FilesState { listed: with_path(state.listed, part), ..state })
    }
}

/// A file is seen to open: the one before it ends, and it starts. If it has been listed, it is
/// complete already.
pub open spec fn after_opening(state: FilesState, part: Seq<char>) -> FilesRun {
    let path = without_part(part);
    if state.active matches Some(now) && plain(now) == plain(path) {
        begun(state)
    } else {
        let told = with_start(with_active_end(begun(state)), path);
        let opened = FilesRun {
            state: FilesState {
                pending: with_path(told.state.pending, part),
                active: Some(path),
                ..told.state
            },
            ..told
        };
        if listed(opened.state.listed, part) {
            let taken = FilesRun {
                state: FilesState {
                    listed: without_first(opened.state.listed, part),
                    ..opened.state
                },
                ..opened
            };
            let run = completed(taken, part);
            FilesRun {
                state: FilesState {
                    active: None,
                    pending: without_path(run.state.pending, part),
                    ..run.state
                },
                ..run
            }
        } else {
            opened
        }
    }
}

/// A complaint that is to be reported ends the active file and stops the process.
pub open spec fn after_log(run: FilesRun, line: Seq<char>, now: Duration) -> FilesRun {
    if run.state.detector.reports(line, now) {
        let noticed = FilesRun {
            state: FilesState {
                detector: run.state.detector.after(line, now),
                anomaly: true,
                ..run.state
            },
            ..run
        };
        let told = with_active_end(noticed);
        FilesRun { actions: told.actions.push(FileAction::Stop), ..told }
    } else {
        run
    }
}

/// A line of the log. A late word on a file that already has its final name is passed over.
pub open spec fn after_line(state: FilesState, line: Seq<char>, now: Duration) -> FilesRun {
    match opened_path(line) {
        Some(part) => if listed(state.finalized, without_part(part)) {
            begun(state)
        } else {
            after_log(after_opening(state, part), line, now)
        },
        None => after_log(begun(state), line, now),
    }
}

/// Completes files from `i` on, one after the other. They are no longer pending where `settled`.
pub open spec fn all_completed(
    run: FilesRun,
    parts: Seq<Seq<char>>,
    i: int,
    settled: bool,
) -> FilesRun
    decreases parts.len() - i,
{
    if i < 0 || i >= parts.len() {
        run
    } else {
        let done = completed(run, parts[i]);
        all_completed(
            if settled {
                FilesRun {
                    state: FilesState {
                        pending: without_path(done.state.pending, parts[i]),
                        ..done.state
                    },
                    ..done
                }
            } else {
                done
            },
            parts,
            i + 1,
            settled,
        )
    }
}

/// After the process has ended: what was listed and never seen to open is completed, then what
/// was opened and never listed.
pub open spec fn after_exit(state: FilesState) -> FilesRun {
    let first = all_completed(
        begun(FilesState { listed: Seq::empty(), ..state }),
        state.listed,
        0,
        true,
    );
    let parts = first.state.pending;
    all_completed(
        FilesRun { state: FilesState { pending: Seq::empty(), ..first.state }, ..first },
        parts,
        0,
        false,
    )
}

/// The number under which a file is told: how many were told before it. It is told once.
pub open spec fn told_as(finalized: Seq<Seq<char>>, path: Seq<char>) -> Option<int> {
    if listed(finalized, path) {
        None
    } else {
        Some(finalized.len() as int)
    }
}

/// The files of a process that has just begun.
pub open spec fn fresh_files(detector: TimestampAnomalyDetector) -> FilesState {
    FilesState {
        pending: Seq::empty(),
        listed: Seq::empty(),
        active: None,
        started: Seq::empty(),
        ended: Seq::empty(),
        finalized: Seq::empty(),
        detector,
        anomaly: false,
    }
}

/// The files of a process that cuts for itself.
#[derive(Debug)]
pub struct InternalSegments {
    pending: Vec<String>,
    listed: Vec<String>,
    active: Option<String>,
    started: Vec<String>,
    ended: Vec<String>,
    finalized: Vec<String>,
    detector: TimestampAnomalyDetector,
    anomaly: bool,
}

impl View for InternalSegments {
    type V = FilesState;

    closed spec fn view(&self) -> FilesState {
        FilesState {
            pending: texts(self.pending@),
            listed: texts(self.listed@),
            active: path_of(self.active),
            started: texts(self.started@),
            ended: texts(self.ended@),
            finalized: texts(self.finalized@),
            detector: self.detector,
            anomaly: self.anomaly,
        }
    }
}

impl InternalSegments {
    spec fn run(self, actions: Seq<FileAction<String>>) -> FilesRun {
        FilesRun { state: self@, actions: file_actions(actions) }
    }

    /// The files of a process that has just begun.
    pub fn new(threshold_ms: u32) -> (files: Self)
        ensures
            files@ == fresh_files(
                TimestampAnomalyDetector { enabled: threshold_ms > 0, last_trigger: None },
            ),
    {
        let files = InternalSegments {
            pending: Vec::new(),
            listed: Vec::new(),
            active: None,
            started: Vec::new(),
            ended: Vec::new(),
            finalized: Vec::new(),
            detector: TimestampAnomalyDetector::new(threshold_ms),
            anomaly: false,
        };
        assert(files@ =~= fresh_files(files.detector));
        files
    }

    /// Whether the process was asked to stop.
    pub fn anomaly(&self) -> (asked: bool)
        ensures
            asked == self@.anomaly,
    {
        self.anomaly
    }

    fn tell_start(&mut self, path: &str, actions: &mut Vec<FileAction<String>>)
        ensures
            final(self).run(final(actions)@) == with_start(old(self).run(old(actions)@), path@),
    {
        if put_in(&mut self.started, path) {
            push_action(actions, FileAction::Start(path.to_owned()));
        }
    }

    fn tell_end(&mut self, path: &str, actions: &mut Vec<FileAction<String>>)
        ensures
            final(self).run(final(actions)@) == with_end(old(self).run(old(actions)@), path@),
    {
        if put_in(&mut self.ended, path) {
            push_action(actions, FileAction::End(path.to_owned()));
        }
    }

    fn tell_active_end(&mut self, actions: &mut Vec<FileAction<String>>)
        ensures
            final(self).run(final(actions)@) == with_active_end(old(self).run(old(actions)@)),
    {
        let path: String = match &self.active {
            Some(path) => path.clone(),
            None => return,
        };
        self.tell_end(path.as_str(), actions);
    }

    /// Completes an unfinished file.
    pub fn complete_internal_segment(
        &mut self,
        part_path: &str,
        actions: &mut Vec<FileAction<String>>,
    )
        ensures
            ({
                let done = completed(
                    FilesRun { state: old(self)@, actions: file_actions(old(actions)@) },
                    part_path@,
                );
                final(self)@ == done.state && file_actions(final(actions)@) == done.actions
            }),
    {
        let path: String = strip_part_suffix(part_path);
        self.tell_start(path.as_str(), actions);
        self.tell_end(path.as_str(), actions);
        push_action(actions, FileAction::Finalize(part_path.to_owned()));
    }

    /// A line of the list of complete files.
    pub fn on_stdout_line(&mut self, line: &str) -> (actions: Vec<FileAction<String>>)
        ensures
            final(self)@ == after_listing(old(self)@, line@).state,
            file_actions(actions@) == after_listing(old(self)@, line@).actions,
    {
        let mut actions: Vec<FileAction<String>> = Vec::new();
        assert(file_actions(actions@) =~= Seq::<FileAction<Seq<char>>>::empty());
        let part: String = trim(line);
        if chars_of(part.as_str()).len() == 0 {
            return actions;
        }
        let path: String = strip_part_suffix(part.as_str());
        if is_listed(&self.started, path.as_str()) {
            self.complete_internal_segment(part.as_str(), &mut actions);
            let same: bool = match &self.active {
                Some(now) => same_path(now.as_str(), path.as_str()),
                None => false,
            };
            if same {
                self.active = None;
            }
            self.pending = leave_out(&self.pending, part.as_str());
        } else {
            let _ = put_in(&mut self.listed, part.as_str());
        }
        actions
    }

    fn open(&mut self, part: &str, actions: &mut Vec<FileAction<String>>)
        requires
            old(actions)@.len() == 0,
        ensures
            final(self).run(final(actions)@) == after_opening(old(self)@, part@),
    {
        assert(file_actions(actions@) =~= Seq::<FileAction<Seq<char>>>::empty());
        let path: String = strip_part_suffix(part);
        let same: bool = match &self.active {
            Some(now) => same_path(now.as_str(), path.as_str()),
            None => false,
        };
        if same {
            return;
        }
        self.tell_active_end(actions);
        self.tell_start(path.as_str(), actions);
        let _ = put_in(&mut self.pending, part);
        self.active = Some(path);
        match position(&self.listed, part) {
            Some(i) => {
                proof {
                    without_first_at(texts(self.listed@), part@, i as int);
                }
                let ghost before = texts(self.listed@);
                let _ = self.listed.remove(i);
                assert(texts(self.listed@) =~= before.remove(i as int));
                self.complete_internal_segment(part, actions);
                self.active = None;
                self.pending = leave_out(&self.pending, part);
            },
            None => {},
        }
    }

    /// A line of the log, which came at `now`.
    pub fn on_stderr_line(&mut self, line: &str, now: Duration) -> (actions: Vec<
        FileAction<String>,
    >)
        ensures
            final(self)@ == after_line(old(self)@, line@, now).state,
            file_actions(actions@) == after_line(old(self)@, line@, now).actions,
    {
        let mut actions: Vec<FileAction<String>> = Vec::new();
        assert(file_actions(actions@) =~= Seq::<FileAction<Seq<char>>>::empty());
        if let Some(part) = parse_ffmpeg_opening_path(line) {
            let path: String = strip_part_suffix(part.as_str());
            if is_listed(&self.finalized, path.as_str()) {
                return actions;
            }
            self.open(part.as_str(), &mut actions);
        }
        let ghost opened = self.run(actions@);
        if self.detector.observe(line, now) {
            self.anomaly = true;
            self.tell_active_end(&mut actions);
            push_action(&mut actions, FileAction::Stop);
        }
        assert(self.run(actions@) == after_log(opened, line@, now));
        actions
    }

    /// Both pipes are closed: the active file ends.
    pub fn on_close(&mut self) -> (actions: Vec<FileAction<String>>)
        ensures
            final(self)@ == with_active_end(begun(old(self)@)).state,
            file_actions(actions@) == with_active_end(begun(old(self)@)).actions,
    {
        let mut actions: Vec<FileAction<String>> = Vec::new();
        assert(file_actions(actions@) =~= Seq::<FileAction<Seq<char>>>::empty());
        self.tell_active_end(&mut actions);
        actions
    }

    fn complete_all(
        &mut self,
        parts: &Vec<String>,
        settled: bool,
        actions: &mut Vec<FileAction<String>>,
    )
        ensures
            final(self).run(final(actions)@) == all_completed(
                old(self).run(old(actions)@),
                texts(parts@),
                0,
                settled,
            ),
    {
        let mut i: usize = 0;
        while i < parts.len()
            invariant
                i <= parts.len(),
                all_completed(
                    old(self).run(old(actions)@),
                    texts(parts@),
                    0,
                    settled,
                ) == all_completed(self.run(actions@), texts(parts@), i as int, settled),
            decreases parts.len() - i,
        {
            assert(texts(parts@)[i as int] == parts@[i as int]@);
            self.complete_internal_segment(parts[i].as_str(), actions);
            if settled {
                self.pending = leave_out(&self.pending, parts[i].as_str());
            }
            i += 1;
        }
    }

    /// The process has ended: what is left is completed.
    pub fn on_exit(&mut self) -> (actions: Vec<FileAction<String>>)
        ensures
            final(self)@ == after_exit(old(self)@).state,
            file_actions(actions@) == after_exit(old(self)@).actions,
    {
        let mut actions: Vec<FileAction<String>> = Vec::new();
        assert(file_actions(actions@) =~= Seq::<FileAction<Seq<char>>>::empty());
        let mut parts: Vec<String> = Vec::new();
        core::mem::swap(&mut parts, &mut self.listed);
        assert(texts(self.listed@) =~= Seq::<Seq<char>>::empty());
        self.complete_all(&parts, true, &mut actions);
        let mut rest: Vec<String> = Vec::new();
        core::mem::swap(&mut rest, &mut self.pending);
        assert(texts(self.pending@) =~= Seq::<Seq<char>>::empty());
        self.complete_all(&rest, false, &mut actions);
        actions
    }

    /// A file has got its final name. It is told once, under the number of files before it.
    pub fn on_finalized(&mut self, path: &str) -> (index: Option<usize>)
        ensures
            final(self)@ == (FilesState {
                finalized: with_path(old(self)@.finalized, path@),
                ..old(self)@
            }),
            match index {
                Some(n) => told_as(old(self)@.finalized, path@) == Some(n as int),
                None => told_as(old(self)@.finalized, path@) is None,
            },
    {
        let index: usize = self.finalized.len();
        if put_in(&mut self.finalized, path) {
            Some(index)
        } else {
            None
        }
    }
}

} // verus!
