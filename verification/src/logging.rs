//! A log that is kept in files of a bounded size: when the current file is full it becomes the
//! first backup, and each backup moves on by one.

use crate::text::{decimal, push_decimal};
use vstd::prelude::*;

verus! {

/// Where the download log is kept.
pub const DOWNLOAD_LOG_PATH: &'static str = "download.log";

/// The size from which on the download log goes to a new file: fifty mebibytes.
pub const DOWNLOAD_LOG_MAX_BYTES: u64 = 52428800;

/// How many full files are kept beside the current one.
pub const DOWNLOAD_LOG_BACKUPS: usize = 1;

/// A step on files, none of which need exist.
#[derive(Debug, PartialEq, Eq)]
pub enum FileStep<T> {
    /// Remove a file, if it exists.
    Remove(T),
    /// Fail where something stands that is no file and so cannot give way to one.
    Check(T),
    /// Give a file, if it exists, another name, in place of what has that name.
    Move(T, T),
}

impl View for FileStep<String> {
    type V = FileStep<Seq<char>>;

    open spec fn view(&self) -> FileStep<Seq<char>> {
        match *self {
            FileStep::Remove(path) => FileStep::Remove(path@),
            FileStep::Check(path) => FileStep::Check(path@),
            FileStep::Move(source, destination) => FileStep::Move(source@, destination@),
        }
    }
}

/// What steps say.
pub open spec fn steps_of(steps: Seq<FileStep<String>>) -> Seq<FileStep<Seq<char>>> {
    steps.map_values(|step: FileStep<String>| step@)
}

/// The file at a place: the current one first, then the backups.
pub open spec fn slot(path: Seq<char>, index: int) -> Seq<char> {
    if index == 0 {
        path
    } else {
        path + "."@ + decimal(index as nat)
    }
}

/// The first `count` files move on by one, the last of them first.
pub open spec fn shifts(path: Seq<char>, count: int) -> Seq<FileStep<Seq<char>>>
    decreases count,
{
    if count <= 0 {
        seq![]
    } else {
        seq![FileStep::Move(slot(path, count - 1), slot(path, count))] + shifts(path, count - 1)
    }
}

/// What makes room for a new current file. A backup beyond the last one goes, and the place of the
/// last one is looked at first: where no file can take it, nothing has been moved yet.
pub open spec fn rotation(path: Seq<char>, backups: int) -> Seq<FileStep<Seq<char>>> {
    if backups == 0 {
        seq![FileStep::Remove(path)]
    } else {
        seq![
            FileStep::Remove(slot(path, backups + 1)),
            FileStep::Check(slot(path, backups)),
        ] + shifts(path, backups)
    }
}

/// What comes next when bytes are to be written.
#[derive(Debug, Clone, Copy, PartialEq, Eq)]
pub enum LogNext {
    /// There is nothing to write.
    Done,
    /// The current file is to be opened.
    Open,
    /// A new current file is to be begun.
    Rotate,
    /// The bytes are to be written to the current file.
    Write,
}

/// What is known of a log.
#[verifier::ext_equal]
pub struct LogState {
    pub path: Seq<char>,
    pub max_bytes: int,
    pub backups: int,
    pub open: bool,
    pub length: int,
    pub generation: int,
}

/// A length and what it grows by, no more than can be counted.
pub open spec fn grown(length: int, by: int) -> int {
    if length + by > u64::MAX {
        u64::MAX as int
    } else {
        length + by
    }
}

impl LogState {
    /// Whether `count` bytes more are too many for the current file. A file that is empty takes
    /// any number.
    pub open spec fn is_full_for(self, count: int) -> bool {
        self.length > 0 && grown(self.length, count) > self.max_bytes
    }

    /// What comes next on the way to write `count` bytes, of which a rotation may be a part once.
    pub open spec fn next_for(self, count: int, rotated: bool) -> LogNext {
        if count == 0 {
            LogNext::Done
        } else if !self.open {
            LogNext::Open
        } else if !rotated && self.is_full_for(count) {
            LogNext::Rotate
        } else {
            LogNext::Write
        }
    }

    /// The current file is open and holds `length` bytes.
    pub open spec fn opened(self, length: int) -> LogState {
        LogState { open: true, length, ..self }
    }

    /// The current file is closed.
    pub open spec fn closed(self) -> LogState {
        LogState { open: false, ..self }
    }

    /// A new current file is open.
    pub open spec fn renewed(self, length: int) -> LogState {
        LogState {
            open: true,
            length,
            generation: if self.generation == u64::MAX {
                0
            } else {
                self.generation + 1
            },
            ..self
        }
    }

    /// `count` bytes were written.
    pub open spec fn extended(self, count: int) -> LogState {
        LogState { length: grown(self.length, count), ..self }
    }
}

/// A log in files of a bounded size. What touches the files is left to its user, who hands back
/// what came of it.
#[derive(Debug)]
pub struct RotatingFile {
    path: String,
    max_bytes: u64,
    backup_count: usize,
    open: bool,
    current_len: u64,
    generation: u64,
}

impl View for RotatingFile {
    type V = LogState;

    closed spec fn view(&self) -> LogState {
        LogState {
            path: self.path@,
            max_bytes: self.max_bytes as int,
            backups: self.backup_count as int,
            open: self.open,
            length: self.current_len as int,
            generation: self.generation as int,
        }
    }
}

impl RotatingFile {
    /// A log whose current file has not been opened yet.
    pub fn new(path: String, max_bytes: u64, backup_count: usize) -> (log: Self)
        ensures
            log@ == (LogState {
                path: path@,
                max_bytes: max_bytes as int,
                backups: backup_count as int,
                open: false,
                length: 0,
                generation: 0,
            }),
    {
        RotatingFile { path, max_bytes, backup_count, open: false, current_len: 0, generation: 0 }
    }

    /// The current file's path.
    pub fn path(&self) -> (path: &str)
        ensures
            path@ == self@.path,
    {
        self.path.as_str()
    }

    /// How many backups are kept.
    pub fn backup_count(&self) -> (count: usize)
        ensures
            count == self@.backups,
    {
        self.backup_count
    }

    /// Whether the current file is open.
    pub fn is_open(&self) -> (open: bool)
        ensures
            open == self@.open,
    {
        self.open
    }

    /// How often a new current file was begun.
    pub fn generation(&self) -> (generation: u64)
        ensures
            generation == self@.generation,
    {
        self.generation
    }

    /// The path of a backup. Backups are counted from one.
    pub fn backup_path(&self, index: usize) -> (path: String)
        ensures
            path@ == self@.path + "."@ + decimal(index as nat),
    {
        let mut path = String::new();
        path.append(self.path.as_str());
        path.append(".");
        push_decimal(&mut path, index as u64);
        assert(path@ =~= self@.path + "."@ + decimal(index as nat));
        path
    }

    /// The current file was opened and holds `length` bytes.
    pub fn on_opened(&mut self, length: u64)
        ensures
            final(self)@ == old(self)@.opened(length as int),
    {
        self.open = true;
        self.current_len = length;
    }

    /// Whether a new current file is due before `count` bytes are written.
    pub fn needs_rotation(&self, count: usize) -> (due: bool)
        ensures
            due == self@.is_full_for(count as int),
    {
        self.current_len > 0 && self.current_len.saturating_add(count as u64) > self.max_bytes
    }

    /// What comes next on the way to write `count` bytes, of which a rotation may be a part once.
    pub fn next(&self, count: usize, rotated: bool) -> (next: LogNext)
        ensures
            next == self@.next_for(count as int, rotated),
    {
        if count == 0 {
            LogNext::Done
        } else if !self.open {
            LogNext::Open
        } else if !rotated && self.needs_rotation(count) {
            LogNext::Rotate
        } else {
            LogNext::Write
        }
    }

    /// Begin to make room: the current file is to be flushed and closed, and the steps are to be
    /// taken in order.
    pub fn begin_rotation(&mut self) -> (steps: Vec<FileStep<String>>)
        requires
            old(self)@.backups < usize::MAX,
        ensures
            final(self)@ == old(self)@.closed(),
            steps_of(steps@) == rotation(old(self)@.path, old(self)@.backups),
    {
        self.open = false;
        let mut steps: Vec<FileStep<String>> = Vec::new();
        if self.backup_count == 0 {
            let mut path = String::new();
            path.append(self.path.as_str());
            assert(path@ =~= self.path@);
            steps.push(FileStep::Remove(path));
            assert(steps_of(steps@) =~= rotation(self@.path, self@.backups));
            return steps;
        }
        let stale = self.backup_path(self.backup_count + 1);
        steps.push(FileStep::Remove(stale));
        let oldest = self.backup_path(self.backup_count);
        steps.push(FileStep::Check(oldest));
        let mut index: usize = self.backup_count;
        assert(steps_of(steps@) + shifts(self@.path, index as int) =~= rotation(
            self@.path,
            self@.backups,
        ));
        while index > 0
            invariant
                steps_of(steps@) + shifts(self@.path, index as int) == rotation(
                    self@.path,
                    self@.backups,
                ),
            decreases index,
        {
            let destination = self.backup_path(index);
            let source = if index == 1 {
                let mut path = String::new();
                path.append(self.path.as_str());
                assert(path@ =~= self.path@);
                path
            } else {
                self.backup_path(index - 1)
            };
            let ghost before = steps@;
            steps.push(FileStep::Move(source, destination));
            assert(steps_of(steps@) =~= steps_of(before).push(
                FileStep::Move(slot(self@.path, index - 1), slot(self@.path, index as int)),
            ));
            assert(steps_of(steps@) + shifts(self@.path, index - 1) =~= steps_of(before) + shifts(
                self@.path,
                index as int,
            ));
            index = index - 1;
        }
        assert(steps_of(steps@) + shifts(self@.path, 0) =~= steps_of(steps@));
        steps
    }

    /// The steps were taken and the new current file was opened; it holds `length` bytes.
    pub fn finish_rotation(&mut self, length: u64)
        ensures
            final(self)@ == old(self)@.renewed(length as int),
    {
        self.open = true;
        self.current_len = length;
        self.generation = self.generation.wrapping_add(1);
    }

    /// `count` bytes were written to the current file.
    pub fn on_written(&mut self, count: usize)
        ensures
            final(self)@ == old(self)@.extended(count as int),
    {
        self.current_len = self.current_len.saturating_add(count as u64);
    }
}

/// The download log, before its current file is opened.
pub fn download_log_writer() -> (log: RotatingFile)
    ensures
        log@ == (LogState {
            path: "download.log"@,
            max_bytes: 52428800,
            backups: 1,
            open: false,
            length: 0,
            generation: 0,
        }),
{
    let mut path = String::new();
    path.append(DOWNLOAD_LOG_PATH);
    assert(path@ =~= DOWNLOAD_LOG_PATH@);
    RotatingFile::new(path, DOWNLOAD_LOG_MAX_BYTES, DOWNLOAD_LOG_BACKUPS)
}

/// How often the download log went to a new file.
pub fn download_log_generation(log: &RotatingFile) -> (generation: u64)
    ensures
        generation == log@.generation,
{
    log.generation()
}

} // verus!
