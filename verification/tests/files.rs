//! The files of the log and of recordings.

use livecapture::lifecycle::{
    format_filename, format_filename_at, part_path_for, LifecycleFile, NameSearch, NameStep,
};
use livecapture::logging::{
    download_log_generation, download_log_writer, FileStep, LogNext, RotatingFile,
    DOWNLOAD_LOG_BACKUPS,
};
use livecapture::outside_time::Moment;
use std::collections::{BTreeMap, BTreeSet};

/// Files by their paths.
#[derive(Default)]
struct Disk {
    files: BTreeMap<String, Vec<u8>>,
    directories: BTreeSet<String>,
}

impl Disk {
    fn read(&self, path: &str) -> &[u8] {
        &self.files[path]
    }

    fn remove(&mut self, path: &str) -> Result<(), String> {
        if self.directories.contains(path) {
            return Err("is a directory".to_string());
        }
        self.files.remove(path);
        Ok(())
    }

    fn step(&mut self, step: &FileStep<String>) -> Result<(), String> {
        match step {
            FileStep::Remove(path) => self.remove(path),
            FileStep::Check(path) if self.directories.contains(path) => {
                Err("is a directory".to_string())
            }
            FileStep::Check(_) => Ok(()),
            FileStep::Move(source, destination) => {
                if !self.files.contains_key(source) {
                    return Ok(());
                }
                self.remove(destination)?;
                let content = self.files.remove(source).unwrap();
                self.files.insert(destination.clone(), content);
                Ok(())
            }
        }
    }

    fn open(&mut self, path: &str) -> u64 {
        self.files.entry(path.to_string()).or_default().len() as u64
    }

    fn write(&mut self, log: &mut RotatingFile, bytes: &[u8]) -> Result<usize, String> {
        let mut rotated = false;
        loop {
            match log.next(bytes.len(), rotated) {
                LogNext::Done => return Ok(0),
                LogNext::Open => {
                    let length = self.open(log.path());
                    log.on_opened(length);
                }
                LogNext::Rotate => {
                    for step in log.begin_rotation() {
                        self.step(&step)?;
                    }
                    let length = self.open(log.path());
                    log.finish_rotation(length);
                    rotated = true;
                }
                LogNext::Write => {
                    self.files.get_mut(log.path()).unwrap().extend_from_slice(bytes);
                    log.on_written(bytes.len());
                    return Ok(bytes.len());
                }
            }
        }
    }
}

#[test]
fn rotates_at_write_boundary_and_keeps_two_backups() {
    let mut disk = Disk::default();
    let mut log = RotatingFile::new("download.log".to_string(), 5, 2);

    disk.write(&mut log, b"aaaaa").unwrap();
    assert_eq!(log.generation(), 0);

    disk.write(&mut log, b"b").unwrap();
    assert_eq!(disk.read("download.log"), b"b");
    assert_eq!(disk.read("download.log.1"), b"aaaaa");

    disk.write(&mut log, b"cccc").unwrap();
    disk.write(&mut log, b"d").unwrap();
    assert_eq!(disk.read("download.log"), b"d");
    assert_eq!(disk.read("download.log.1"), b"bcccc");
    assert_eq!(disk.read("download.log.2"), b"aaaaa");

    disk.write(&mut log, b"eeee").unwrap();
    disk.write(&mut log, b"f").unwrap();
    assert_eq!(disk.read("download.log"), b"f");
    assert_eq!(disk.read("download.log.1"), b"deeee");
    assert_eq!(disk.read("download.log.2"), b"bcccc");
    assert!(!disk.files.contains_key("download.log.3"));
    assert_eq!(log.generation(), 3);
}

#[test]
fn download_log_keeps_only_latest_backup() {
    let mut disk = Disk::default();
    disk.files.insert("download.log.2".to_string(), b"stale".to_vec());
    let mut log = RotatingFile::new("download.log".to_string(), 5, DOWNLOAD_LOG_BACKUPS);

    disk.write(&mut log, b"aaaaa").unwrap();
    disk.write(&mut log, b"b").unwrap();

    assert_eq!(disk.read("download.log"), b"b");
    assert_eq!(disk.read("download.log.1"), b"aaaaa");
    assert!(!disk.files.contains_key("download.log.2"));
}

#[test]
fn rotates_existing_oversized_file_before_first_write() {
    let mut disk = Disk::default();
    disk.files.insert("download.log".to_string(), b"existing".to_vec());
    let mut log = RotatingFile::new("download.log".to_string(), 5, 2);

    disk.write(&mut log, b"new").unwrap();

    assert_eq!(disk.read("download.log"), b"new");
    assert_eq!(disk.read("download.log.1"), b"existing");
    assert_eq!(log.generation(), 1);
}

#[test]
fn does_not_advance_generation_when_rotation_fails() {
    let mut disk = Disk::default();
    disk.files.insert("download.log".to_string(), b"full!".to_vec());
    disk.directories.insert("download.log.2".to_string());
    let mut log = RotatingFile::new("download.log".to_string(), 5, 2);

    assert!(disk.write(&mut log, b"new").is_err());
    assert_eq!(log.generation(), 0);
    assert!(!log.is_open());
    assert_eq!(disk.read("download.log"), b"full!");
}

#[test]
fn many_writes_fill_two_files() {
    let mut disk = Disk::default();
    let mut log = RotatingFile::new("download.log".to_string(), 1024, 2);
    for _ in 0..400 {
        disk.write(&mut log, b"data").unwrap();
    }
    assert_eq!(disk.read("download.log").len() + disk.read("download.log.1").len(), 1600);
    assert_eq!(log.generation(), 1);
    assert!(!disk.files.contains_key("download.log.2"));
}

#[test]
fn a_missing_backup_leaves_the_last_one() {
    let mut disk = Disk::default();
    disk.files.insert("download.log.2".to_string(), b"old".to_vec());
    let mut log = RotatingFile::new("download.log".to_string(), 3, 2);
    disk.write(&mut log, b"abc").unwrap();
    disk.write(&mut log, b"d").unwrap();
    assert_eq!(disk.read("download.log.1"), b"abc");
    assert_eq!(disk.read("download.log.2"), b"old");
    disk.write(&mut log, b"efg").unwrap();
    assert_eq!(disk.read("download.log.1"), b"d");
    assert_eq!(disk.read("download.log.2"), b"abc");
}

#[test]
fn without_backups_the_full_file_goes() {
    let mut disk = Disk::default();
    let mut log = RotatingFile::new("x".to_string(), 3, 0);
    disk.write(&mut log, b"abc").unwrap();
    assert_eq!(disk.write(&mut log, b"").unwrap(), 0);
    disk.write(&mut log, b"defghi").unwrap();
    assert_eq!(disk.read("x"), b"defghi");
    assert_eq!(disk.files.len(), 1);
    assert_eq!(log.backup_path(7), "x.7");
    assert!(log.needs_rotation(1));
}

#[test]
fn the_download_log_has_its_place() {
    let log = download_log_writer();
    assert_eq!(log.path(), "download.log");
    assert_eq!(download_log_generation(&log), 0);
    assert!(!log.is_open());
}

/// Looks for a name that is free and takes it.
fn create(file: &mut LifecycleFile<()>, taken: &BTreeSet<String>) -> String {
    let mut search = file.search().unwrap();
    loop {
        let (done, part) =
            (taken.contains(search.final_path()), taken.contains(search.part_path()));
        match search.on_answer(done, part) {
            NameStep::Free(found) => return file.create(&found),
            NameStep::Next(next) => search = next,
            NameStep::Exhausted => panic!("no number is left"),
        }
    }
}

fn next_name(search: NameSearch, done: bool, part: bool) -> NameSearch {
    match search.on_answer(done, part) {
        NameStep::Next(next) => next,
        other => panic!("{other:?}"),
    }
}

#[test]
fn lifecycle_file_does_not_reuse_a_name_within_the_same_second() {
    let mut taken = BTreeSet::new();
    let mut file = LifecycleFile::new("dir/segment", "flv");

    assert_eq!(create(&mut file, &taken), "dir/segment.flv.part");
    taken.insert(file.file_name.clone());
    let first_final = file.file_name.clone();

    assert_eq!(create(&mut file, &taken), "dir/segment_1.flv.part");
    taken.insert(file.file_name.clone());
    let second_final = file.file_name.clone();

    assert_ne!(first_final, second_final);
    assert_eq!(create(&mut file, &taken), "dir/segment_2.flv.part");
    assert_eq!(file.path, "dir/segment_2.flv.part");
}

#[test]
fn the_first_free_name_is_taken() {
    let mut taken = BTreeSet::new();
    for name in ["s.flv", "s_1.flv.part", "s_2.flv", "s_4.flv"] {
        taken.insert(name.to_string());
    }
    let mut file = LifecycleFile::new("s", "flv");
    assert_eq!(create(&mut file, &taken), "s_3.flv.part");
    assert_eq!(file.file_name, "s_3.flv");
}

#[test]
fn names_of_a_search() {
    let search = NameSearch::new("a/b.c", "ts");
    assert_eq!(search.final_path(), "a/b.c.ts");
    assert_eq!(search.part_path(), "a/b.c.ts.part");
    let search = next_name(search, true, false);
    assert_eq!(search.final_path(), "a/b.c_1.ts");
    let search = next_name(search, false, true);
    assert_eq!(search.final_path(), "a/b.c_2.ts");
    match search.on_answer(false, false) {
        NameStep::Free(found) => assert_eq!(found.part_path(), "a/b.c_2.ts.part"),
        other => panic!("{other:?}"),
    }
    let search = next_name(NameSearch::new(".", ""), true, true);
    assert_eq!(search.final_path(), "segment_1.");
    assert_eq!(part_path_for("a.flv", "flv"), "a.flv.part");
}

#[test]
fn moments_are_written_into_names() {
    let moment = Moment { seconds: 1_700_000_000, nanos: 0, offset: 8 * 3600 };
    assert_eq!(
        format_filename_at(moment, "room%Y-%m-%dT%H_%M_%S").unwrap(),
        "room2023-11-15T06_13_20"
    );
    assert_eq!(format_filename_at(moment, "100%%").unwrap(), "100%");
    assert_eq!(format_filename_at(moment, "%!"), None);
    assert_eq!(format_filename_at(Moment { offset: 90000, ..moment }, "x"), None);
    for (seconds, nanos, told) in [
        (8_210_266_876_799, 999_999_999, true),
        (8_210_266_876_800, 0, false),
        (-8_334_601_228_800, 0, true),
        (-8_334_601_228_801, 0, false),
    ] {
        for offset in [-86_399, 0, 86_399] {
            let name = format_filename_at(Moment { seconds, nanos, offset }, " a  b/c");
            assert_eq!(name.as_deref(), if told { Some(" a  b/c") } else { None });
        }
    }
    assert_eq!(format_filename("plain name").unwrap(), "plain name");
    let plain = LifecycleFile::with_hook("plain", "flv", 7);
    assert!(plain.search().is_some());
    assert_eq!(format_filename("%Y").unwrap().len(), 4);

    let file = LifecycleFile::with_hook("%H", "flv", 7);
    assert_eq!(file.hook, 7);
    assert_eq!(file.search_at(moment).unwrap().final_path(), "06.flv");
    assert!(LifecycleFile::new("%!", "flv").search().is_none());
}
