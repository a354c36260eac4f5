//! What a rotation does to the files.

use crate::logging::{rotation, shifts, slot, FileStep, LogState};
use crate::text::decimal;
use crate::web_laws::digits_read;
use vstd::prelude::*;

verus! {

/// Files by their paths.
pub type Disk = Map<Seq<char>, Seq<u8>>;

/// The files after a step.
pub open spec fn stepped(disk: Disk, step: FileStep<Seq<char>>) -> Disk {
    match step {
        FileStep::Remove(path) => disk.remove(path),
        FileStep::Check(_) => disk,
        FileStep::Move(source, destination) => if disk.contains_key(source) {
            disk.remove(source).insert(destination, disk[source])
        } else {
            disk
        },
    }
}

/// The files after steps.
pub open spec fn stepped_through(disk: Disk, steps: Seq<FileStep<Seq<char>>>) -> Disk
    decreases steps.len(),
{
    if steps.len() == 0 {
        disk
    } else {
        stepped_through(stepped(disk, steps[0]), steps.skip(1))
    }
}

/// What a place holds, if there is such a file.
pub open spec fn held(disk: Disk, path: Seq<char>) -> Option<Seq<u8>> {
    if disk.contains_key(path) {
        Some(disk[path])
    } else {
        None
    }
}

/// Each place has a path of its own.
pub proof fn places_are_distinct(path: Seq<char>, i: int, j: int)
    requires
        0 <= i,
        0 <= j,
        i != j,
    ensures
        slot(path, i) != slot(path, j),
{
    reveal_strlit(".");
    if i == 0 {
        assert(slot(path, j).len() > path.len());
    } else if j == 0 {
        assert(slot(path, i).len() > path.len());
    } else {
        let a = slot(path, i);
        let b = slot(path, j);
        let n = path.len() as int + 1;
        assert(a.skip(n) =~= decimal(i as nat));
        assert(b.skip(n) =~= decimal(j as nat));
        digits_read(i as nat, 10);
        digits_read(j as nat, 10);
    }
}

/// When the first `count` files have moved on, each place holds what the place before it held. The
/// last place keeps what it held where there was nothing to take its place, and every other file
/// is as it was.
proof fn shifted(disk: Disk, path: Seq<char>, count: int)
    requires
        count >= 1,
    ensures
        ({
            let after = stepped_through(disk, shifts(path, count));
            &&& held(after, path) is None
            &&& forall|i: int|
                1 <= i < count ==> #[trigger] held(after, slot(path, i)) == held(
                    disk,
                    slot(path, i - 1),
                )
            &&& held(after, slot(path, count)) == if disk.contains_key(slot(path, count - 1)) {
                held(disk, slot(path, count - 1))
            } else {
                held(disk, slot(path, count))
            }
            &&& forall|file: Seq<char>|
                (forall|i: int| 0 <= i <= count ==> file != #[trigger] slot(path, i))
                    ==> #[trigger] held(after, file) == held(disk, file)
        }),
    decreases count,
{
    let steps = shifts(path, count);
    let source = slot(path, count - 1);
    let destination = slot(path, count);
    places_are_distinct(path, count - 1, count);
    assert(steps[0] == FileStep::Move(source, destination));
    assert(steps.skip(1) =~= shifts(path, count - 1));
    let next = stepped(disk, steps[0]);
    assert(held(next, source) is None);
    if count == 1 {
        assert(stepped_through(next, shifts(path, 0)) == next);
        assert forall|file: Seq<char>|
            (forall|i: int| 0 <= i <= count ==> file != #[trigger] slot(path, i)) implies #[trigger] held(
            next,
            file,
        ) == held(disk, file) by {
            assert(file != slot(path, 0) && file != slot(path, 1));
        }
    } else {
        shifted(next, path, count - 1);
        let after = stepped_through(next, shifts(path, count - 1));
        assert forall|i: int| 0 <= i < count - 1 implies held(next, #[trigger] slot(path, i)) == held(
            disk,
            slot(path, i),
        ) by {
            places_are_distinct(path, i, count - 1);
            places_are_distinct(path, i, count);
        }
        assert(held(after, destination) == held(next, destination)) by {
            assert forall|i: int| 0 <= i <= count - 1 implies destination != #[trigger] slot(
                path,
                i,
            ) by {
                places_are_distinct(path, i, count);
            }
        }
        assert forall|i: int| 1 <= i < count implies #[trigger] held(after, slot(path, i)) == held(
            disk,
            slot(path, i - 1),
        ) by {
            assert(held(next, slot(path, i - 1)) == held(disk, slot(path, i - 1)));
        }
        assert forall|file: Seq<char>|
            (forall|i: int| 0 <= i <= count ==> file != #[trigger] slot(path, i)) implies #[trigger] held(
            after,
            file,
        ) == held(disk, file) by {
            assert(file != slot(path, count - 1) && file != slot(path, count));
            assert(forall|i: int| 0 <= i <= count - 1 ==> file != #[trigger] slot(path, i));
            assert(held(after, file) == held(next, file));
        }
    }
}

/// A rotation makes the current file the first backup and moves every backup on by one: each
/// place holds what the place before it held. The last place keeps what it held where there is
/// nothing to take its place. A backup beyond the last one is removed, and no other file is
/// touched.
pub proof fn rotation_moves_files_on(disk: Disk, path: Seq<char>, backups: int)
    requires
        backups >= 1,
    ensures
        ({
            let after = stepped_through(disk, rotation(path, backups));
            &&& held(after, path) is None
            &&& forall|i: int|
                1 <= i < backups ==> #[trigger] held(after, slot(path, i)) == held(
                    disk,
                    slot(path, i - 1),
                )
            &&& held(after, slot(path, backups)) == if disk.contains_key(slot(path, backups - 1)) {
                held(disk, slot(path, backups - 1))
            } else {
                held(disk, slot(path, backups))
            }
            &&& held(after, slot(path, backups + 1)) is None
            &&& forall|file: Seq<char>|
                (forall|i: int| 0 <= i <= backups + 1 ==> file != #[trigger] slot(path, i))
                    ==> #[trigger] held(after, file) == held(disk, file)
        }),
{
    let steps = rotation(path, backups);
    let stale = slot(path, backups + 1);
    let next = stepped(disk, steps[0]);
    assert(steps[0] == FileStep::Remove(stale));
    assert(steps[1] == FileStep::Check(slot(path, backups)));
    assert(steps.skip(1)[0] == steps[1]);
    assert(steps.skip(1).skip(1) =~= shifts(path, backups));
    assert(stepped_through(next, steps.skip(1)) == stepped_through(next, shifts(path, backups)));
    shifted(next, path, backups);
    let after = stepped_through(next, shifts(path, backups));
    assert(stepped_through(disk, steps) == after);
    assert forall|i: int| 0 <= i <= backups implies held(next, #[trigger] slot(path, i)) == held(
        disk,
        slot(path, i),
    ) by {
        places_are_distinct(path, i, backups + 1);
    }
    assert forall|i: int| 1 <= i < backups implies #[trigger] held(after, slot(path, i)) == held(
        disk,
        slot(path, i - 1),
    ) by {
        assert(held(next, slot(path, i - 1)) == held(disk, slot(path, i - 1)));
    }
    assert(held(next, slot(path, backups)) == held(disk, slot(path, backups)));
    assert(held(next, slot(path, backups - 1)) == held(disk, slot(path, backups - 1)));
    assert(held(after, stale) == held(next, stale)) by {
        assert forall|i: int| 0 <= i <= backups implies stale != #[trigger] slot(path, i) by {
            places_are_distinct(path, i, backups + 1);
        }
    }
    assert forall|file: Seq<char>|
        (forall|i: int| 0 <= i <= backups + 1 ==> file != #[trigger] slot(path, i)) implies #[trigger] held(
        after,
        file,
    ) == held(disk, file) by {
        assert(file != stale);
        assert(forall|i: int| 0 <= i <= backups ==> file != #[trigger] slot(path, i));
        assert(held(after, file) == held(next, file));
    }
}

/// The place of the last backup is looked at before anything is moved: up to then only a backup
/// beyond the last one is touched.
pub proof fn nothing_moves_before_the_check(disk: Disk, path: Seq<char>, backups: int)
    requires
        backups >= 1,
    ensures
        rotation(path, backups)[1] == FileStep::Check(slot(path, backups)),
        stepped_through(disk, rotation(path, backups).take(1)) == disk.remove(
            slot(path, backups + 1),
        ),
{
    let first = rotation(path, backups).take(1);
    assert(first[0] == FileStep::Remove(slot(path, backups + 1)));
    assert(first.skip(1) =~= seq![]);
    assert(stepped_through(stepped(disk, first[0]), first.skip(1)) == stepped(disk, first[0]));
}

/// Without backups a rotation removes the current file and touches no other.
pub proof fn rotation_without_backups_removes(disk: Disk, path: Seq<char>)
    ensures
        stepped_through(disk, rotation(path, 0)) == disk.remove(path),
{
    let steps = rotation(path, 0);
    assert(steps.skip(1) =~= seq![]);
    assert(stepped_through(stepped(disk, steps[0]), steps.skip(1)) == stepped(disk, steps[0]));
}

/// A file that is written only when it is not full, and is new when it was full, stays within the
/// limit, unless a single write is beyond it.
pub proof fn files_stay_within_the_limit(log: LogState, count: int)
    requires
        0 <= log.length <= log.max_bytes <= u64::MAX,
        0 <= count <= log.max_bytes,
    ensures
        ({
            let ready = if log.is_full_for(count) {
                log.closed().renewed(0)
            } else {
                log
            };
            0 <= ready.extended(count).length <= log.max_bytes
        }),
{
}

/// The backups have the name of the log and their number behind a dot.
pub proof fn backups_are_numbered(path: Seq<char>, index: int)
    ensures
        slot(path, 0) == path,
        index >= 1 ==> slot(path, index) == path + "."@ + decimal(index as nat),
{
}

/// A file is full for bytes that would take it over the limit, unless it is empty.
pub proof fn files_are_full_over_the_limit(log: LogState, count: int)
    requires
        0 <= log.length,
        0 <= count,
        log.length + count <= u64::MAX,
    ensures
        log.length == 0 ==> !log.is_full_for(count),
        log.length > 0 ==> log.is_full_for(count) == (log.length + count > log.max_bytes),
        log.extended(count).length == log.length + count,
        log.extended(count).generation == log.generation,
{
}

/// A file that is opened has the length that was found; a new file begins the next generation, and
/// only a new file does.
pub proof fn new_files_begin_generations(log: LogState, length: int)
    requires
        0 <= log.generation <= u64::MAX,
    ensures
        log.opened(length).open && log.opened(length).length == length,
        log.opened(length).generation == log.generation,
        !log.closed().open && log.closed().length == log.length,
        log.closed().generation == log.generation,
        log.renewed(length).open && log.renewed(length).length == length,
        log.generation < u64::MAX ==> log.renewed(length).generation == log.generation + 1,
        log.generation == u64::MAX ==> log.renewed(length).generation == 0,
        log.renewed(length).path == log.path && log.renewed(length).max_bytes == log.max_bytes
            && log.renewed(length).backups == log.backups,
{
}

/// Bytes are written only to an open file that is not full for them, or that is new; a file that
/// is full for them is renewed once; nothing is done about no bytes.
pub proof fn bytes_go_to_a_file_with_room(log: LogState, count: int, rotated: bool)
    requires
        count >= 0,
    ensures
        log.next_for(0, rotated) is Done,
        count > 0 && !log.open ==> log.next_for(count, rotated) is Open,
        count > 0 && log.open && !rotated && log.is_full_for(count) ==> log.next_for(
            count,
            rotated,
        ) is Rotate,
        count > 0 && log.open && (rotated || !log.is_full_for(count)) ==> log.next_for(
            count,
            rotated,
        ) is Write,
{
}

} // verus!
