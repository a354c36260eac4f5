//! What holds of the files of a process, whatever the order in which its two pipes are read.

use crate::ffmpeg::FileAction;
use crate::ffmpeg_internal::{after_exit, after_line, after_listing, after_opening, all_completed, begun, completed, fresh_files, listed, with_active_end, with_end, with_path, with_start, without_first, without_path, FilesRun, FilesState};
use crate::ffmpeg::{opened_path, TimestampAnomalyDetector};
use crate::path::{plain, without_part};
use crate::text::trimmed;
use crate::time::Duration;
use vstd::prelude::*;

verus! {

/// Each of `paths` is among `others`.
pub open spec fn each_listed(paths: Seq<Seq<char>>, others: Seq<Seq<char>>) -> bool {
    forall|i: int| 0 <= i < paths.len() ==> listed(others, #[trigger] paths[i])
}

/// Which files have been told as started and as ended after `actions`, where they keep to the
/// order: a file starts once and only when the files before it have ended, ends once and only
/// after its start, and gets its final name only after its end.
pub open spec fn told(
    started: Seq<Seq<char>>,
    ended: Seq<Seq<char>>,
    actions: Seq<FileAction<Seq<char>>>,
) -> Option<(Seq<Seq<char>>, Seq<Seq<char>>)>
    decreases actions.len(),
{
    if actions.len() == 0 {
        Some((started, ended))
    } else {
        match told(started, ended, actions.drop_last()) {
            None => None,
            Some((st, en)) => match actions.last() {
                FileAction::Start(path) => if !listed(st, path) && each_listed(st, en) {
                    Some((st.push(path), en))
                } else {
                    None
                },
                FileAction::End(path) => if listed(st, path) && !listed(en, path) {
                    Some((st, en.push(path)))
                } else {
                    None
                },
                FileAction::Finalize(part) => if listed(en, without_part(part)) {
                    Some((st, en))
                } else {
                    None
                },
                FileAction::Remove(_) => Some((st, en)),
                FileAction::Stop => Some((st, en)),
            },
        }
    }
}

/// The actions so far keep to the order and lead to where the files stand.
pub open spec fn in_order(from: FilesState, run: FilesRun) -> bool {
    told(from.started, from.ended, run.actions) == Some((run.state.started, run.state.ended))
}

/// The active file has started, and every other file that has started has ended.
pub open spec fn consistent(state: FilesState) -> bool {
    &&& state.active matches Some(path) ==> listed(state.started, path)
    &&& forall|i: int|
        0 <= i < state.started.len() ==> listed(state.ended, #[trigger] state.started[i]) || (
        state.active matches Some(path) && plain(path) == plain(state.started[i]))
}

/// Every file that has started has ended.
pub open spec fn all_ended(state: FilesState) -> bool {
    each_listed(state.started, state.ended)
}

pub proof fn listed_push(paths: Seq<Seq<char>>, path: Seq<char>, other: Seq<char>)
    ensures
        listed(paths.push(path), path),
        listed(paths, other) ==> listed(paths.push(path), other),
        listed(paths.push(path), other) ==> listed(paths, other) || plain(path) == plain(other),
{
    let more = paths.push(path);
    assert(more[paths.len() as int] == path);
    if listed(paths, other) {
        let i = choose|i: int| 0 <= i < paths.len() && plain(#[trigger] paths[i]) == plain(other);
        assert(more[i] == paths[i]);
    }
    if listed(more, other) {
        let i = choose|i: int| 0 <= i < more.len() && plain(#[trigger] more[i]) == plain(other);
        if i < paths.len() {
            assert(paths[i] == more[i]);
        }
    }
}

proof fn start_keeps(from: FilesState, run: FilesRun, path: Seq<char>)
    requires
        in_order(from, run),
        listed(run.state.started, path) || all_ended(run.state),
    ensures
        in_order(from, with_start(run, path)),
        listed(with_start(run, path).state.started, path),
        forall|p: Seq<char>|
            #![trigger listed(with_start(run, path).state.started, p)]
            listed(run.state.started, p) ==> listed(with_start(run, path).state.started, p),
{
    assert(run.actions.push(FileAction::Start(path)).drop_last() =~= run.actions);
    assert forall|p: Seq<char>|
        #![trigger listed(with_start(run, path).state.started, p)]
        listed(run.state.started, p) implies listed(with_start(run, path).state.started, p) by {
        listed_push(run.state.started, path, p);
    }
    listed_push(run.state.started, path, path);
}

proof fn end_keeps(from: FilesState, run: FilesRun, path: Seq<char>)
    requires
        in_order(from, run),
        listed(run.state.started, path),
    ensures
        in_order(from, with_end(run, path)),
        listed(with_end(run, path).state.ended, path),
        forall|p: Seq<char>|
            #![trigger listed(with_end(run, path).state.ended, p)]
            listed(run.state.ended, p) ==> listed(with_end(run, path).state.ended, p),
{
    assert(run.actions.push(FileAction::End(path)).drop_last() =~= run.actions);
    assert forall|p: Seq<char>|
        #![trigger listed(with_end(run, path).state.ended, p)]
        listed(run.state.ended, p) implies listed(with_end(run, path).state.ended, p) by {
        listed_push(run.state.ended, path, p);
    }
    listed_push(run.state.ended, path, path);
}

/// Two texts of one path are listed alike.
proof fn listed_alike(paths: Seq<Seq<char>>, a: Seq<char>, b: Seq<char>)
    requires
        plain(a) == plain(b),
        listed(paths, a),
    ensures
        listed(paths, b),
{
    let i = choose|i: int| 0 <= i < paths.len() && plain(#[trigger] paths[i]) == plain(a);
    assert(plain(paths[i]) == plain(b));
}

/// Telling the end of the active file leaves nothing open.
proof fn active_end_keeps(from: FilesState, run: FilesRun)
    requires
        in_order(from, run),
        consistent(run.state),
    ensures
        in_order(from, with_active_end(run)),
        consistent(with_active_end(run).state),
        all_ended(with_active_end(run).state),
{
    if let Some(path) = run.state.active {
        end_keeps(from, run, path);
        let done = with_end(run, path);
        assert forall|i: int| 0 <= i < done.state.started.len() implies listed(
            done.state.ended,
            #[trigger] done.state.started[i],
        ) by {
            let p = run.state.started[i];
            if !listed(run.state.ended, p) {
                listed_alike(done.state.ended, path, p);
            }
        }
    }
}

/// Completing a file leaves it ended, and the others as they were.
proof fn completed_keeps(from: FilesState, run: FilesRun, part: Seq<char>)
    requires
        in_order(from, run),
        consistent(run.state),
        listed(run.state.started, without_part(part)) || all_ended(run.state),
    ensures
        in_order(from, completed(run, part)),
        consistent(completed(run, part).state),
        all_ended(run.state) ==> all_ended(completed(run, part).state),
        listed(completed(run, part).state.ended, without_part(part)),
        completed(run, part).state.active == run.state.active,
        forall|p: Seq<char>|
            #![trigger listed(completed(run, part).state.started, p)]
            listed(run.state.started, p) ==> listed(completed(run, part).state.started, p),
{
    let path = without_part(part);
    start_keeps(from, run, path);
    let a = with_start(run, path);
    end_keeps(from, a, path);
    let b = with_end(a, path);
    assert(b.actions.push(FileAction::Finalize(part)).drop_last() =~= b.actions);
    let done = completed(run, part);
    assert forall|i: int| 0 <= i < done.state.started.len() implies listed(
        done.state.ended,
        #[trigger] done.state.started[i],
    ) || (done.state.active matches Some(now) && plain(now) == plain(done.state.started[i])) by {
        if i < run.state.started.len() {
            assert(done.state.started[i] == run.state.started[i]);
        } else {
            assert(done.state.started[i] == path);
        }
    }
    assert forall|p: Seq<char>|
        #![trigger listed(completed(run, part).state.started, p)]
        listed(run.state.started, p) implies listed(completed(run, part).state.started, p) by {
        assert(listed(with_start(run, path).state.started, p));
    }
    if all_ended(run.state) {
        assert forall|i: int| 0 <= i < done.state.started.len() implies listed(
            done.state.ended,
            #[trigger] done.state.started[i],
        ) by {
            if i < run.state.started.len() {
                assert(done.state.started[i] == run.state.started[i]);
            } else {
                assert(done.state.started[i] == path);
            }
        }
    }
}

/// The files of a new process are consistent.
pub proof fn fresh_files_are_consistent(detector: TimestampAnomalyDetector)
    ensures
        consistent(fresh_files(detector)),
{
}

/// A line of the list tells boundaries in order.
pub proof fn listing_is_in_order(state: FilesState, line: Seq<char>)
    requires
        consistent(state),
    ensures
        in_order(state, after_listing(state, line)),
        consistent(after_listing(state, line).state),
{
    let part = trimmed(line);
    let path = without_part(part);
    if part.len() > 0 && listed(state.started, path) {
        completed_keeps(state, begun(state), part);
        let run = completed(begun(state), part);
        let done = after_listing(state, line);
        assert forall|i: int| 0 <= i < done.state.started.len() implies listed(
            done.state.ended,
            #[trigger] done.state.started[i],
        ) || (done.state.active matches Some(now) && plain(now) == plain(
            done.state.started[i],
        )) by {
            let p = run.state.started[i];
            if !listed(run.state.ended, p) {
                let now = run.state.active->0;
                if plain(now) == plain(path) {
                    listed_alike(run.state.ended, path, p);
                }
            }
        }
    }
}

proof fn opening_keeps(state: FilesState, part: Seq<char>)
    requires
        consistent(state),
    ensures
        in_order(state, after_opening(state, part)),
        consistent(after_opening(state, part).state),
{
    let path = without_part(part);
    if !(state.active matches Some(now) && plain(now) == plain(path)) {
        active_end_keeps(state, begun(state));
        let a = with_active_end(begun(state));
        start_keeps(state, a, path);
        let t = with_start(a, path);
        let opened = FilesRun {
            state: FilesState {
                pending: with_path(t.state.pending, part),
                active: Some(path),
                ..t.state
            },
            ..t
        };
        assert forall|i: int| 0 <= i < opened.state.started.len() implies listed(
            opened.state.ended,
            #[trigger] opened.state.started[i],
        ) || (opened.state.active matches Some(now) && plain(now) == plain(
            opened.state.started[i],
        )) by {
            if i < a.state.started.len() {
                assert(opened.state.started[i] == a.state.started[i]);
            } else {
                assert(opened.state.started[i] == path);
            }
        }
        assert(consistent(opened.state));
        if listed(opened.state.listed, part) {
            let taken = FilesRun {
                state: FilesState {
                    listed: without_first(opened.state.listed, part),
                    ..opened.state
                },
                ..opened
            };
            completed_keeps(state, taken, part);
            let run = completed(taken, part);
            let done = after_opening(state, part);
            assert forall|i: int| 0 <= i < done.state.started.len() implies listed(
                done.state.ended,
                #[trigger] done.state.started[i],
            ) by {
                let p = run.state.started[i];
                if !listed(run.state.ended, p) {
                    listed_alike(run.state.ended, path, p);
                }
            }
        }
    }
}

/// A line of the log tells boundaries in order.
pub proof fn log_is_in_order(state: FilesState, line: Seq<char>, now: Duration)
    requires
        consistent(state),
    ensures
        in_order(state, after_line(state, line, now)),
        consistent(after_line(state, line, now).state),
{
    let opened = match opened_path(line) {
        Some(part) => if listed(state.finalized, without_part(part)) {
            begun(state)
        } else {
            opening_keeps(state, part);
            after_opening(state, part)
        },
        None => begun(state),
    };
    if opened.state.detector.reports(line, now) {
        let noticed = FilesRun {
            state: FilesState {
                detector: opened.state.detector.after(line, now),
                anomaly: true,
                ..opened.state
            },
            ..opened
        };
        active_end_keeps(state, noticed);
        let t = with_active_end(noticed);
        assert(t.actions.push(FileAction::Stop).drop_last() =~= t.actions);
    }
}

/// Once both pipes are closed, every file that has started has ended.
pub proof fn closing_ends_every_file(state: FilesState)
    requires
        consistent(state),
    ensures
        in_order(state, with_active_end(begun(state))),
        consistent(with_active_end(begun(state)).state),
        all_ended(with_active_end(begun(state)).state),
{
    active_end_keeps(state, begun(state));
}

/// An unfinished file is given its final name.
pub open spec fn finalizes(actions: Seq<FileAction<Seq<char>>>, part: Seq<char>) -> bool {
    exists|i: int|
        0 <= i < actions.len() && (#[trigger] actions[i] matches FileAction::Finalize(other)
            && plain(other) == plain(part))
}

proof fn completed_finalizes(run: FilesRun, part: Seq<char>, other: Seq<char>)
    ensures
        finalizes(completed(run, part).actions, part),
        finalizes(run.actions, other) ==> finalizes(completed(run, part).actions, other),
        completed(run, part).state.pending == run.state.pending,
{
    let done = completed(run, part);
    assert(done.actions.last() == FileAction::Finalize(part));
    assert(done.actions[done.actions.len() - 1] == FileAction::Finalize(part));
    if finalizes(run.actions, other) {
        let i = choose|i: int|
            0 <= i < run.actions.len() && (#[trigger] run.actions[i] matches FileAction::Finalize(p)
                && plain(p) == plain(other));
        assert(done.actions[i] == run.actions[i]);
    }
}

/// Leaving a path out keeps the others.
pub proof fn without_path_keeps(paths: Seq<Seq<char>>, path: Seq<char>, other: Seq<char>)
    requires
        listed(paths, other),
        plain(path) != plain(other),
    ensures
        listed(without_path(paths, path), other),
    decreases paths.len(),
{
    let i = choose|i: int| 0 <= i < paths.len() && plain(#[trigger] paths[i]) == plain(other);
    let front = paths.drop_last();
    if i < front.len() {
        assert(front[i] == paths[i]);
        without_path_keeps(front, path, other);
        listed_push(without_path(front, path), paths.last(), other);
    } else {
        assert(paths[i] == paths.last());
        let rest = without_path(front, path);
        assert(rest.push(paths.last())[rest.len() as int] == paths.last());
    }
}

/// Completing files one after the other keeps the order, and gives each its final name.
pub proof fn all_completed_keeps(
    from: FilesState,
    run: FilesRun,
    parts: Seq<Seq<char>>,
    i: int,
    settled: bool,
)
    requires
        in_order(from, run),
        consistent(run.state),
        all_ended(run.state),
        0 <= i <= parts.len(),
    ensures
        ({
            let done = all_completed(run, parts, i, settled);
            &&& in_order(from, done)
            &&& consistent(done.state)
            &&& all_ended(done.state)
            &&& forall|k: int|
                i <= k < parts.len() ==> finalizes(done.actions, #[trigger] parts[k])
            &&& forall|p: Seq<char>| #[trigger]
                finalizes(run.actions, p) ==> finalizes(done.actions, p)
            &&& forall|p: Seq<char>| #[trigger]
                listed(run.state.pending, p) ==> finalizes(done.actions, p) || listed(
                    done.state.pending,
                    p,
                )
        }),
    decreases parts.len() - i,
{
    if i < parts.len() {
        let part = parts[i];
        completed_keeps(from, run, part);
        completed_finalizes(run, part, part);
        let done = completed(run, part);
        let next = if settled {
            FilesRun {
                state: FilesState {
                    pending: without_path(done.state.pending, part),
                    ..done.state
                },
                ..done
            }
        } else {
            done
        };
        assert(consistent(next.state));
        assert(all_ended(next.state));
        all_completed_keeps(from, next, parts, i + 1, settled);
        let last = all_completed(run, parts, i, settled);
        assert(last == all_completed(next, parts, i + 1, settled));
        assert forall|p: Seq<char>| #[trigger] finalizes(run.actions, p) implies finalizes(
            last.actions,
            p,
        ) by {
            completed_finalizes(run, part, p);
        }
        assert forall|p: Seq<char>| #[trigger] listed(run.state.pending, p) implies finalizes(
            last.actions,
            p,
        ) || listed(last.state.pending, p) by {
            if plain(part) == plain(p) {
                let k = done.actions.len() - 1;
                assert(done.actions[k] == FileAction::Finalize(part));
                assert(finalizes(next.actions, p));
            } else {
                if settled {
                    without_path_keeps(done.state.pending, part, p);
                }
                assert(listed(next.state.pending, p));
            }
        }
        assert forall|k: int| i <= k < parts.len() implies finalizes(
            last.actions,
            #[trigger] parts[k],
        ) by {
            if k == i {
                assert(finalizes(next.actions, part));
            }
        }
    }
}

/// After the process has ended, every file that was opened or listed and not completed is told
/// in order and given its final name, and every file that has started has ended.
pub proof fn exit_completes_every_file(state: FilesState)
    requires
        consistent(state),
        all_ended(state),
    ensures
        in_order(state, after_exit(state)),
        all_ended(after_exit(state).state),
        forall|p: Seq<char>| #[trigger]
            listed(state.listed, p) ==> finalizes(after_exit(state).actions, p),
        forall|p: Seq<char>| #[trigger]
            listed(state.pending, p) ==> finalizes(after_exit(state).actions, p),
{
    let start = begun(FilesState { listed: Seq::empty(), ..state });
    all_completed_keeps(state, start, state.listed, 0, true);
    let first = all_completed(start, state.listed, 0, true);
    let parts = first.state.pending;
    let second = FilesRun {
        state: FilesState { pending: Seq::empty(), ..first.state },
        ..first
    };
    assert(consistent(second.state));
    assert(all_ended(second.state));
    all_completed_keeps(state, second, parts, 0, false);
    let done = after_exit(state);
    assert forall|p: Seq<char>| #[trigger] listed(state.listed, p) implies finalizes(
        done.actions,
        p,
    ) by {
        let i = choose|i: int|
            0 <= i < state.listed.len() && plain(#[trigger] state.listed[i]) == plain(p);
        assert(finalizes(first.actions, state.listed[i]));
        assert(finalizes(done.actions, state.listed[i]));
        same_final(done.actions, state.listed[i], p);
    }
    assert forall|p: Seq<char>| #[trigger] listed(state.pending, p) implies finalizes(
        done.actions,
        p,
    ) by {
        assert(listed(start.state.pending, p));
        if finalizes(first.actions, p) {
            assert(finalizes(done.actions, p));
        } else {
            assert(listed(parts, p));
            let i = choose|i: int| 0 <= i < parts.len() && plain(#[trigger] parts[i]) == plain(p);
            assert(finalizes(done.actions, parts[i]));
            same_final(done.actions, parts[i], p);
        }
    }
}

proof fn same_final(actions: Seq<FileAction<Seq<char>>>, a: Seq<char>, b: Seq<char>)
    requires
        finalizes(actions, a),
        plain(a) == plain(b),
    ensures
        finalizes(actions, b),
{
    let i = choose|i: int|
        0 <= i < actions.len() && (#[trigger] actions[i] matches FileAction::Finalize(other)
            && plain(other) == plain(a));
    assert(actions[i] matches FileAction::Finalize(other) && plain(other) == plain(b));
}

} // verus!
