//! What holds of the names of recorded files.

use crate::lifecycle::{after_answer, candidate, final_name, part_name, taken, NamePlace, MAX_NAME_NUMBER};
use crate::path::{joined, name_start, name_span, parent_of, stem_end, stem_of, trimmed_end, with_extension};
use crate::path_laws::{piece_begins, piece_begins_behind_slash};
use crate::text::{decimal, digits};
use crate::web_laws::digits_read;
use vstd::prelude::*;

verus! {

/// Text between equal ends is equal where the whole is.
proof fn middles_are_equal(front: Seq<char>, a: Seq<char>, b: Seq<char>, back: Seq<char>)
    requires
        front + a + back == front + b + back,
    ensures
        a == b,
{
    assert((front + a + back).len() == front.len() + a.len() + back.len());
    assert((front + b + back).len() == front.len() + b.len() + back.len());
    assert(a =~= (front + a + back).subrange(front.len() as int, (front.len() + a.len()) as int));
    assert(b =~= (front + b + back).subrange(front.len() as int, (front.len() + b.len()) as int));
}

/// A name that is joined to a parent stands behind something that depends on the parent and on
/// the name's first character alone.
proof fn joined_behind(parent: Seq<char>, a: Seq<char>, b: Seq<char>)
    requires
        a.len() > 0,
        b.len() > 0,
        a[0] == b[0],
        joined(parent, a) == joined(parent, b),
    ensures
        a == b,
{
    let front = if a[0] == '/' {
        Seq::<char>::empty()
    } else if parent.len() > 0 && parent.last() != '/' {
        parent.push('/')
    } else {
        parent
    };
    assert(joined(parent, a) =~= front + a);
    assert(joined(parent, b) =~= front + b);
    assert(a =~= (front + a).skip(front.len() as int));
    assert(b =~= (front + b).skip(front.len() as int));
}

/// No two numbered names of a search are the same.
pub proof fn numbered_names_differ(
    formatted: Seq<char>,
    extension: Seq<char>,
    i: int,
    j: int,
)
    requires
        1 <= i,
        1 <= j,
        i != j,
    ensures
        candidate(formatted, extension, i) != candidate(formatted, extension, j),
{
    let path = final_name(formatted, extension);
    let stem = match stem_of(path) {
        Some(text) => text,
        None => "segment"@,
    };
    let front = stem + "_"@;
    let back = "."@ + extension;
    let a = stem + "_"@ + decimal(i as nat) + "."@ + extension;
    let b = stem + "_"@ + decimal(j as nat) + "."@ + extension;
    reveal_strlit("_");
    assert(a[0] == front[0] && b[0] == front[0]);
    if candidate(formatted, extension, i) == candidate(formatted, extension, j) {
        joined_behind(parent_of(path), a, b);
        assert(a =~= front + decimal(i as nat) + back);
        assert(b =~= front + decimal(j as nat) + back);
        middles_are_equal(front, decimal(i as nat), decimal(j as nat), back);
        digits_read(i as nat, 10);
        digits_read(j as nat, 10);
    }
}

/// Where a search that begins at `tried` comes to rest, by what is answered at each place: at the
/// place of the name that is free.
pub open spec fn rests_at(tried: int, answers: Seq<(bool, bool)>) -> Option<int>
    decreases answers.len(),
{
    if answers.len() == 0 {
        None
    } else {
        match after_answer(tried, answers[0].0, answers[0].1) {
            NamePlace::Free(found) => Some(found),
            NamePlace::Next(next) => rests_at(next, answers.skip(1)),
            NamePlace::Exhausted => None,
        }
    }
}

/// A search comes to rest at the first place whose name is free: there neither form of the name
/// exists, and at every place before it one does.
pub proof fn first_free_name_is_taken(tried: int, answers: Seq<(bool, bool)>)
    requires
        tried <= MAX_NAME_NUMBER,
    ensures
        match rests_at(tried, answers) {
            Some(found) => {
                &&& tried <= found <= MAX_NAME_NUMBER
                &&& found - tried < answers.len()
                &&& answers[found - tried] == (false, false)
                &&& forall|i: int|
                    0 <= i < found - tried ==> taken((#[trigger] answers[i]).0, answers[i].1)
            },
            None => forall|i: int|
                0 <= i < answers.len() && tried + i <= MAX_NAME_NUMBER ==> taken(
                    (#[trigger] answers[i]).0,
                    answers[i].1,
                ),
        },
    decreases answers.len(),
{
    if answers.len() > 0 && taken(answers[0].0, answers[0].1) && tried < MAX_NAME_NUMBER {
        let rest = answers.skip(1);
        first_free_name_is_taken(tried + 1, rest);
        match rests_at(tried, answers) {
            Some(found) => {
                assert(rest[found - tried - 1] == answers[found - tried]);
                assert forall|i: int| 0 <= i < found - tried implies taken(
                    (#[trigger] answers[i]).0,
                    answers[i].1,
                ) by {
                    if i > 0 {
                        assert(rest[i - 1] == answers[i]);
                    }
                }
            },
            None => {
                assert forall|i: int|
                    0 <= i < answers.len() && tried + i <= MAX_NAME_NUMBER implies taken(
                    (#[trigger] answers[i]).0,
                    answers[i].1,
                ) by {
                    if i > 0 {
                        assert(rest[i - 1] == answers[i]);
                    }
                }
            },
        }
    }
}

/// What is answered at the first `count` places of a search, where the files of `disk` exist.
pub open spec fn answers_of(
    disk: Set<Seq<char>>,
    formatted: Seq<char>,
    extension: Seq<char>,
    count: nat,
) -> Seq<(bool, bool)> {
    Seq::new(
        count,
        |i: int|
            (
                disk.contains(candidate(formatted, extension, i)),
                disk.contains(part_name(candidate(formatted, extension, i), extension)),
            ),
    )
}

/// On a disk that stays as it is, the name that a search finds does not exist in either form, and
/// of every name before it, the plain one included, the finished or the marked form exists.
pub proof fn search_finds_first_free_name(
    disk: Set<Seq<char>>,
    formatted: Seq<char>,
    extension: Seq<char>,
    count: nat,
    found: int,
)
    requires
        rests_at(0, answers_of(disk, formatted, extension, count)) == Some(found),
    ensures
        !disk.contains(candidate(formatted, extension, found)),
        !disk.contains(part_name(candidate(formatted, extension, found), extension)),
        forall|i: int|
            0 <= i < found ==> disk.contains(#[trigger] candidate(formatted, extension, i))
                || disk.contains(part_name(candidate(formatted, extension, i), extension)),
{
    let answers = answers_of(disk, formatted, extension, count);
    first_free_name_is_taken(0, answers);
    assert forall|i: int| 0 <= i < found implies disk.contains(
        #[trigger] candidate(formatted, extension, i),
    ) || disk.contains(part_name(candidate(formatted, extension, i), extension)) by {
        assert(taken(answers[i].0, answers[i].1));
    }
}

/// The stem of a name ends at its last dot.
proof fn stem_found(path: Seq<char>, start: int, end: int, dot: int, n: int)
    requires
        0 <= start < dot < n <= end <= path.len(),
        path[dot] == '.',
        forall|i: int| dot < i < n ==> path[i] != '.',
    ensures
        stem_end(path, start, end, n) == dot,
    decreases n,
{
    if n - 1 > dot {
        stem_found(path, start, end, dot, n - 1);
    }
}

/// A plain name is marked behind its extension.
proof fn plain_part_is_marked_behind(formatted: Seq<char>, extension: Seq<char>)
    requires
        formatted.len() > 0,
        formatted.last() != '/',
        extension.len() > 0,
        forall|i: int| 0 <= i < extension.len() ==> extension[i] != '.' && extension[i] != '/',
    ensures
        part_name(final_name(formatted, extension), extension) == final_name(formatted, extension)
            + ".part"@,
{
    reveal_strlit(".");
    let path = final_name(formatted, extension);
    let end = path.len() as int;
    let dot = formatted.len() as int;
    let start = name_start(formatted, dot);
    piece_begins_behind_slash(formatted, dot);
    assert(path[end - 1] == extension.last());
    assert(trimmed_end(path, end) == end);
    assert(start < dot);
    assert forall|i: int| start <= i < end implies path[i] != '/' by {
        if i > dot {
            assert(path[i] == extension[i - dot - 1]);
        }
    }
    if start > 0 {
        assert(path[start - 1] == formatted[start - 1]);
    }
    piece_begins(path, start, end);
    let name = path.subrange(start, end);
    assert(name.len() >= 3);
    assert(name_span(path) == Some((start, end)));
    assert forall|i: int| dot < i < end implies path[i] != '.' by {
        assert(path[i] == extension[i - dot - 1]);
    }
    stem_found(path, start, end, dot, end);
    let marked = extension + ".part"@;
    assert(with_extension(path, marked) == path.take(dot).push('.') + marked);
    assert(path.take(dot).push('.') + marked =~= path + ".part"@);
}

/// A number ends in a digit.
proof fn numbers_end_in_digits(n: nat)
    ensures
        decimal(n).len() > 0,
        decimal(n).last() != '/',
{
    reveal_with_fuel(digits, 1);
    vstd::arithmetic::div_mod::lemma_mod_bound(n as int, 10);
}

/// While a file is written it has the name of the finished file with `.part` behind it, whichever
/// name was free, where the extension is of plain characters.
pub proof fn part_is_marked_behind(formatted: Seq<char>, extension: Seq<char>, tried: int)
    requires
        formatted.len() > 0,
        formatted.last() != '/',
        extension.len() > 0,
        forall|i: int| 0 <= i < extension.len() ==> extension[i] != '.' && extension[i] != '/',
        tried >= 0,
    ensures
        part_name(candidate(formatted, extension, tried), extension) == candidate(
            formatted,
            extension,
            tried,
        ) + ".part"@,
{
    if tried == 0 {
        plain_part_is_marked_behind(formatted, extension);
    } else {
        let path = final_name(formatted, extension);
        let stem = match stem_of(path) {
            Some(text) => text,
            None => "segment"@,
        };
        let short = stem + "_"@ + decimal(tried as nat);
        reveal_strlit("_");
        numbers_end_in_digits(tried as nat);
        let long = short + "."@ + extension;
        assert(short[0] == long[0]);
        let whole = joined(parent_of(path), short);
        assert(whole.last() == short.last());
        assert(short.last() == decimal(tried as nat).last());
        assert(joined(parent_of(path), long) =~= final_name(whole, extension));
        plain_part_is_marked_behind(whole, extension);
    }
}

/// What the name of a path is, and where it stands.
proof fn name_stands(front: Seq<char>, stem: Seq<char>, extension: Seq<char>)
    requires
        front.len() > 0 ==> front.last() == '/',
        stem.len() > 0,
        forall|i: int| 0 <= i < stem.len() ==> stem[i] != '/',
        extension.len() > 0,
        forall|i: int| 0 <= i < extension.len() ==> extension[i] != '.' && extension[i] != '/',
    ensures
        ({
            let path = front + stem + "."@ + extension;
            let start = front.len() as int;
            let dot = start + stem.len();
            &&& name_span(path) == Some((start, path.len() as int))
            &&& trimmed_end(path, path.len() as int) == path.len()
            &&& name_start(path, path.len() as int) == start
            &&& stem_end(path, start, path.len() as int, path.len() as int) == dot
        }),
{
    reveal_strlit(".");
    let path = front + stem + "."@ + extension;
    let start = front.len() as int;
    let dot = start + stem.len();
    let end = path.len() as int;
    assert(path[dot] == '.');
    assert(path[end - 1] == extension.last());
    assert(trimmed_end(path, end) == end);
    assert forall|i: int| start <= i < end implies path[i] != '/' by {
        if i < dot {
            assert(path[i] == stem[i - start]);
        } else if i > dot {
            assert(path[i] == extension[i - dot - 1]);
        }
    }
    if start > 0 {
        assert(path[start - 1] == front.last());
    }
    piece_begins(path, start, end);
    assert forall|i: int| dot < i < end implies path[i] != '.' by {
        assert(path[i] == extension[i - dot - 1]);
    }
    stem_found(path, start, end, dot, end);
    let name = path.subrange(start, end);
    assert(name.len() >= 3);
}

/// The stem of a file is its name up to the extension, and another extension stands in the place
/// of the one it has.
pub proof fn extensions_are_exchanged(
    front: Seq<char>,
    stem: Seq<char>,
    extension: Seq<char>,
    other: Seq<char>,
)
    requires
        front.len() > 0 ==> front.last() == '/',
        stem.len() > 0,
        forall|i: int| 0 <= i < stem.len() ==> stem[i] != '/',
        extension.len() > 0,
        forall|i: int| 0 <= i < extension.len() ==> extension[i] != '.' && extension[i] != '/',
        other.len() > 0,
    ensures
        stem_of(front + stem + "."@ + extension) == Some(stem),
        with_extension(front + stem + "."@ + extension, other) == front + stem + "."@ + other,
{
    reveal_strlit(".");
    name_stands(front, stem, extension);
    let path = front + stem + "."@ + extension;
    let start = front.len() as int;
    let dot = start + stem.len();
    assert(path.subrange(start, dot) =~= stem);
    assert(path.take(dot) =~= front + stem);
    assert(with_extension(path, other) =~= front + stem + "."@ + other);
}

proof fn no_stem_found(path: Seq<char>, start: int, end: int, n: int)
    requires
        0 <= start < end <= path.len(),
        n <= end,
        forall|i: int| start < i < end ==> path[i] != '.',
    ensures
        stem_end(path, start, end, n) == end,
    decreases n - start,
{
    if n > start + 1 {
        no_stem_found(path, start, end, n - 1);
    }
}

/// A name without a dot, or with none but at its front, has no extension: it is its own stem, and
/// an extension is put behind it.
pub proof fn names_without_extensions(front: Seq<char>, name: Seq<char>, extension: Seq<char>)
    requires
        front.len() > 0 ==> front.last() == '/',
        name.len() > 1,
        forall|i: int| 0 <= i < name.len() ==> name[i] != '/',
        forall|i: int| 0 < i < name.len() ==> name[i] != '.',
        extension.len() > 0,
    ensures
        stem_of(front + name) == Some(name),
        with_extension(front + name, extension) == front + name + "."@ + extension,
{
    reveal_strlit(".");
    let path = front + name;
    let start = front.len() as int;
    let end = path.len() as int;
    assert(path[end - 1] == name.last());
    assert(trimmed_end(path, end) == end);
    assert forall|i: int| start <= i < end implies path[i] != '/' by {
        assert(path[i] == name[i - start]);
    }
    if start > 0 {
        assert(path[start - 1] == front.last());
    }
    piece_begins(path, start, end);
    assert forall|i: int| start < i < end implies path[i] != '.' by {
        assert(path[i] == name[i - start]);
    }
    assert(path.subrange(start, end) =~= name);
    assert(name[1] != '.');
    no_stem_found(path, start, end, end);
    assert(path.take(end) =~= path);
    assert(with_extension(path, extension) =~= front + name + "."@ + extension);
}

proof fn front_is_trimmed(front: Seq<char>, path: Seq<char>, n: int)
    requires
        0 <= n <= front.len() <= path.len(),
        path.take(front.len() as int) == front,
    ensures
        trimmed_end(path, n) == trimmed_end(front, n),
    decreases n,
{
    if n > 0 {
        assert(path.take(front.len() as int)[n - 1] == path[n - 1]);
        if n >= 2 {
            assert(path.take(front.len() as int)[n - 2] == path[n - 2]);
        }
        front_is_trimmed(front, path, n - 1);
    }
}

proof fn trimmed_within(path: Seq<char>, n: int)
    requires
        0 <= n,
    ensures
        trimmed_end(path, n) <= n,
    decreases n,
{
    if n > 0 {
        trimmed_within(path, n - 1);
    }
}

/// The first name of a search is the formatted one with the extension behind a dot. The others
/// have their number behind an underscore, before the extension, in the same directory.
pub proof fn numbers_stand_before_the_extension(
    front: Seq<char>,
    stem: Seq<char>,
    extension: Seq<char>,
    number: int,
)
    requires
        front.len() > 0 ==> front.last() == '/' && trimmed_end(front, front.len() as int)
            == front.len() - 1,
        stem.len() > 0,
        forall|i: int| 0 <= i < stem.len() ==> stem[i] != '/',
        extension.len() > 0,
        forall|i: int| 0 <= i < extension.len() ==> extension[i] != '.' && extension[i] != '/',
        number >= 1,
    ensures
        candidate(front + stem, extension, 0) == front + stem + "."@ + extension,
        candidate(front + stem, extension, number) == front + stem + "_"@ + decimal(number as nat)
            + "."@ + extension,
{
    name_stands(front, stem, extension);
    let path = front + stem + "."@ + extension;
    assert(final_name(front + stem, extension) =~= path);
    let start = front.len() as int;
    assert(path.subrange(start, start + stem.len()) =~= stem);
    assert(path.take(start) =~= front);
    front_is_trimmed(front, path, start);
    let long = stem + "_"@ + decimal(number as nat) + "."@ + extension;
    assert(long[0] == stem[0]);
    let parent = parent_of(path);
    if start == 0 {
        assert(parent =~= Seq::<char>::empty());
        assert(joined(parent, long) =~= front + long);
    } else if start == 1 {
        assert(parent =~= seq!['/']);
        assert(joined(parent, long) =~= front + long);
    } else {
        assert(parent =~= path.take(start - 1));
        assert(front[start - 2] != '/') by {
            assert(trimmed_end(front, start) == trimmed_end(front, start - 1));
            trimmed_within(front, start - 2);
        }
        assert(parent.last() == path[start - 2]);
        assert(path[start - 2] == front[start - 2]);
        assert(path[start - 1] == front[start - 1]);
        assert(parent.push('/') =~= front);
        assert(joined(parent, long) =~= front + long);
    }
    assert(front + long =~= front + stem + "_"@ + decimal(number as nat) + "."@ + extension);
}

/// A name is free where neither of its forms exists; else the next number is tried, up to
/// 2147483647.
pub proof fn taken_names_lead_on(tried: int, finished: bool, marked: bool)
    ensures
        !finished && !marked ==> after_answer(tried, finished, marked) == NamePlace::Free(tried),
        (finished || marked) && tried < 2147483647 ==> after_answer(tried, finished, marked)
            == NamePlace::Next(tried + 1),
        (finished || marked) && tried >= 2147483647 ==> after_answer(tried, finished, marked)
            == NamePlace::Exhausted,
{
}

} // verus!
