//! Paths as text: pieces between slashes. Repeated slashes and pieces of one dot say nothing,
//! except for a dot at the very front.

use crate::text::{chars_of, ends_with, stands_at, string_of};
use vstd::prelude::*;
use vstd::slice::slice_subrange;

verus! {

/// Where the last piece that says something ends, at or before `n`.
pub open spec fn trimmed_end(path: Seq<char>, n: int) -> int
    decreases n,
{
    if n <= 0 {
        0
    } else if path[n - 1] == '/' {
        trimmed_end(path, n - 1)
    } else if path[n - 1] == '.' && n >= 2 && path[n - 2] == '/' {
        trimmed_end(path, n - 1)
    } else {
        n
    }
}

/// Where the piece that ends at `n` begins.
pub open spec fn name_start(path: Seq<char>, n: int) -> int
    decreases n,
{
    if n <= 0 {
        0
    } else if path[n - 1] == '/' {
        n
    } else {
        name_start(path, n - 1)
    }
}

/// The bounds of the last piece, where it is a name.
pub open spec fn name_span(path: Seq<char>) -> Option<(int, int)> {
    let end = trimmed_end(path, path.len() as int);
    let start = name_start(path, end);
    let name = path.subrange(start, end);
    if name.len() == 0 || name == seq!['.'] || name == seq!['.', '.'] {
        None
    } else {
        Some((start, end))
    }
}

/// What stands before the piece that begins at `start`.
pub open spec fn parent_text(path: Seq<char>, start: int) -> Seq<char> {
    let end = trimmed_end(path, start);
    if end == 0 && start > 0 {
        seq!['/']
    } else {
        path.take(end)
    }
}

/// What stands before the last piece; nothing where there is no piece.
pub open spec fn parent_of(path: Seq<char>) -> Seq<char> {
    let end = trimmed_end(path, path.len() as int);
    if end == 0 {
        Seq::empty()
    } else {
        parent_text(path, name_start(path, end))
    }
}

/// `name` below `parent`. A name that begins at the root stands for itself.
pub open spec fn joined(parent: Seq<char>, name: Seq<char>) -> Seq<char> {
    if name.len() > 0 && name[0] == '/' {
        name
    } else if parent.len() > 0 && parent.last() != '/' {
        parent.push('/') + name
    } else {
        parent + name
    }
}

/// `path` up to `n` with nothing in it that says nothing. Paths are the same where this is.
pub open spec fn plain_up_to(path: Seq<char>, n: int) -> Seq<char>
    decreases n,
{
    let end = trimmed_end(path, n);
    let start = name_start(path, end);
    if end <= 0 || end > n || start < 0 || start >= end {
        if path.len() > 0 && path[0] == '/' {
            seq!['/']
        } else {
            Seq::empty()
        }
    } else {
        joined(plain_up_to(path, start), path.subrange(start, end))
    }
}

/// `path` with nothing in it that says nothing. Paths are the same where this is.
pub open spec fn plain(path: Seq<char>) -> Seq<char> {
    plain_up_to(path, path.len() as int)
}

/// Where the stem of the name from `start` to `end` ends: at its last dot, unless the name begins
/// with it.
pub open spec fn stem_end(path: Seq<char>, start: int, end: int, n: int) -> int
    decreases n - start,
{
    if n <= start + 1 {
        end
    } else if path[n - 1] == '.' {
        n - 1
    } else {
        stem_end(path, start, end, n - 1)
    }
}

/// The name without its extension.
pub open spec fn stem_of(path: Seq<char>) -> Option<Seq<char>> {
    match name_span(path) {
        Some((start, end)) => Some(path.subrange(start, stem_end(path, start, end, end))),
        None => None,
    }
}

/// The path with another extension. Without a name there is nothing to extend.
pub open spec fn with_extension(path: Seq<char>, extension: Seq<char>) -> Seq<char> {
    match name_span(path) {
        Some((start, end)) => {
            let kept = path.take(stem_end(path, start, end, end));
            if extension.len() == 0 {
                kept
            } else {
                kept.push('.') + extension
            }
        },
        None => path,
    }
}

/// The path without the mark of an unfinished file.
pub open spec fn without_part(path: Seq<char>) -> Seq<char> {
    match name_span(path) {
        Some((start, end)) if ends_with(path.subrange(start, end), ".part"@) => joined(
            parent_text(path, start),
            path.subrange(start, end - ".part"@.len()),
        ),
        _ => path,
    }
}

fn find_end(path: &[char], n: usize) -> (end: usize)
    requires
        n <= path.len(),
    ensures
        end == trimmed_end(path@, n as int),
        end <= n,
{
    let mut end: usize = n;
    while end > 0 && (path[end - 1] == '/' || (path[end - 1] == '.' && end >= 2 && path[end - 2]
        == '/'))
        invariant
            end <= n <= path.len(),
            trimmed_end(path@, end as int) == trimmed_end(path@, n as int),
        decreases end,
    {
        end -= 1;
    }
    end
}

fn find_start(path: &[char], n: usize) -> (start: usize)
    requires
        n <= path.len(),
    ensures
        start == name_start(path@, n as int),
        start <= n,
{
    let mut start: usize = n;
    while start > 0 && path[start - 1] != '/'
        invariant
            start <= n <= path.len(),
            name_start(path@, start as int) == name_start(path@, n as int),
        decreases start,
    {
        start -= 1;
    }
    start
}

/// The bounds of the last piece, where it is a name.
fn find_name(path: &[char]) -> (span: Option<(usize, usize)>)
    ensures
        match span {
            Some((start, end)) => name_span(path@) == Some((start as int, end as int)) && start
                < end <= path@.len(),
            None => name_span(path@) is None,
        },
{
    let end: usize = find_end(path, path.len());
    let start: usize = find_start(path, end);
    let ghost name = path@.subrange(start as int, end as int);
    if end == start {
        return None;
    }
    if end - start == 1 && path[start] == '.' {
        assert(name =~= seq!['.']);
        return None;
    }
    if end - start == 2 && path[start] == '.' && path[start + 1] == '.' {
        assert(name =~= seq!['.', '.']);
        return None;
    }
    assert(name[0] == path@[start as int]);
    assert(name.len() == 2 ==> name[1] == path@[start + 1]);
    Some((start, end))
}

fn parent_chars(path: &[char], start: usize) -> (parent: Vec<char>)
    requires
        start <= path.len(),
    ensures
        parent@ == parent_text(path@, start as int),
{
    let end: usize = find_end(path, start);
    let mut parent: Vec<char> = Vec::new();
    if end == 0 && start > 0 {
        parent.push('/');
    } else {
        parent.extend_from_slice(slice_subrange(path, 0, end));
    }
    assert(parent@ =~= parent_text(path@, start as int));
    parent
}

fn join_chars(parent: Vec<char>, name: &[char]) -> (path: Vec<char>)
    ensures
        path@ == joined(parent@, name@),
{
    let mut path: Vec<char> = parent;
    if name.len() > 0 && name[0] == '/' {
        path = Vec::new();
    } else if path.len() > 0 && path[path.len() - 1] != '/' {
        path.push('/');
    }
    path.extend_from_slice(name);
    assert(path@ =~= joined(parent@, name@));
    path
}

fn plain_chars(path: &[char], n: usize) -> (text: Vec<char>)
    requires
        n <= path.len(),
    ensures
        text@ == plain_up_to(path@, n as int),
    decreases n,
{
    let end: usize = find_end(path, n);
    let start: usize = find_start(path, end);
    if end == 0 || start >= end {
        let mut text: Vec<char> = Vec::new();
        if path.len() > 0 && path[0] == '/' {
            text.push('/');
        }
        assert(text@ =~= plain_up_to(path@, n as int));
        text
    } else {
        let before: Vec<char> = plain_chars(path, start);
        join_chars(before, slice_subrange(path, start, end))
    }
}

/// What a path says.
pub fn plain_path(path: &str) -> (text: String)
    ensures
        text@ == plain(path@),
{
    let chars: Vec<char> = chars_of(path);
    let text: Vec<char> = plain_chars(chars.as_slice(), chars.len());
    string_of(text.as_slice())
}

/// Whether two paths are the same.
pub fn same_path(a: &str, b: &str) -> (same: bool)
    ensures
        same == (plain(a@) == plain(b@)),
{
    plain_path(a) == plain_path(b)
}

/// `name` below `parent`.
pub fn join_path(parent: &str, name: &str) -> (path: String)
    ensures
        path@ == joined(parent@, name@),
{
    let path: Vec<char> = join_chars(chars_of(parent), chars_of(name).as_slice());
    string_of(path.as_slice())
}

/// What stands before the last piece of a path; nothing where there is no piece.
pub fn parent_path(path: &str) -> (parent: String)
    ensures
        parent@ == parent_of(path@),
{
    let chars: Vec<char> = chars_of(path);
    let end: usize = find_end(chars.as_slice(), chars.len());
    if end == 0 {
        let empty = String::new();
        assert(empty@ =~= Seq::<char>::empty());
        return empty;
    }
    let start: usize = find_start(chars.as_slice(), end);
    string_of(parent_chars(chars.as_slice(), start).as_slice())
}

fn find_stem_end(path: &[char], start: usize, end: usize) -> (stem: usize)
    requires
        start < end <= path.len(),
    ensures
        stem == stem_end(path@, start as int, end as int, end as int),
        start < stem <= end,
{
    let mut n: usize = end;
    while n > start + 1
        invariant
            start < n <= end <= path.len(),
            stem_end(path@, start as int, end as int, n as int) == stem_end(
                path@,
                start as int,
                end as int,
                end as int,
            ),
        decreases n,
    {
        if path[n - 1] == '.' {
            return n - 1;
        }
        n -= 1;
    }
    end
}

/// The name of a path without its extension.
pub fn file_stem(path: &str) -> (stem: Option<String>)
    ensures
        match stem {
            Some(text) => stem_of(path@) == Some(text@),
            None => stem_of(path@) is None,
        },
{
    let chars: Vec<char> = chars_of(path);
    match find_name(chars.as_slice()) {
        Some((start, end)) => {
            let stem: usize = find_stem_end(chars.as_slice(), start, end);
            Some(string_of(slice_subrange(chars.as_slice(), start, stem)))
        },
        None => None,
    }
}

/// The path with another extension.
pub fn set_extension(path: &str, extension: &str) -> (changed: String)
    ensures
        changed@ == with_extension(path@, extension@),
{
    let chars: Vec<char> = chars_of(path);
    match find_name(chars.as_slice()) {
        Some((start, end)) => {
            let stem: usize = find_stem_end(chars.as_slice(), start, end);
            let mut changed = string_of(slice_subrange(chars.as_slice(), 0, stem));
            assert(changed@ =~= path@.take(stem as int));
            let added: Vec<char> = chars_of(extension);
            if added.len() > 0 {
                changed.push('.');
                changed.append(extension);
            }
            changed
        },
        None => path.to_owned(),
    }
}

/// The path without the mark of an unfinished file.
pub fn strip_part_suffix(path: &str) -> (stripped: String)
    ensures
        stripped@ == without_part(path@),
{
    let chars: Vec<char> = chars_of(path);
    let mark: Vec<char> = chars_of(".part");
    match find_name(chars.as_slice()) {
        Some((start, end)) => {
            let name: &[char] = slice_subrange(chars.as_slice(), start, end);
            if name.len() >= mark.len() && stands_at(
                name,
                mark.as_slice(),
                name.len() - mark.len(),
            ) {
                let parent: Vec<char> = parent_chars(chars.as_slice(), start);
                let kept: &[char] = slice_subrange(chars.as_slice(), start, end - mark.len());
                string_of(join_chars(parent, kept).as_slice())
            } else {
                path.to_owned()
            }
        },
        None => path.to_owned(),
    }
}

} // verus!
