//! What holds of paths.

use crate::path::{joined, name_span, name_start, parent_of, parent_text, plain, plain_up_to, trimmed_end, without_part};
use crate::text::ends_with;
use vstd::prelude::*;

verus! {

/// Two paths agree up to `n`.
spec fn agree(a: Seq<char>, b: Seq<char>, n: int) -> bool {
    &&& n <= a.len()
    &&& n <= b.len()
    &&& forall|i: int| 0 <= i < n ==> a[i] == b[i]
}

/// What is found before a place depends on what stands there alone.
proof fn ends_agree(a: Seq<char>, b: Seq<char>, n: int)
    requires
        agree(a, b, n),
    ensures
        trimmed_end(a, n) == trimmed_end(b, n),
        name_start(a, n) == name_start(b, n),
        n >= 0 ==> 0 <= trimmed_end(a, n) <= n && 0 <= name_start(a, n) <= n,
    decreases n,
{
    if n > 0 {
        ends_agree(a, b, n - 1);
    }
}

/// The plain form up to a place depends on what stands there alone, and on the root.
proof fn plains_agree(a: Seq<char>, b: Seq<char>, n: int)
    requires
        0 <= n,
        agree(a, b, n),
        a.len() > 0,
        b.len() > 0,
        a[0] == b[0],
    ensures
        plain_up_to(a, n) == plain_up_to(b, n),
    decreases n,
{
    ends_agree(a, b, n);
    let end = trimmed_end(a, n);
    ends_agree(a, b, end);
    let start = name_start(a, end);
    if end > 0 && start < end {
        plains_agree(a, b, start);
        assert(a.subrange(start, end) =~= b.subrange(start, end));
    }
}

/// An end that was found is its own end, behind something that says something.
proof fn end_is_settled(path: Seq<char>, n: int)
    requires
        0 <= n <= path.len(),
    ensures
        trimmed_end(path, trimmed_end(path, n)) == trimmed_end(path, n),
        trimmed_end(path, n) > 0 ==> path[trimmed_end(path, n) - 1] != '/',
        n > 0 && trimmed_end(path, n) == 0 ==> path[0] == '/',
    decreases n,
{
    if n > 0 {
        end_is_settled(path, n - 1);
    }
}

/// A piece begins behind the last slash before it.
pub proof fn piece_begins(path: Seq<char>, start: int, n: int)
    requires
        0 <= start <= n <= path.len(),
        start > 0 ==> path[start - 1] == '/',
        forall|i: int| start <= i < n ==> path[i] != '/',
    ensures
        name_start(path, n) == start,
    decreases n,
{
    if n > start {
        piece_begins(path, start, n - 1);
    }
}

/// Where a piece was found to begin, there is the last slash before it.
pub proof fn piece_begins_behind_slash(path: Seq<char>, n: int)
    requires
        0 <= n <= path.len(),
    ensures
        0 <= name_start(path, n) <= n,
        name_start(path, n) > 0 ==> path[name_start(path, n) - 1] == '/',
        forall|i: int| name_start(path, n) <= i < n ==> path[i] != '/',
    decreases n,
{
    if n > 0 && path[n - 1] != '/' {
        piece_begins_behind_slash(path, n - 1);
    }
}

/// A name.
pub open spec fn is_name(name: Seq<char>) -> bool {
    &&& name.len() > 0
    &&& name != seq!['.']
    &&& name != seq!['.', '.']
    &&& forall|i: int| 0 <= i < name.len() ==> name[i] != '/'
}

/// A name behind a slash, or alone, is the name of its path.
proof fn name_is_found(path: Seq<char>, start: int)
    requires
        0 <= start < path.len(),
        start > 0 ==> path[start - 1] == '/',
        is_name(path.skip(start)),
    ensures
        trimmed_end(path, path.len() as int) == path.len(),
        name_start(path, path.len() as int) == start,
        name_span(path) == Some((start, path.len() as int)),
{
    let name = path.skip(start);
    let n = path.len() as int;
    assert forall|i: int| start <= i < n implies path[i] != '/' by {
        assert(name[i - start] == path[i]);
    }
    if path[n - 1] == '.' && n >= 2 && path[n - 2] == '/' {
        assert(start == n - 1);
        assert(name =~= seq!['.']);
    }
    piece_begins(path, start, n);
    assert(path.subrange(start, n) =~= name);
}

/// A path whose parent was brought into a shorter form is the same.
proof fn shorter_parent_is_same(path: Seq<char>, start: int)
    requires
        0 <= start < path.len(),
        start > 0 ==> path[start - 1] == '/',
        is_name(path.skip(start)),
    ensures
        plain(joined(parent_text(path, start), path.skip(start))) == plain(path),
{
    let name = path.skip(start);
    let short = joined(parent_text(path, start), name);
    let end = trimmed_end(path, start);
    name_is_found(path, start);
    assert(path.subrange(start, path.len() as int) =~= name);
    assert(name[0] != '/');
    ends_agree(path, path, start);
    end_is_settled(path, start);
    if start == 0 {
        assert(short =~= path);
    } else if end == 0 {
        assert(short =~= seq!['/'] + name);
        assert(short.skip(1) =~= name);
        name_is_found(short, 1);
        assert(short.subrange(1, short.len() as int) =~= name);
        assert(plain_up_to(short, 1) == seq!['/']);
        assert(plain_up_to(path, start) == seq!['/']);
    } else {
        let parent = path.take(end);
        assert(parent.last() == path[end - 1]);
        assert(short =~= parent.push('/') + name);
        assert(short.skip(end + 1) =~= name);
        name_is_found(short, end + 1);
        assert(short.subrange(end + 1, short.len() as int) =~= name);
        assert(agree(path, short, end));
        ends_agree(path, short, end);
        assert(trimmed_end(short, end + 1) == end);
        let inner = name_start(path, end);
        plains_agree(path, short, inner);
        assert(path.subrange(inner, end) =~= short.subrange(inner, end));
        assert(plain_up_to(short, end + 1) == plain_up_to(path, start));
    }
}

/// Taking the mark of an unfinished file away gives the path that was marked.
pub proof fn stripping_undoes_marking(path: Seq<char>)
    requires
        name_span(path) matches Some((_, end)) && end == path.len(),
    ensures
        plain(without_part(path + ".part"@)) == plain(path),
{
    reveal_strlit(".part");
    let start = (name_span(path)->0).0;
    let end = path.len() as int;
    piece_begins_behind_slash(path, end);
    let name = path.subrange(start, end);
    assert(path.skip(start) =~= name);
    assert forall|i: int| 0 <= i < name.len() implies name[i] != '/' by {
        assert(path[start + i] != '/');
    }
    let marked = path + ".part"@;
    let marked_name = marked.skip(start);
    assert(marked_name =~= name + ".part"@);
    assert forall|i: int| 0 <= i < marked_name.len() implies marked_name[i] != '/' by {
        if i < name.len() {
            assert(marked_name[i] == name[i]);
        } else {
            assert(marked_name[i] == ".part"@[i - name.len()]);
        }
    }
    if start > 0 {
        assert(marked[start - 1] == path[start - 1]);
    }
    name_is_found(marked, start);
    let whole = marked.len() as int;
    assert(marked.subrange(start, whole) =~= marked_name);
    assert(marked_name.skip(name.len() as int) =~= ".part"@);
    assert(ends_with(marked_name, ".part"@));
    assert(marked.subrange(start, whole - 5) =~= name);
    assert(agree(path, marked, start));
    ends_agree(path, marked, start);
    assert(path.take(trimmed_end(path, start)) =~= marked.take(trimmed_end(path, start)));
    assert(without_part(marked) == joined(parent_text(path, start), name));
    shorter_parent_is_same(path, start);
}

/// Slashes behind a path, and a dot behind a slash, say nothing.
pub proof fn slashes_behind_say_nothing(path: Seq<char>)
    requires
        path.len() > 0,
    ensures
        plain(path + seq!['/']) == plain(path),
        plain(path + seq!['/', '.']) == plain(path),
{
    let n = path.len() as int;
    let a = path + seq!['/'];
    let b = path + seq!['/', '.'];
    assert(agree(path, a, n) && agree(path, b, n));
    ends_agree(path, a, n);
    ends_agree(path, b, n);
    assert(a[n] == '/' && b[n] == '/' && b[n + 1] == '.');
    assert(trimmed_end(a, n + 1) == trimmed_end(a, n));
    assert(trimmed_end(b, n + 2) == trimmed_end(b, n + 1));
    assert(trimmed_end(b, n + 1) == trimmed_end(b, n));
    let end = trimmed_end(path, n);
    assert(agree(path, a, end) && agree(path, b, end));
    ends_agree(path, a, end);
    ends_agree(path, b, end);
    let start = name_start(path, end);
    if start < end {
        plains_agree(path, a, start);
        plains_agree(path, b, start);
        assert(path.subrange(start, end) =~= a.subrange(start, end));
        assert(path.subrange(start, end) =~= b.subrange(start, end));
    }
}

/// A name below a path stands behind what the path says, one slash between them.
pub proof fn names_stand_below(path: Seq<char>, name: Seq<char>)
    requires
        path.len() > 0,
        name.len() > 0,
        name != seq!['.'],
        forall|i: int| 0 <= i < name.len() ==> name[i] != '/',
    ensures
        plain(path + seq!['/'] + name) == joined(plain(path), name),
        plain(name) == name,
{
    let n = path.len() as int;
    let whole = path + seq!['/'] + name;
    let front = path + seq!['/'];
    let end = whole.len() as int;
    assert(whole[n] == '/');
    assert(whole[end - 1] == name.last());
    assert(trimmed_end(whole, end) == end) by {
        if whole[end - 1] == '.' && whole[end - 2] == '/' {
            if name.len() >= 2 {
                assert(whole[end - 2] == name[name.len() - 2]);
            } else {
                assert(name =~= seq!['.']);
            }
        }
    }
    assert forall|i: int| n + 1 <= i < end implies whole[i] != '/' by {
        assert(whole[i] == name[i - n - 1]);
    }
    piece_begins(whole, n + 1, end);
    assert(whole.subrange(n + 1, end) =~= name);
    assert(agree(front, whole, n + 1));
    plains_agree(front, whole, n + 1);
    slashes_behind_say_nothing(path);
    let m = name.len() as int;
    assert(trimmed_end(name, m) == m) by {
        if m >= 2 {
            assert(name[m - 2] != '/');
        }
    }
    piece_begins(name, 0, m);
    assert(name.subrange(0, m) =~= name);
    assert(plain_up_to(name, 0) =~= Seq::<char>::empty());
    assert(joined(Seq::<char>::empty(), name) =~= name);
}

/// A name is joined to a directory with one slash; to nothing, or behind a slash, without; and a
/// name that begins at the root stands for itself.
pub proof fn names_are_joined_by_one_slash(parent: Seq<char>, name: Seq<char>)
    requires
        name.len() > 0,
    ensures
        name[0] == '/' ==> joined(parent, name) == name,
        name[0] != '/' && parent.len() > 0 && parent.last() != '/' ==> joined(parent, name)
            == parent + seq!['/'] + name,
        name[0] != '/' && (parent.len() == 0 || parent.last() == '/') ==> joined(parent, name)
            == parent + name,
{
    assert(parent.push('/') + name =~= parent + seq!['/'] + name);
}

/// The parent of a path is what stands before its last name.
pub proof fn parents_stand_before_the_name(path: Seq<char>, name: Seq<char>)
    requires
        path.len() > 0,
        trimmed_end(path, path.len() as int) == path.len(),
        is_name(name),
    ensures
        parent_of(path + seq!['/'] + name) == path,
        parent_of(seq!['/'] + name) == seq!['/'],
        parent_of(name).len() == 0,
{
    let n = path.len() as int;
    let whole = path + seq!['/'] + name;
    assert(whole.skip(n + 1) =~= name);
    name_is_found(whole, n + 1);
    assert(agree(path, whole, n));
    ends_agree(path, whole, n);
    assert(whole[n] == '/');
    assert(trimmed_end(whole, n + 1) == n);
    assert(whole.take(n) =~= path);
    let root = seq!['/'] + name;
    assert(root.skip(1) =~= name);
    name_is_found(root, 1);
    assert(trimmed_end(root, 1) == trimmed_end(root, 0));
    assert(name.skip(0) =~= name);
    name_is_found(name, 0);
}

/// Only names that end in the mark of an unfinished file lose it; other paths stay as they are.
pub proof fn other_names_keep_their_end(path: Seq<char>)
    requires
        name_span(path) is None || (name_span(path) matches Some((start, end)) && !ends_with(
            path.subrange(start, end),
            ".part"@,
        )),
    ensures
        without_part(path) == path,
{
}

} // verus!
