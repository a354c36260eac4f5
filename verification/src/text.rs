//! Text as sequences of characters.

use vstd::prelude::*;
use vstd::slice::slice_subrange;

verus! {

/// Texts by their views.
pub open spec fn texts(all: Seq<String>) -> Seq<Seq<char>> {
    all.map_values(|t: String| t@)
}

/// Pairs of texts by their views.
pub open spec fn pairs_of(pairs: Seq<(String, String)>) -> Seq<(Seq<char>, Seq<char>)> {
    pairs.map_values(|p: (String, String)| (p.0@, p.1@))
}

/// `a` stands before `b` in the order of their characters.
pub open spec fn text_before(a: Seq<char>, b: Seq<char>) -> bool
    decreases a.len(),
{
    if b.len() == 0 {
        false
    } else if a.len() == 0 {
        true
    } else if a[0] != b[0] {
        a[0] < b[0]
    } else {
        text_before(a.skip(1), b.skip(1))
    }
}

/// Nothing stands before itself.
pub proof fn text_order_irreflexive(a: Seq<char>)
    ensures
        !text_before(a, a),
    decreases a.len(),
{
    if a.len() > 0 {
        text_order_irreflexive(a.skip(1));
    }
}

/// The order of texts is transitive.
pub proof fn text_order_transitive(a: Seq<char>, b: Seq<char>, c: Seq<char>)
    requires
        text_before(a, b),
        text_before(b, c),
    ensures
        text_before(a, c),
    decreases a.len(),
{
    if a.len() > 0 && a[0] == b[0] && b[0] == c[0] {
        text_order_transitive(a.skip(1), b.skip(1), c.skip(1));
    }
}

/// Of two different texts one stands before the other.
pub proof fn text_order_total(a: Seq<char>, b: Seq<char>)
    ensures
        text_before(a, b) || a == b || text_before(b, a),
    decreases a.len(),
{
    if a.len() > 0 && b.len() > 0 && a[0] == b[0] {
        text_order_total(a.skip(1), b.skip(1));
        if a.skip(1) == b.skip(1) {
            assert(a =~= seq![a[0]] + a.skip(1));
            assert(b =~= seq![b[0]] + b.skip(1));
        }
    } else if a.len() == 0 && b.len() == 0 {
        assert(a =~= b);
    }
}

/// Whether `a` stands before `b`.
pub fn text_precedes(a: &str, b: &str) -> (before: bool)
    ensures
        before == text_before(a@, b@),
{
    let left: Vec<char> = chars_of(a);
    let right: Vec<char> = chars_of(b);
    let mut i: usize = 0;
    assert(left@.skip(0) =~= left@);
    assert(right@.skip(0) =~= right@);
    while i < left.len() && i < right.len()
        invariant
            i <= left.len(),
            i <= right.len(),
            left@ == a@,
            right@ == b@,
            text_before(left@, right@) == text_before(left@.skip(i as int), right@.skip(i as int)),
        decreases left.len() - i,
    {
        if left[i] != right[i] {
            return left[i] < right[i];
        }
        assert(left@.skip(i as int).skip(1) =~= left@.skip(i + 1));
        assert(right@.skip(i as int).skip(1) =~= right@.skip(i + 1));
        i += 1;
    }
    i < right.len()
}

/// The characters of `text`.
pub fn chars_of(text: &str) -> (chars: Vec<char>)
    ensures
        chars@ == text@,
{
    let mut chars: Vec<char> = Vec::new();
    for c in it: text.chars()
        invariant
            it.seq() == text@,
            chars@ == text@.take(it.index()),
    {
        chars.push(c);
    }
    chars
}

/// The text made of `chars`.
pub fn string_of(chars: &[char]) -> (text: String)
    ensures
        text@ == chars@,
{
    let mut text = String::new();
    let mut i: usize = 0;
    while i < chars.len()
        invariant
            i <= chars.len(),
            text@ == chars@.take(i as int),
        decreases chars.len() - i,
    {
        text.push(chars[i]);
        i += 1;
    }
    assert(chars@.take(chars@.len() as int) == chars@);
    text
}

// ---------------------------------------------------------------------------
// Numbers
// ---------------------------------------------------------------------------

/// The digit for `d` in bases up to sixteen.
pub open spec fn digit_char(d: int) -> char {
    if d < 10 {
        ('0' as u8 + d) as char
    } else {
        ('a' as u8 + d - 10) as char
    }
}

/// `n` written in `base`, the highest digit first.
pub open spec fn digits(n: nat, base: nat) -> Seq<char>
    decreases n,
{
    if n < base || base < 2 {
        seq![digit_char(n as int)]
    } else {
        proof {
            vstd::arithmetic::div_mod::lemma_div_decreases(n as int, base as int);
        }
        digits(n / base, base).push(digit_char((n % base) as int))
    }
}

/// `n` in decimal.
pub open spec fn decimal(n: nat) -> Seq<char> {
    digits(n, 10)
}

/// `n` in lower-case hexadecimal.
pub open spec fn hexadecimal(n: nat) -> Seq<char> {
    digits(n, 16)
}

fn digit(d: u64) -> (c: char)
    requires
        d < 16,
    ensures
        c == digit_char(d as int),
{
    match d {
        0 => '0',
        1 => '1',
        2 => '2',
        3 => '3',
        4 => '4',
        5 => '5',
        6 => '6',
        7 => '7',
        8 => '8',
        9 => '9',
        10 => 'a',
        11 => 'b',
        12 => 'c',
        13 => 'd',
        14 => 'e',
        _ => 'f',
    }
}

fn push_digits(text: &mut String, n: u64, base: u64)
    requires
        2 <= base <= 16,
    ensures
        final(text)@ == old(text)@ + digits(n as nat, base as nat),
    decreases n,
{
    if n >= base {
        proof {
            vstd::arithmetic::div_mod::lemma_div_decreases(n as int, base as int);
        }
        push_digits(text, n / base, base);
    } else {
        proof {
            vstd::arithmetic::div_mod::lemma_small_mod(n as nat, base as nat);
        }
    }
    text.push(digit(n % base));
    assert(text@ =~= old(text)@ + digits(n as nat, base as nat));
}

/// Appends `n` in decimal.
pub fn push_decimal(text: &mut String, n: u64)
    ensures
        final(text)@ == old(text)@ + decimal(n as nat),
{
    push_digits(text, n, 10);
}

/// `n` in decimal.
pub fn decimal_string(n: u64) -> (text: String)
    ensures
        text@ == decimal(n as nat),
{
    let mut text = String::new();
    push_digits(&mut text, n, 10);
    assert(text@ =~= decimal(n as nat));
    text
}

/// `n` in decimal, behind a minus where it is negative.
pub open spec fn signed_decimal(n: int) -> Seq<char> {
    if n < 0 {
        "-"@ + decimal((-n) as nat)
    } else {
        decimal(n as nat)
    }
}

/// Appends `n` in decimal, behind a minus where it is negative.
pub fn push_signed(text: &mut String, n: i64)
    ensures
        final(text)@ == old(text)@ + signed_decimal(n as int),
{
    if n < 0 {
        text.append("-");
        let magnitude: u64 = (-(n as i128)) as u64;
        push_decimal(text, magnitude);
        assert(text@ =~= old(text)@ + signed_decimal(n as int));
    } else {
        push_decimal(text, n as u64);
    }
}

/// `n` in lower-case hexadecimal.
pub fn hex_string(n: u64) -> (text: String)
    ensures
        text@ == hexadecimal(n as nat),
{
    let mut text = String::new();
    push_digits(&mut text, n, 16);
    assert(text@ =~= hexadecimal(n as nat));
    text
}

// ---------------------------------------------------------------------------
// Searching
// ---------------------------------------------------------------------------

/// `pattern` stands in `text` at `i`.
pub open spec fn occurs_at(text: Seq<char>, pattern: Seq<char>, i: int) -> bool {
    &&& 0 <= i
    &&& i + pattern.len() <= text.len()
    &&& text.subrange(i, i + pattern.len()) == pattern
}

/// The first place at or behind `from` where `pattern` stands.
pub open spec fn find(text: Seq<char>, pattern: Seq<char>, from: int) -> Option<int>
    decreases text.len() - from + 1,
{
    if from < 0 || from + pattern.len() > text.len() {
        None
    } else if occurs_at(text, pattern, from) {
        Some(from)
    } else {
        find(text, pattern, from + 1)
    }
}

/// The last place at or before `from` where `pattern` stands.
pub open spec fn rfind(text: Seq<char>, pattern: Seq<char>, from: int) -> Option<int>
    decreases from + 1,
{
    if from < 0 {
        None
    } else if occurs_at(text, pattern, from) {
        Some(from)
    } else {
        rfind(text, pattern, from - 1)
    }
}

/// `pattern` stands somewhere in `text`.
pub open spec fn contains(text: Seq<char>, pattern: Seq<char>) -> bool {
    find(text, pattern, 0) is Some
}

/// `text` begins with `pattern`.
pub open spec fn starts_with(text: Seq<char>, pattern: Seq<char>) -> bool {
    occurs_at(text, pattern, 0)
}

/// `text` ends with `pattern`.
pub open spec fn ends_with(text: Seq<char>, pattern: Seq<char>) -> bool {
    occurs_at(text, pattern, text.len() - pattern.len())
}

/// What was found stands there, and nothing stands before it.
pub proof fn find_is_first(text: Seq<char>, pattern: Seq<char>, from: int)
    requires
        0 <= from,
    ensures
        find(text, pattern, from) matches Some(i) ==> {
            &&& from <= i
            &&& occurs_at(text, pattern, i)
            &&& forall|j: int| from <= j < i ==> !occurs_at(text, pattern, j)
        },
        find(text, pattern, from) is None ==> forall|j: int|
            from <= j ==> !occurs_at(text, pattern, j),
    decreases text.len() - from + 1,
{
    if from + pattern.len() <= text.len() && !occurs_at(text, pattern, from) {
        find_is_first(text, pattern, from + 1);
    }
}

/// What was found stands there, and nothing stands behind it up to `from`.
pub proof fn rfind_is_last(text: Seq<char>, pattern: Seq<char>, from: int)
    ensures
        rfind(text, pattern, from) matches Some(i) ==> {
            &&& 0 <= i <= from
            &&& occurs_at(text, pattern, i)
            &&& forall|j: int| i < j <= from ==> !occurs_at(text, pattern, j)
        },
        rfind(text, pattern, from) is None ==> forall|j: int|
            j <= from ==> !occurs_at(text, pattern, j),
    decreases from + 1,
{
    if from >= 0 && !occurs_at(text, pattern, from) {
        rfind_is_last(text, pattern, from - 1);
    }
}

/// Whether `pattern` stands in `text` at `i`.
pub fn stands_at(text: &[char], pattern: &[char], i: usize) -> (stands: bool)
    ensures
        stands == occurs_at(text@, pattern@, i as int),
{
    if i > text.len() || pattern.len() > text.len() - i {
        return false;
    }
    let mut k: usize = 0;
    while k < pattern.len()
        invariant
            k <= pattern.len(),
            i + pattern.len() <= text.len(),
            forall|j: int| 0 <= j < k ==> text@[i + j] == pattern@[j],
        decreases pattern.len() - k,
    {
        if text[i + k] != pattern[k] {
            assert(text@.subrange(i as int, i + pattern@.len())[k as int] != pattern@[k as int]);
            return false;
        }
        k += 1;
    }
    assert(text@.subrange(i as int, i + pattern@.len()) =~= pattern@);
    true
}

/// An index as an unbounded number.
pub open spec fn index_of(i: Option<usize>) -> Option<int> {
    match i {
        Some(n) => Some(n as int),
        None => None,
    }
}

/// Searches forward.
pub fn find_from(text: &[char], pattern: &[char], from: usize) -> (found: Option<usize>)
    ensures
        index_of(found) == find(text@, pattern@, from as int),
{
    let mut i: usize = from;
    while i <= text.len() && pattern.len() <= text.len() - i
        invariant
            find(text@, pattern@, from as int) == find(text@, pattern@, i as int),
        decreases text.len() - i,
    {
        if stands_at(text, pattern, i) {
            return Some(i);
        }
        if i == text.len() {
            assert(find(text@, pattern@, i + 1) is None);
            return None;
        }
        i += 1;
    }
    None
}

/// Searches backward.
pub fn rfind_from(text: &[char], pattern: &[char]) -> (found: Option<usize>)
    ensures
        index_of(found) == rfind(text@, pattern@, text@.len() as int),
{
    let mut i: usize = text.len();
    loop
        invariant
            i <= text.len(),
            rfind(text@, pattern@, text@.len() as int) == rfind(text@, pattern@, i as int),
        decreases i,
    {
        if stands_at(text, pattern, i) {
            return Some(i);
        }
        if i == 0 {
            assert(rfind(text@, pattern@, -1) is None);
            return None;
        }
        i -= 1;
    }
}

/// Whether `pattern` stands somewhere in `text`.
pub fn text_contains(text: &str, pattern: &str) -> (found: bool)
    ensures
        found == contains(text@, pattern@),
{
    let chars: Vec<char> = chars_of(text);
    let sought: Vec<char> = chars_of(pattern);
    find_from(chars.as_slice(), sought.as_slice(), 0).is_some()
}

/// Whether `text` begins with `pattern`.
pub fn text_starts_with(text: &str, pattern: &str) -> (found: bool)
    ensures
        found == starts_with(text@, pattern@),
{
    let chars: Vec<char> = chars_of(text);
    let sought: Vec<char> = chars_of(pattern);
    stands_at(chars.as_slice(), sought.as_slice(), 0)
}

/// Whether `text` ends with `pattern`.
pub fn text_ends_with(text: &str, pattern: &str) -> (found: bool)
    ensures
        found == ends_with(text@, pattern@),
{
    let chars: Vec<char> = chars_of(text);
    let sought: Vec<char> = chars_of(pattern);
    chars.len() >= sought.len() && stands_at(
        chars.as_slice(),
        sought.as_slice(),
        chars.len() - sought.len(),
    )
}

/// Every place of `pattern` from the left, none overlapping another, filled with `filling`.
pub open spec fn replaced(text: Seq<char>, pattern: Seq<char>, filling: Seq<char>) -> Seq<char>
    decreases text.len(),
{
    match find(text, pattern, 0) {
        Some(i) if pattern.len() > 0 && 0 <= i && i + pattern.len() <= text.len() => text.take(i)
            + filling + replaced(text.skip(i + pattern.len()), pattern, filling),
        _ => text,
    }
}

/// Searching a rest is searching the whole from there on.
proof fn find_in_rest(text: Seq<char>, pattern: Seq<char>, start: int, from: int)
    requires
        0 <= start <= text.len(),
        0 <= from,
    ensures
        find(text.skip(start), pattern, from) == match find(text, pattern, start + from) {
            Some(i) => Some(i - start),
            None => None,
        },
    decreases text.len() - start - from + 1,
{
    let rest = text.skip(start);
    if start + from + pattern.len() <= text.len() {
        assert(rest.subrange(from, from + pattern.len()) =~= text.subrange(
            start + from,
            start + from + pattern.len(),
        ));
        if !occurs_at(rest, pattern, from) {
            find_in_rest(text, pattern, start, from + 1);
        }
    }
}

/// Fills every place of `pattern`.
pub fn text_replaced(text: &str, pattern: &str, filling: &str) -> (changed: String)
    requires
        pattern@.len() > 0,
    ensures
        changed@ == replaced(text@, pattern@, filling@),
{
    let chars: Vec<char> = chars_of(text);
    let sought: Vec<char> = chars_of(pattern);
    let mut changed = String::new();
    let mut start: usize = 0;
    assert(chars@.skip(0) =~= chars@);
    loop
        invariant
            start <= chars.len(),
            chars@ == text@,
            sought@ == pattern@,
            sought@.len() > 0,
            changed@ + replaced(chars@.skip(start as int), pattern@, filling@) == replaced(
                chars@,
                pattern@,
                filling@,
            ),
        decreases chars.len() - start,
    {
        let ghost before = changed@;
        let ghost rest = chars@.skip(start as int);
        proof {
            find_in_rest(chars@, pattern@, start as int, 0);
            find_is_first(chars@, pattern@, start as int);
        }
        let found: Option<usize> = find_from(chars.as_slice(), sought.as_slice(), start);
        match found {
            None => {
                let tail = string_of(slice_subrange(chars.as_slice(), start, chars.len()));
                assert(tail@ =~= rest);
                changed.append(tail.as_str());
                return changed;
            },
            Some(i) => {
                let kept = string_of(slice_subrange(chars.as_slice(), start, i));
                changed.append(kept.as_str());
                changed.append(filling);
                assert(kept@ =~= rest.take(i - start));
                assert(rest.skip(i - start + pattern@.len()) =~= chars@.skip(i + pattern@.len()));
                start = i + sought.len();
                assert(changed@ + replaced(chars@.skip(start as int), pattern@, filling@)
                    =~= before + replaced(rest, pattern@, filling@));
            },
        }
    }
}

/// `text` up to the first `mark`.
pub open spec fn up_to(text: Seq<char>, mark: char) -> Seq<char>
    decreases text.len(),
{
    if text.len() == 0 || text[0] == mark {
        Seq::empty()
    } else {
        seq![text[0]] + up_to(text.skip(1), mark)
    }
}

/// The text up to the first `mark`.
pub fn cut_at(text: &str, mark: char) -> (front: String)
    ensures
        front@ == up_to(text@, mark),
{
    let chars: Vec<char> = chars_of(text);
    let mut i: usize = 0;
    assert(chars@.take(0) + up_to(chars@.skip(0), mark) =~= up_to(chars@, mark)) by {
        assert(chars@.skip(0) =~= chars@);
    }
    while i < chars.len() && chars[i] != mark
        invariant
            i <= chars.len(),
            chars@ == text@,
            chars@.take(i as int) + up_to(chars@.skip(i as int), mark) == up_to(text@, mark),
        decreases chars.len() - i,
    {
        let ghost rest = chars@.skip(i as int);
        assert(rest.skip(1) =~= chars@.skip(i + 1));
        assert(chars@.take(i as int) + (seq![rest[0]] + up_to(rest.skip(1), mark)) =~= chars@.take(
            i + 1,
        ) + up_to(chars@.skip(i + 1), mark));
        i += 1;
    }
    let front: String = string_of(slice_subrange(chars.as_slice(), 0, i));
    assert(front@ + up_to(chars@.skip(i as int), mark) =~= up_to(text@, mark));
    assert(up_to(chars@.skip(i as int), mark) =~= Seq::<char>::empty());
    assert(front@ =~= up_to(text@, mark));
    front
}

// ---------------------------------------------------------------------------
// Letters and blanks
// ---------------------------------------------------------------------------

/// An ASCII capital as a small letter; any other character as it is.
pub open spec fn lower_char(c: char) -> char {
    if 'A' <= c <= 'Z' {
        (c as u8 + 32) as char
    } else {
        c
    }
}

/// `text` with its ASCII capitals as small letters.
pub open spec fn lower(text: Seq<char>) -> Seq<char> {
    text.map_values(|c: char| lower_char(c))
}

fn lowered_char(c: char) -> (small: char)
    ensures
        small == lower_char(c),
{
    if 'A' <= c && c <= 'Z' {
        let code: u8 = c as u8 + 32;
        code as char
    } else {
        c
    }
}

/// The characters of `text` with the ASCII capitals as small letters.
pub fn lowered(text: &[char]) -> (small: Vec<char>)
    ensures
        small@ == lower(text@),
{
    let mut small: Vec<char> = Vec::new();
    let mut i: usize = 0;
    while i < text.len()
        invariant
            i <= text.len(),
            small@ == lower(text@.take(i as int)),
        decreases text.len() - i,
    {
        small.push(lowered_char(text[i]));
        i += 1;
        assert(small@ =~= lower(text@.take(i as int)));
    }
    assert(text@.take(text@.len() as int) =~= text@);
    small
}

/// The characters are the same.
pub fn same_chars(a: &[char], b: &[char]) -> (same: bool)
    ensures
        same == (a@ == b@),
{
    let same: bool = a.len() == b.len() && stands_at(a, b, 0);
    assert(a@.len() == b@.len() ==> a@.subrange(0, b@.len() as int) =~= a@);
    same
}

/// Whether two texts are the same.
pub fn same_text(a: &str, b: &str) -> (same: bool)
    ensures
        same == (a@ == b@),
{
    same_chars(chars_of(a).as_slice(), chars_of(b).as_slice())
}

/// Whether two texts are the same but for ASCII capitals.
pub fn same_ignoring_case(a: &str, b: &str) -> (same: bool)
    ensures
        same == (lower(a@) == lower(b@)),
{
    let left: Vec<char> = lowered(chars_of(a).as_slice());
    let right: Vec<char> = lowered(chars_of(b).as_slice());
    same_chars(left.as_slice(), right.as_slice())
}

/// The white space of Unicode.
pub open spec fn is_blank(c: char) -> bool {
    ||| '\u{9}' <= c <= '\u{d}'
    ||| c == ' '
    ||| c == '\u{85}'
    ||| c == '\u{a0}'
    ||| c == '\u{1680}'
    ||| '\u{2000}' <= c <= '\u{200a}'
    ||| c == '\u{2028}'
    ||| c == '\u{2029}'
    ||| c == '\u{202f}'
    ||| c == '\u{205f}'
    ||| c == '\u{3000}'
}

fn blank(c: char) -> (is: bool)
    ensures
        is == is_blank(c),
{
    ('\u{9}' <= c && c <= '\u{d}') || c == ' ' || c == '\u{85}' || c == '\u{a0}' || c == '\u{1680}'
        || ('\u{2000}' <= c && c <= '\u{200a}') || c == '\u{2028}' || c == '\u{2029}' || c
        == '\u{202f}' || c == '\u{205f}' || c == '\u{3000}'
}

/// `text` without the blanks at its front.
pub open spec fn trimmed_front(text: Seq<char>) -> Seq<char>
    decreases text.len(),
{
    if text.len() > 0 && is_blank(text[0]) {
        trimmed_front(text.skip(1))
    } else {
        text
    }
}

/// `text` without the blanks at its back.
pub open spec fn trimmed_back(text: Seq<char>) -> Seq<char>
    decreases text.len(),
{
    if text.len() > 0 && is_blank(text.last()) {
        trimmed_back(text.drop_last())
    } else {
        text
    }
}

/// `text` without the blanks around it.
pub open spec fn trimmed(text: Seq<char>) -> Seq<char> {
    trimmed_back(trimmed_front(text))
}

/// Takes the blanks around a text away.
pub fn trim(text: &str) -> (inner: String)
    ensures
        inner@ == trimmed(text@),
{
    let chars: Vec<char> = chars_of(text);
    let mut start: usize = 0;
    assert(chars@.skip(0) =~= chars@);
    while start < chars.len() && blank(chars[start])
        invariant
            start <= chars.len(),
            trimmed_front(chars@.skip(start as int)) == trimmed_front(chars@),
        decreases chars.len() - start,
    {
        assert(chars@.skip(start as int).skip(1) =~= chars@.skip(start + 1));
        start += 1;
    }
    let ghost rest = chars@.skip(start as int);
    assert(trimmed_front(rest) == rest);
    let mut end: usize = chars.len();
    assert(chars@.subrange(start as int, end as int) =~= rest);
    while end > start && blank(chars[end - 1])
        invariant
            start <= end <= chars.len(),
            trimmed_back(chars@.subrange(start as int, end as int)) == trimmed_back(rest),
        decreases end,
    {
        assert(chars@.subrange(start as int, end as int).drop_last() =~= chars@.subrange(
            start as int,
            end - 1,
        ));
        end -= 1;
    }
    let ghost last = chars@.subrange(start as int, end as int);
    assert(trimmed_back(last) == last);
    string_of(slice_subrange(chars.as_slice(), start, end))
}

// ---------------------------------------------------------------------------
// Reading numbers
// ---------------------------------------------------------------------------

/// The value of a digit, in bases up to sixteen.
pub open spec fn digit_value(c: char) -> Option<int> {
    if '0' <= c <= '9' {
        Some(c as int - '0' as int)
    } else if 'a' <= c <= 'f' {
        Some(c as int - 'a' as int + 10)
    } else if 'A' <= c <= 'F' {
        Some(c as int - 'A' as int + 10)
    } else {
        None
    }
}

/// The number that `digits` write in `base`.
pub open spec fn number_of(digits: Seq<char>, base: int) -> Option<int>
    decreases digits.len(),
{
    if digits.len() == 0 {
        Some(0)
    } else {
        match (number_of(digits.drop_last(), base), digit_value(digits.last())) {
            (Some(high), Some(low)) if low < base => Some(high * base + low),
            _ => None,
        }
    }
}

/// The number that `text` writes in `base`: digits, behind at most one plus, and in the range of
/// 64 bits.
pub open spec fn parsed(text: Seq<char>, base: int) -> Option<int> {
    let digits = if text.len() > 0 && text[0] == '+' {
        text.skip(1)
    } else {
        text
    };
    if digits.len() == 0 {
        None
    } else {
        match number_of(digits, base) {
            Some(n) if n <= u64::MAX => Some(n),
            _ => None,
        }
    }
}

fn value_of_digit(c: char) -> (value: Option<u64>)
    ensures
        digit_value(c) == match value {
            Some(n) => Some(n as int),
            None => None,
        },
        value matches Some(n) ==> n < 16,
{
    if '0' <= c && c <= '9' {
        Some((c as u8 - '0' as u8) as u64)
    } else if 'a' <= c && c <= 'f' {
        Some((c as u8 - 'a' as u8) as u64 + 10)
    } else if 'A' <= c && c <= 'F' {
        Some((c as u8 - 'A' as u8) as u64 + 10)
    } else {
        None
    }
}

/// Once a number is too large, or is none, more digits do not mend it.
proof fn number_only_grows(digits: Seq<char>, n: int, base: int)
    requires
        2 <= base <= 16,
        0 <= n <= digits.len(),
    ensures
        number_of(digits, base) is Some ==> number_of(digits.take(n), base) is Some,
        number_of(digits, base) is Some ==> 0 <= number_of(digits.take(n), base)->0 <= number_of(
            digits,
            base,
        )->0,
    decreases digits.len() - n,
{
    if n == digits.len() {
        assert(digits.take(n) =~= digits);
        number_is_natural(digits, base);
    } else {
        number_only_grows(digits, n + 1, base);
        assert(digits.take(n + 1).drop_last() =~= digits.take(n));
        number_is_natural(digits.take(n), base);
        if number_of(digits, base) is Some {
            let high = number_of(digits.take(n), base)->0;
            assert(high * base >= high) by (nonlinear_arith)
                requires
                    high >= 0,
                    base >= 2,
            ;
        }
    }
}

proof fn number_is_natural(digits: Seq<char>, base: int)
    requires
        2 <= base <= 16,
    ensures
        number_of(digits, base) matches Some(n) ==> n >= 0,
    decreases digits.len(),
{
    if digits.len() > 0 {
        number_is_natural(digits.drop_last(), base);
        if let Some(high) = number_of(digits.drop_last(), base) {
            assert(high * base >= 0) by (nonlinear_arith)
                requires
                    high >= 0,
                    base >= 2,
            ;
        }
    }
}

/// Reads a number of 64 bits.
pub fn parse_number(text: &[char], base: u64) -> (number: Option<u64>)
    requires
        2 <= base <= 16,
    ensures
        parsed(text@, base as int) == match number {
            Some(n) => Some(n as int),
            None => None,
        },
{
    let start: usize = if text.len() > 0 && text[0] == '+' {
        1
    } else {
        0
    };
    let digits: &[char] = slice_subrange(text, start, text.len());
    assert(start == 1 ==> digits@ =~= text@.skip(1));
    assert(start == 0 ==> digits@ =~= text@);
    if digits.len() == 0 {
        return None;
    }
    let mut n: u64 = 0;
    let mut i: usize = 0;
    while i < digits.len()
        invariant
            i <= digits.len(),
            2 <= base <= 16,
            number_of(digits@.take(i as int), base as int) == Some(n as int),
            digits@.len() > 0,
            parsed(text@, base as int) == match number_of(digits@, base as int) {
                Some(n) if n <= u64::MAX => Some(n),
                _ => None,
            },
        decreases digits.len() - i,
    {
        proof {
            number_only_grows(digits@, i + 1, base as int);
            assert(digits@.take(i + 1).drop_last() =~= digits@.take(i as int));
        }
        match value_of_digit(digits[i]) {
            Some(low) if low < base => {
                assert(0 <= n * base <= u64::MAX * 16) by (nonlinear_arith)
                    requires
                        0 <= n <= u64::MAX,
                        0 <= base <= 16,
                ;
                let wide: u128 = n as u128 * base as u128;
                if wide + low as u128 > u64::MAX as u128 {
                    return None;
                }
                n = (wide + low as u128) as u64;
            },
            _ => return None,
        }
        i += 1;
    }
    assert(digits@.take(digits@.len() as int) =~= digits@);
    Some(n)
}

} // verus!
