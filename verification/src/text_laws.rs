//! What holds of text: what is found, replaced, trimmed and cut, and how numbers are written.

use crate::text::{contains, decimal, digit_value, digits, ends_with, find, find_is_first, hexadecimal, is_blank, lower, number_of, occurs_at, parsed, replaced, rfind, signed_decimal, starts_with, text_before, trimmed, trimmed_back, trimmed_front, up_to};
use vstd::prelude::*;

verus! {

// ---------------------------------------------------------------------------
// Searching
// ---------------------------------------------------------------------------

/// A text begins with a pattern where it is the pattern and a rest, and ends with it where it is
/// a front and the pattern.
pub proof fn beginnings_and_ends(front: Seq<char>, pattern: Seq<char>, rest: Seq<char>)
    ensures
        starts_with(pattern + rest, pattern),
        ends_with(front + pattern, pattern),
        starts_with(front, pattern) ==> pattern.len() <= front.len() && front == pattern
            + front.skip(pattern.len() as int),
        ends_with(front, pattern) ==> pattern.len() <= front.len() && front == front.take(
            front.len() - pattern.len(),
        ) + pattern,
{
    let whole = pattern + rest;
    assert(whole.subrange(0, pattern.len() as int) =~= pattern);
    let other = front + pattern;
    assert(other.subrange(front.len() as int, other.len() as int) =~= pattern);
    if starts_with(front, pattern) {
        assert(front =~= front.subrange(0, pattern.len() as int) + front.skip(
            pattern.len() as int,
        ));
    }
    if ends_with(front, pattern) {
        let n = front.len() - pattern.len();
        assert(front =~= front.take(n) + front.subrange(n, n + pattern.len()));
    }
}

/// A text holds a pattern exactly where it is a front, the pattern and a rest; the place that is
/// found is the first.
pub proof fn the_first_place_is_found(text: Seq<char>, pattern: Seq<char>, i: int)
    requires
        0 <= i,
        i + pattern.len() <= text.len(),
        text.subrange(i, i + pattern.len()) == pattern,
    ensures
        contains(text, pattern),
        find(text, pattern, 0) matches Some(k) && 0 <= k <= i && text == text.take(k) + pattern
            + text.skip(k + pattern.len()),
{
    find_is_first(text, pattern, 0);
    assert(occurs_at(text, pattern, i));
    let k = find(text, pattern, 0)->0;
    assert(text =~= text.take(k) + text.subrange(k, k + pattern.len()) + text.skip(
        k + pattern.len(),
    ));
}

/// A text that holds a pattern holds it somewhere.
pub proof fn what_is_found_is_there(text: Seq<char>, pattern: Seq<char>)
    requires
        contains(text, pattern),
    ensures
        find(text, pattern, 0) matches Some(k) && 0 <= k && k + pattern.len() <= text.len()
            && text.subrange(k, k + pattern.len()) == pattern,
{
    find_is_first(text, pattern, 0);
}

/// The last place at or before another is found.
pub proof fn the_last_place_is_found(text: Seq<char>, pattern: Seq<char>, from: int)
    ensures
        match rfind(text, pattern, from) {
            Some(k) => {
                &&& 0 <= k <= from
                &&& k + pattern.len() <= text.len()
                &&& text.subrange(k, k + pattern.len()) == pattern
                &&& forall|i: int|
                    k < i <= from && i + pattern.len() <= text.len() ==> #[trigger] text.subrange(
                        i,
                        i + pattern.len(),
                    ) != pattern
            },
            None => forall|i: int|
                0 <= i <= from && i + pattern.len() <= text.len() ==> #[trigger] text.subrange(
                    i,
                    i + pattern.len(),
                ) != pattern,
        },
    decreases from + 1,
{
    if from >= 0 && !occurs_at(text, pattern, from) {
        the_last_place_is_found(text, pattern, from - 1);
    }
}

/// The first place of a pattern is filled and the rest goes on behind it; a text without the
/// pattern stays as it is.
pub proof fn places_are_filled(text: Seq<char>, pattern: Seq<char>, filling: Seq<char>)
    requires
        pattern.len() > 0,
    ensures
        !contains(text, pattern) ==> replaced(text, pattern, filling) == text,
        contains(text, pattern) ==> exists|k: int|
            #![trigger text.take(k)]
            0 <= k && k + pattern.len() <= text.len() && text == text.take(k) + pattern + text.skip(
                k + pattern.len(),
            ) && !contains(text.take(k + pattern.len() - 1), pattern) && replaced(
                text,
                pattern,
                filling,
            ) == text.take(k) + filling + replaced(text.skip(k + pattern.len()), pattern, filling),
{
    if contains(text, pattern) {
        find_is_first(text, pattern, 0);
        let k = find(text, pattern, 0)->0;
        the_first_place_is_found(text, pattern, k);
        let front = text.take(k + pattern.len() - 1);
        if contains(front, pattern) {
            find_is_first(front, pattern, 0);
            let i = find(front, pattern, 0)->0;
            assert(front.subrange(i, i + pattern.len()) =~= text.subrange(i, i + pattern.len()));
            assert(occurs_at(text, pattern, i));
        }
    }
}

/// What stands up to a mark is the front of the text, without the mark, and ends at the mark or
/// with the text.
pub proof fn up_to_stops_at_the_mark(text: Seq<char>, mark: char)
    ensures
        up_to(text, mark).len() <= text.len(),
        up_to(text, mark) == text.take(up_to(text, mark).len() as int),
        forall|i: int| 0 <= i < up_to(text, mark).len() ==> #[trigger] up_to(text, mark)[i] != mark,
        up_to(text, mark).len() < text.len() ==> text[up_to(text, mark).len() as int] == mark,
    decreases text.len(),
{
    if text.len() > 0 && text[0] != mark {
        let rest = text.skip(1);
        up_to_stops_at_the_mark(rest, mark);
        let front = up_to(rest, mark);
        let whole = up_to(text, mark);
        assert(whole == seq![text[0]] + front);
        assert(whole =~= text.take(whole.len() as int)) by {
            assert forall|i: int| 0 <= i < whole.len() implies whole[i] == text[i] by {
                if i > 0 {
                    assert(front[i - 1] == rest.take(front.len() as int)[i - 1]);
                }
            }
        }
        assert forall|i: int| 0 <= i < whole.len() implies #[trigger] whole[i] != mark by {
            if i > 0 {
                assert(front[i - 1] != mark);
            }
        }
    }
}

// ---------------------------------------------------------------------------
// Letters and blanks
// ---------------------------------------------------------------------------

/// Every ASCII capital becomes the small letter that stands thirty-two behind it; nothing else
/// changes.
pub proof fn capitals_become_small(text: Seq<char>)
    ensures
        lower(text).len() == text.len(),
        forall|i: int|
            0 <= i < text.len() ==> if 65 <= #[trigger] text[i] as int <= 90 {
                lower(text)[i] as int == text[i] as int + 32
            } else {
                lower(text)[i] == text[i]
            },
        lower(lower(text)) == lower(text),
{
    assert(lower(lower(text)) =~= lower(text));
}

proof fn trimming_the_front(text: Seq<char>)
    ensures
        trimmed_front(text).len() <= text.len(),
        trimmed_front(text) == text.skip(text.len() - trimmed_front(text).len()),
        forall|i: int|
            0 <= i < text.len() - trimmed_front(text).len() ==> is_blank(#[trigger] text[i]),
        trimmed_front(text).len() > 0 ==> !is_blank(trimmed_front(text)[0]),
    decreases text.len(),
{
    if text.len() > 0 && is_blank(text[0]) {
        let rest = text.skip(1);
        trimming_the_front(rest);
        let n = rest.len() - trimmed_front(rest).len();
        assert(rest.skip(n) =~= text.skip(n + 1));
        assert forall|i: int| 0 <= i < n + 1 implies is_blank(#[trigger] text[i]) by {
            if i > 0 {
                assert(is_blank(rest[i - 1]));
            }
        }
    } else {
        assert(text =~= text.skip(0));
    }
}

proof fn trimming_the_back(text: Seq<char>)
    ensures
        trimmed_back(text).len() <= text.len(),
        trimmed_back(text) == text.take(trimmed_back(text).len() as int),
        forall|i: int| trimmed_back(text).len() <= i < text.len() ==> is_blank(#[trigger] text[i]),
        trimmed_back(text).len() > 0 ==> !is_blank(trimmed_back(text).last()),
    decreases text.len(),
{
    if text.len() > 0 && is_blank(text.last()) {
        let front = text.drop_last();
        trimming_the_back(front);
        let n = trimmed_back(front).len() as int;
        assert(front.take(n) =~= text.take(n));
        assert forall|i: int| n <= i < text.len() implies is_blank(#[trigger] text[i]) by {
            if i < front.len() {
                assert(is_blank(front[i]));
            }
        }
    } else {
        assert(text =~= text.take(text.len() as int));
    }
}

/// Only blanks are taken away around a text, and all of them. Returns how many stand before it.
pub proof fn only_blanks_are_trimmed(text: Seq<char>) -> (start: int)
    ensures
        ({
            let inner = trimmed(text);
            let end = start + inner.len();
            &&& 0 <= start <= end <= text.len()
            &&& inner == text.subrange(start, end)
            &&& forall|i: int| 0 <= i < start ==> is_blank(#[trigger] text[i])
            &&& forall|i: int| end <= i < text.len() ==> is_blank(#[trigger] text[i])
            &&& inner.len() > 0 ==> !is_blank(inner[0]) && !is_blank(inner.last())
        }),
{
    trimming_the_front(text);
    let rest = trimmed_front(text);
    trimming_the_back(rest);
    let start = text.len() - rest.len();
    let inner = trimmed(text);
    assert(inner =~= text.subrange(start, start + inner.len()));
    assert forall|i: int| start + inner.len() <= i < text.len() implies is_blank(
        #[trigger] text[i],
    ) by {
        assert(rest[i - start] == text[i]);
    }
    start
}

/// Spaces, tabs and line ends are blanks; letters, digits and signs are not.
pub proof fn ascii_blanks(c: char)
    requires
        (c as int) < 128,
    ensures
        is_blank(c) == (c == ' ' || c == '\t' || c == '\n' || c == '\r' || c as int == 11
            || c as int == 12),
{
}

/// The blanks beyond ASCII are the spaces and separators of Unicode.
pub proof fn wide_blanks(c: char)
    requires
        c as int >= 128,
    ensures
        is_blank(c) == (c as int == 0x85 || c as int == 0xa0 || c as int == 0x1680 || 0x2000
            <= c as int <= 0x200a || c as int == 0x2028 || c as int == 0x2029 || c as int == 0x202f
            || c as int == 0x205f || c as int == 0x3000),
{
}

/// A text stands before another where it is a front of it, or is smaller at the first place where
/// they differ.
pub proof fn texts_are_ordered_as_in_a_dictionary(a: Seq<char>, b: Seq<char>, k: int)
    requires
        0 <= k <= a.len(),
        k <= b.len(),
        a.take(k) == b.take(k),
        k < a.len() && k < b.len() ==> a[k] != b[k],
    ensures
        k == a.len() ==> text_before(a, b) == (k < b.len()),
        k == b.len() ==> !text_before(a, b),
        k < a.len() && k < b.len() ==> text_before(a, b) == (a[k] < b[k]),
    decreases k,
{
    if k > 0 {
        assert(a.take(k)[0] == a[0]);
        assert(b.take(k)[0] == b[0]);
        let c = a.skip(1);
        let d = b.skip(1);
        assert forall|i: int| 0 <= i < k - 1 implies c[i] == d[i] by {
            assert(a.take(k)[i + 1] == a[i + 1]);
            assert(b.take(k)[i + 1] == b[i + 1]);
        }
        assert(c.take(k - 1) =~= d.take(k - 1));
        texts_are_ordered_as_in_a_dictionary(c, d, k - 1);
    }
}

// ---------------------------------------------------------------------------
// Numbers
// ---------------------------------------------------------------------------

/// A number in decimal ends with its last digit, behind the number without it; one of one digit
/// is the digit.
pub proof fn decimals_are_digits(n: nat)
    ensures
        decimal(n).len() > 0,
        decimal(n).last() as int == 48 + n % 10,
        n < 10 ==> decimal(n).len() == 1,
        n >= 10 ==> decimal(n).drop_last() == decimal(n / 10),
        n > 0 ==> decimal(n)[0] != '0',
    decreases n,
{
    if n >= 10 {
        decimals_are_digits(n / 10);
        assert(decimal(n).drop_last() =~= decimal(n / 10));
        assert(decimal(n)[0] == decimal(n / 10)[0]);
    }
}

/// A number in hexadecimal ends with its last digit, a small letter from ten on, behind the
/// number without it.
pub proof fn hexadecimals_are_digits(n: nat)
    ensures
        hexadecimal(n).len() > 0,
        n % 16 < 10 ==> hexadecimal(n).last() as int == 48 + n % 16,
        n % 16 >= 10 ==> hexadecimal(n).last() as int == 97 + n % 16 - 10,
        n < 16 ==> hexadecimal(n).len() == 1,
        n >= 16 ==> hexadecimal(n).drop_last() == hexadecimal(n / 16),
{
    if n >= 16 {
        assert(hexadecimal(n).drop_last() =~= hexadecimal(n / 16));
    }
}

/// Two numbers are written alike only where they are one.
pub proof fn decimals_differ(n: nat, m: nat)
    requires
        decimal(n) == decimal(m),
    ensures
        n == m,
{
    crate::web_laws::digits_read(n, 10);
    crate::web_laws::digits_read(m, 10);
}

/// A negative number is its distance from zero behind a minus.
pub proof fn signs_are_written(n: int)
    ensures
        n >= 0 ==> signed_decimal(n) == decimal(n as nat),
        n < 0 ==> signed_decimal(n) == seq!['-'] + decimal((-n) as nat),
{
    reveal_strlit("-");
    assert("-"@ =~= seq!['-']);
}

/// A text of digits is read digit by digit, from the highest on; a plus before it changes
/// nothing; no digits, another character or more than 64 bits are no number.
pub proof fn digits_are_read_in_turn(text: Seq<char>, c: char, base: int)
    requires
        2 <= base <= 16,
    ensures
        number_of(text.push(c), base) == match (number_of(text, base), digit_value(c)) {
            (Some(high), Some(low)) => if low < base {
                Some(high * base + low)
            } else {
                None
            },
            _ => None,
        },
        '0' <= c <= '9' ==> digit_value(c) == Some(c as int - 48),
        'a' <= c <= 'f' ==> digit_value(c) == Some(c as int - 87),
        'A' <= c <= 'F' ==> digit_value(c) == Some(c as int - 55),
        !('0' <= c <= '9' || 'a' <= c <= 'f' || 'A' <= c <= 'F') ==> digit_value(c) is None,
        parsed(Seq::empty(), base) is None,
        parsed(seq!['+'], base) is None,
        parsed(text, base) matches Some(n) ==> n <= u64::MAX,
        text.len() > 0 && text[0] != '+' ==> parsed(seq!['+'] + text, base) == parsed(text, base),
        text.len() > 0 && text[0] != '+' && (number_of(text, base) matches Some(n) && n <= u64::MAX)
            ==> parsed(text, base) == number_of(text, base),
        text.len() > 0 && text[0] != '+' && number_of(text, base) is None ==> parsed(text, base) is None,
{
    assert(text.push(c).drop_last() =~= text);
    assert((seq!['+'] + text).skip(1) =~= text);
}

} // verus!
