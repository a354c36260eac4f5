//! What holds of numbers in text, of escapes and of signed queries.

use crate::anticode::{hex_seconds, signed_time, turned};
use crate::outside_web::{escaped, hex_digit, hex_value, is_unreserved, percent_decoded, percent_encoded};
use crate::text::{digit_char, digit_value, digits, number_of, parsed};
use vstd::prelude::*;
use vstd::utf8::{encode_utf8, is_ascii_chars};

verus! {

// ---------------------------------------------------------------------------
// Numbers
// ---------------------------------------------------------------------------

/// A digit reads as the number it was written for.
proof fn digit_reads(d: int)
    requires
        0 <= d < 16,
    ensures
        digit_value(digit_char(d)) == Some(d),
        digit_char(d) != '+',
{
}

/// Digits read as the number they were written for.
pub proof fn digits_read(n: nat, base: nat)
    requires
        2 <= base <= 16,
    ensures
        number_of(digits(n, base), base as int) == Some(n as int),
        digits(n, base).len() > 0,
        digits(n, base)[0] != '+',
    decreases n,
{
    if n < base {
        digit_reads(n as int);
        let text = digits(n, base);
        assert(text.drop_last() =~= Seq::<char>::empty());
        assert(number_of(text.drop_last(), base as int) == Some(0int));
        assert(0 * base == 0) by (nonlinear_arith);
    } else {
        vstd::arithmetic::div_mod::lemma_div_decreases(n as int, base as int);
        vstd::arithmetic::div_mod::lemma_fundamental_div_mod(n as int, base as int);
        let front = digits(n / base, base);
        digits_read(n / base, base);
        vstd::arithmetic::div_mod::lemma_mod_bound(n as int, base as int);
        digit_reads((n % base) as int);
        let text = digits(n, base);
        assert(text.drop_last() =~= front);
        assert(text.last() == digit_char((n % base) as int));
        assert((n / base) * base + n % base == n) by (nonlinear_arith)
            requires
                n == base * (n / base) + n % base,
        ;
        assert(text[0] == front[0]);
    }
}

/// A number that is written in a base reads as itself.
pub proof fn written_numbers_read(n: u64, base: nat)
    requires
        2 <= base <= 16,
    ensures
        parsed(digits(n as nat, base), base as int) == Some(n as int),
{
    digits_read(n as nat, base);
}

/// The time that is signed never runs out within twenty minutes.
pub proof fn signed_time_lasts(said: Seq<char>, now_secs: u64)
    ensures
        signed_time(said, now_secs as int) matches Some(time) ==> (hex_seconds(time) matches Some(
            until,
        ) && until >= now_secs + 20 * 60),
{
    if now_secs + 24 * 60 * 60 <= u64::MAX {
        written_numbers_read((now_secs + 24 * 60 * 60) as u64, 16);
    }
}

/// A time that lasts is signed as it is.
pub proof fn lasting_time_is_kept(said: Seq<char>, now_secs: u64)
    requires
        hex_seconds(said) matches Some(until) && until >= now_secs + 20 * 60,
        now_secs + 20 * 60 <= u64::MAX,
    ensures
        signed_time(said, now_secs as int) == Some(said),
{
}

// ---------------------------------------------------------------------------
// Users
// ---------------------------------------------------------------------------

/// Turning keeps the number within 64 bits, and keeps its high half.
pub proof fn turning_keeps_the_high_half(value: u64)
    ensures
        0 <= turned(value) <= u64::MAX,
        turned(value) / 0x1_0000_0000 == value / 0x1_0000_0000,
{
}

/// A number by its high half and the four bytes of its low half.
spec fn of_bytes(high: int, a: int, b: int, c: int, d: int) -> int {
    high * 0x1_0000_0000 + a * 0x100_0000 + b * 0x1_0000 + c * 0x100 + d
}

/// A turn moves every byte one place up, and the topmost to the bottom.
proof fn turn_moves_bytes(value: u64, high: int, a: int, b: int, c: int, d: int)
    requires
        0 <= high < 0x1_0000_0000,
        0 <= a < 0x100,
        0 <= b < 0x100,
        0 <= c < 0x100,
        0 <= d < 0x100,
        value == of_bytes(high, a, b, c, d),
    ensures
        turned(value) == of_bytes(high, b, c, d, a),
        turned(value) <= u64::MAX,
{
    let low = value as int % 0x1_0000_0000;
    let rest = b * 0x1_0000 + c * 0x100 + d;
    assert(low == a * 0x100_0000 + rest);
    assert(low / 0x100_0000 == a);
    assert((low * 0x100) % 0x1_0000_0000 == rest * 0x100) by {
        assert(low * 0x100 == a * 0x1_0000_0000 + rest * 0x100);
    }
}

/// Four turns by eight bits bring 32 bits back.
pub proof fn four_turns_bring_back(value: u64)
    ensures
        turned(turned(turned(turned(value) as u64) as u64) as u64) == value,
{
    let high = value as int / 0x1_0000_0000;
    let low = value as int % 0x1_0000_0000;
    let a = low / 0x100_0000;
    let b = low / 0x1_0000 % 0x100;
    let c = low / 0x100 % 0x100;
    let d = low % 0x100;
    assert(value == of_bytes(high, a, b, c, d));
    turn_moves_bytes(value, high, a, b, c, d);
    let one = turned(value) as u64;
    turn_moves_bytes(one, high, b, c, d, a);
    let two = turned(one) as u64;
    turn_moves_bytes(two, high, c, d, a, b);
    let three = turned(two) as u64;
    turn_moves_bytes(three, high, d, a, b, c);
}

// ---------------------------------------------------------------------------
// Escapes
// ---------------------------------------------------------------------------

/// The bytes of ASCII characters are the characters.
proof fn ascii_bytes(text: Seq<char>)
    requires
        is_ascii_chars(text),
    ensures
        encode_utf8(text) == Seq::new(text.len(), |i: int| text[i] as u8),
{
    vstd::utf8::is_ascii_chars_encode_utf8(text);
    assert(encode_utf8(text) =~= Seq::new(text.len(), |i: int| text[i] as u8));
}

proof fn encoded_is_ascii(bytes: Seq<u8>)
    ensures
        is_ascii_chars(percent_encoded(bytes)),
    decreases bytes.len(),
{
    if bytes.len() > 0 {
        encoded_is_ascii(bytes.skip(1));
        let front = escaped(bytes[0]);
        let rest = percent_encoded(bytes.skip(1));
        assert(is_ascii_chars(front));
        assert forall|i: int| 0 <= i < (front + rest).len() implies '\0' <= #[trigger] (front
            + rest)[i] <= '\u{7f}' by {
            if i >= front.len() {
                assert((front + rest)[i] == rest[i - front.len()]);
            }
        }
    }
}

proof fn hex_digits_read(byte: u8)
    ensures
        hex_value(hex_digit(byte as int / 16) as u8) == Some(byte as int / 16),
        hex_value(hex_digit(byte as int % 16) as u8) == Some(byte as int % 16),
        (byte as int / 16) * 16 + byte as int % 16 == byte,
{
}

/// What has been escaped reads as itself.
proof fn escapes_read(bytes: Seq<u8>)
    ensures
        percent_decoded(
            Seq::new(percent_encoded(bytes).len(), |i: int| percent_encoded(bytes)[i] as u8),
        ) == bytes,
    decreases bytes.len(),
{
    let text = percent_encoded(bytes);
    let raw = Seq::new(text.len(), |i: int| text[i] as u8);
    if bytes.len() == 0 {
        assert(raw =~= Seq::<u8>::empty());
        assert(percent_decoded(raw) =~= bytes);
    } else {
        let rest = percent_encoded(bytes.skip(1));
        let raw_rest = Seq::new(rest.len(), |i: int| rest[i] as u8);
        escapes_read(bytes.skip(1));
        let front = escaped(bytes[0]);
        assert(text == front + rest);
        if is_unreserved(bytes[0]) {
            assert(raw[0] == bytes[0]);
            assert(raw[0] != '%' as u8);
            assert(raw.skip(1) =~= raw_rest) by {
                assert forall|i: int| 0 <= i < raw_rest.len() implies raw.skip(1)[i]
                    == raw_rest[i] by {
                    assert(text[i + 1] == rest[i]);
                }
            }
        } else {
            hex_digits_read(bytes[0]);
            assert(raw[0] == '%' as u8);
            assert(text[1] == hex_digit(bytes[0] as int / 16));
            assert(text[2] == hex_digit(bytes[0] as int % 16));
            assert(raw.skip(3) =~= raw_rest) by {
                assert forall|i: int| 0 <= i < raw_rest.len() implies raw.skip(3)[i]
                    == raw_rest[i] by {
                    assert(text[i + 3] == rest[i]);
                }
            }
        }
        assert(seq![bytes[0]] + bytes.skip(1) =~= bytes);
        assert(percent_decoded(raw) =~= bytes);
    }
}

/// Text that is escaped and then unescaped is the text.
pub proof fn escaped_text_reads(text: Seq<char>)
    ensures
        percent_decoded(encode_utf8(percent_encoded(encode_utf8(text)))) == encode_utf8(text),
{
    let bytes = encode_utf8(text);
    encoded_is_ascii(bytes);
    ascii_bytes(percent_encoded(bytes));
    escapes_read(bytes);
}

} // verus!
