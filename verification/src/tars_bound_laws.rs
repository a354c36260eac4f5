//! What is read of TARS data lies within them, and is of the kind that was asked for.

use crate::tars::TarsType;
use crate::tars_input::{byte_map_at, bytes_body, bytes_field_at, count_of, entries_at, entry_at, head_at, int32_at, int64_field_at, int_body, skipped, sought, string_body, string_field_at, struct_at};
use crate::wire_laws::value;
use vstd::prelude::*;

verus! {

/// A text is as long as the length before it says, one byte or four, and missing where the data
/// end before it. Nothing but a text is read as one.
pub proof fn texts_lie_within_the_data(data: Seq<u8>, pos: int, t: TarsType)
    requires
        0 <= pos,
    ensures
        match string_body(data, pos, t) {
            (Some(raw), end) => {
                let n = if t == TarsType::String1 {
                    1int
                } else {
                    4int
                };
                &&& t == TarsType::String1 || t == TarsType::String4
                &&& end == pos + n + raw.len()
                &&& end <= data.len()
                &&& raw == data.subrange(pos + n, end)
                &&& value(data.subrange(pos, pos + n)) == raw.len()
            },
            (None, _) => {
                &&& t == TarsType::String1 ==> pos >= data.len() || pos + 1 + data[pos]
                    > data.len()
                &&& t == TarsType::String4 ==> pos + 4 > data.len() || pos + 4 + value(
                    data.subrange(pos, pos + 4),
                ) > data.len()
            },
        },
{
    if pos < data.len() {
        let one = data.subrange(pos, pos + 1);
        assert(one.drop_last().len() == 0);
        assert(value(one.drop_last()) == 0);
        assert(value(one) == data[pos]);
    }
    if pos + 4 <= data.len() {
        let four = data.subrange(pos, pos + 4);
        let three = four.drop_last();
        let two = three.drop_last();
        let one = two.drop_last();
        assert(one.drop_last().len() == 0);
        assert(value(one.drop_last()) == 0);
        assert(value(one) == data[pos]);
        assert(value(two) == data[pos] * 256 + data[pos + 1]);
        assert(value(three) == (data[pos] * 256 + data[pos + 1]) * 256 + data[pos + 2]);
    }
}

/// Raw bytes are as many as the length before them says, which is no negative number, and missing
/// where the data end before it.
pub proof fn bytes_lie_within_the_data(data: Seq<u8>, pos: int, n: int, q: int)
    requires
        head_at(data, pos).0 is Some,
        int32_at(data, head_at(data, pos).1) == (Some(n), q),
    ensures
        n < 0 || q + n > data.len() ==> bytes_body(data, pos).0 is None,
        n >= 0 && q + n <= data.len() ==> bytes_body(data, pos) == (
            Some(data.subrange(q, q + n)),
            q + n,
        ),
{
}

/// A number of 64 bits is not read as one of 32, and nothing but an integer is read as one.
pub proof fn numbers_are_not_cut(data: Seq<u8>, pos: int, tag: u8, t: TarsType, p: int)
    requires
        head_at(data, pos) == (Some((tag, t)), p),
    ensures
        t == TarsType::Int64 ==> int32_at(data, pos).0 is None,
        t != TarsType::Int64 ==> int32_at(data, pos) == int_body(data, p, t),
        t == TarsType::String1 || t == TarsType::String4 || t == TarsType::Mapping || t
            == TarsType::List || t == TarsType::StructBegin || t == TarsType::StructEnd || t
            == TarsType::Bytes ==> int_body(data, p, t).0 is None,
{
}

/// A field is read only as what its head says: bytes as bytes, a map as a map, a structure as a
/// structure.
pub proof fn fields_are_of_their_kind(data: Seq<u8>, pos: int, target: u8, p: int, tag: u8, t: TarsType, q: int)
    requires
        sought(data, pos, target) == (true, p),
        head_at(data, p) == (Some((tag, t)), q),
    ensures
        t != TarsType::Bytes ==> bytes_field_at(data, pos, target).0 is None,
        t != TarsType::Mapping ==> byte_map_at(data, pos, target).0 is None,
        struct_at(data, pos, target).0 == (t == TarsType::StructBegin),
        t != TarsType::String1 && t != TarsType::String4 ==> string_field_at(
            data,
            pos,
            target,
        ).0 is None,
{
}

/// A field that is not found is not read.
pub proof fn missing_fields_are_not_read(data: Seq<u8>, pos: int, target: u8)
    requires
        !sought(data, pos, target).0,
    ensures
        bytes_field_at(data, pos, target).0 is None,
        byte_map_at(data, pos, target).0 is None,
        string_field_at(data, pos, target).0 is None,
        int64_field_at(data, pos, target).0 is None,
        !struct_at(data, pos, target).0,
{
}

proof fn heads_move_on(data: Seq<u8>, pos: int)
    requires
        0 <= pos,
    ensures
        head_at(data, pos).0 is Some ==> pos < head_at(data, pos).1 <= data.len(),
        pos <= head_at(data, pos).1,
{
}

proof fn entries_move_on(data: Seq<u8>, pos: int)
    requires
        0 <= pos,
    ensures
        entry_at(data, pos).0 is Some ==> pos < entry_at(data, pos).1 <= data.len(),
{
    heads_move_on(data, pos);
    if let (Some((_, t)), p) = head_at(data, pos) {
        if let (Some(key), q) = string_body(data, p, t) {
            heads_move_on(data, q);
            if let (Some(_), r) = head_at(data, q) {
                heads_move_on(data, r);
                if let (Some(_), s) = head_at(data, r) {
                    heads_move_on(data, s);
                }
            }
        }
    }
}

proof fn too_many_entries(data: Seq<u8>, pos: int, count: int, map: Map<Seq<char>, Seq<u8>>)
    requires
        0 <= pos <= data.len(),
        count > data.len() - pos,
    ensures
        entries_at(data, pos, count, map).0 is None,
    decreases count,
{
    entries_move_on(data, pos);
    if let (Some((key, value)), p) = entry_at(data, pos) {
        too_many_entries(
            data,
            p,
            count - 1,
            map.insert(crate::outside::lossy_text(key), value),
        );
    }
}

/// A map that claims more entries than there are bytes, or a negative number of them, is not read.
pub proof fn maps_do_not_claim_too_much(data: Seq<u8>, pos: int, p: int, q: int, n: int, r: int, target: u8, tag: u8)
    requires
        data.len() <= i64::MAX,
        0 <= r <= data.len(),
        sought(data, pos, target) == (true, p),
        head_at(data, p) == (Some((tag, TarsType::Mapping)), q),
        int32_at(data, q) == (Some(n), r),
        n < 0 && n >= i32::MIN || n > data.len(),
    ensures
        byte_map_at(data, pos, target).0 is None,
{
    too_many_entries(data, r, count_of(n), Map::empty());
}

/// What cannot be read as a whole is passed over as far as it claims to go; numbers of known width
/// by their width.
pub proof fn fields_are_passed_over_by_their_claim(data: Seq<u8>, pos: int)
    requires
        0 <= pos,
        pos + 8 < data.len(),
        data.len() <= usize::MAX,
    ensures
        skipped(data, pos, TarsType::Zero) == (true, pos),
        skipped(data, pos, TarsType::Int8) == (true, pos + 1),
        skipped(data, pos, TarsType::Int16) == (true, pos + 2),
        skipped(data, pos, TarsType::Int32) == (true, pos + 4),
        skipped(data, pos, TarsType::Int64) == (true, pos + 8),
        pos + 1 + data[pos] <= usize::MAX ==> skipped(data, pos, TarsType::String1) == (
            true,
            pos + 1 + data[pos],
        ),
{
}

} // verus!
