//! What was written is what is read.

use crate::outside::lossy_text;
use crate::string_map::{ascending, has_key, map_of, value_is_at, value_of};
use crate::tars::{be16, be32, be64, byte_entries, byte_map_field, bytes_field, head_bytes, int_field, string_field, type_of, wrap_i32, TarsType};
use crate::tars_input::{byte_map_at, bytes_body, entries_at, head_at, int32_at, int_body, signed, skipped, sought, string_body, u16_at, u32_at, u64_at};
use crate::text::{text_before, text_order_irreflexive};
use vstd::prelude::*;
use vstd::utf8::encode_utf8;

verus! {

/// `part` stands in `data` at `pos`.
pub open spec fn written(data: Seq<u8>, pos: int, part: Seq<u8>) -> bool {
    &&& 0 <= pos
    &&& pos + part.len() <= data.len()
    &&& data.subrange(pos, pos + part.len()) == part
}

/// Of two parts that stand one behind the other, each stands where it should.
pub proof fn written_parts(data: Seq<u8>, pos: int, first: Seq<u8>, second: Seq<u8>)
    requires
        written(data, pos, first + second),
    ensures
        written(data, pos, first),
        written(data, pos + first.len(), second),
{
    let whole = data.subrange(pos, pos + (first + second).len());
    assert(data.subrange(pos, pos + first.len()) =~= first) by {
        assert forall|i: int| 0 <= i < first.len() implies data[pos + i] == first[i] by {
            assert(whole[i] == (first + second)[i]);
        }
    }
    assert(data.subrange(pos + first.len(), pos + first.len() + second.len()) =~= second) by {
        assert forall|i: int| 0 <= i < second.len() implies data[pos + first.len() + i]
            == second[i] by {
            assert(whole[first.len() + i] == (first + second)[first.len() + i]);
        }
    }
}

/// The byte at an offset of a part.
proof fn written_byte(data: Seq<u8>, pos: int, part: Seq<u8>, i: int)
    requires
        written(data, pos, part),
        0 <= i < part.len(),
    ensures
        data[pos + i] == part[i],
{
    assert(data.subrange(pos, pos + part.len())[i] == part[i]);
}

/// A head is read as it was written.
pub proof fn head_round_trip(data: Seq<u8>, pos: int, tag: u8, t: TarsType)
    requires
        written(data, pos, head_bytes(tag, t)),
    ensures
        head_at(data, pos) == (Some((tag, t)), pos + head_bytes(tag, t).len()),
{
    let part = head_bytes(tag, t);
    written_byte(data, pos, part, 0);
    assert(type_of(t.spec_code()) == Some(t));
    if tag < 15 {
        let b = (tag * 16 + t.spec_code()) as u8;
        assert(b / 16 == tag && b % 16 == t.spec_code());
    } else {
        written_byte(data, pos, part, 1);
        let b = (240 + t.spec_code()) as u8;
        assert(b / 16 == 15 && b % 16 == t.spec_code());
    }
}

proof fn be16_read(data: Seq<u8>, pos: int, n: int)
    requires
        written(data, pos, be16(n)),
        0 <= n < 0x1_0000,
    ensures
        u16_at(data, pos) == n,
{
    written_byte(data, pos, be16(n), 0);
    written_byte(data, pos, be16(n), 1);
}

proof fn be32_read(data: Seq<u8>, pos: int, n: int)
    requires
        written(data, pos, be32(n)),
        0 <= n < 0x1_0000_0000,
    ensures
        u32_at(data, pos) == n,
{
    written_parts(data, pos, be16(n / 0x1_0000), be16(n % 0x1_0000));
    be16_read(data, pos, n / 0x1_0000);
    be16_read(data, pos + 2, n % 0x1_0000);
}

proof fn be64_read(data: Seq<u8>, pos: int, n: int)
    requires
        written(data, pos, be64(n)),
        0 <= n < 0x1_0000_0000_0000_0000,
    ensures
        u64_at(data, pos) == n,
{
    written_parts(data, pos, be32(n / 0x1_0000_0000), be32(n % 0x1_0000_0000));
    be32_read(data, pos, n / 0x1_0000_0000);
    be32_read(data, pos + 4, n % 0x1_0000_0000);
}

/// The type that an integer field has.
pub open spec fn int_type(v: int) -> TarsType {
    if v == 0 {
        TarsType::Zero
    } else if -0x80 <= v < 0x80 {
        TarsType::Int8
    } else if -0x8000 <= v < 0x8000 {
        TarsType::Int16
    } else if -0x8000_0000 <= v < 0x8000_0000 {
        TarsType::Int32
    } else {
        TarsType::Int64
    }
}

/// What stands behind the head of an integer field.
pub open spec fn int_tail(v: int) -> Seq<u8> {
    match int_type(v) {
        TarsType::Zero => Seq::empty(),
        TarsType::Int8 => seq![(v % 0x100) as u8],
        TarsType::Int16 => be16(v % 0x1_0000),
        TarsType::Int32 => be32(v % 0x1_0000_0000),
        _ => be64(v % 0x1_0000_0000_0000_0000),
    }
}

/// Two's complement is undone by reading it as signed.
proof fn signed_low(v: int, half: int)
    requires
        half > 0,
        -half <= v < half,
    ensures
        0 <= v % (2 * half) < 2 * half,
        signed(v % (2 * half), 2 * half) == v,
{
    if v < 0 {
        vstd::arithmetic::div_mod::lemma_fundamental_div_mod_converse(v, 2 * half, -1, v + 2 * half);
    } else {
        vstd::arithmetic::div_mod::lemma_small_mod(v as nat, (2 * half) as nat);
    }
    assert((2 * half) / 2 == half);
}

proof fn int_tail_read(data: Seq<u8>, p: int, v: i64)
    requires
        written(data, p, int_tail(v as int)),
    ensures
        int_body(data, p, int_type(v as int)) == (
            Some(v as int),
            p + int_tail(v as int).len(),
        ),
{
    let t = int_type(v as int);
    if t == TarsType::Int8 {
        signed_low(v as int, 0x80);
        written_byte(data, p, int_tail(v as int), 0);
    } else if t == TarsType::Int16 {
        signed_low(v as int, 0x8000);
        be16_read(data, p, (v as int) % 0x1_0000);
    } else if t == TarsType::Int32 {
        signed_low(v as int, 0x8000_0000);
        be32_read(data, p, (v as int) % 0x1_0000_0000);
    } else if t == TarsType::Int64 {
        signed_low(v as int, 0x8000_0000_0000_0000);
        be64_read(data, p, (v as int) % 0x1_0000_0000_0000_0000);
    }
}

/// An integer field is read as the number that was written, and passed over as a whole.
pub proof fn int_round_trip(data: Seq<u8>, pos: int, tag: u8, v: i64)
    requires
        written(data, pos, int_field(tag, v as int)),
    ensures
        ({
            let end = pos + int_field(tag, v as int).len();
            let t = int_type(v as int);
            let (head, p) = head_at(data, pos);
            &&& head == Some((tag, t))
            &&& pos < p <= end
            &&& int_body(data, p, t) == (Some(v as int), end)
            &&& skipped(data, p, t) == (true, end)
            &&& i32::MIN <= v <= i32::MAX ==> int32_at(data, pos) == (Some(v as int), end)
        }),
{
    let t = int_type(v as int);
    let head = head_bytes(tag, t);
    let tail = int_tail(v as int);
    assert(int_field(tag, v as int) =~= head + tail);
    written_parts(data, pos, head, tail);
    head_round_trip(data, pos, tag, t);
    int_tail_read(data, pos + head.len(), v);
    assert(tail.len() == match t {
        TarsType::Zero => 0int,
        TarsType::Int8 => 1,
        TarsType::Int16 => 2,
        TarsType::Int32 => 4,
        _ => 8,
    });
}

/// A short text is read as the UTF-8 that was written, and passed over as a whole.
proof fn short_text_read(data: Seq<u8>, pos: int, tag: u8, bytes: Seq<u8>)
    requires
        written(data, pos, head_bytes(tag, TarsType::String1) + seq![bytes.len() as u8] + bytes),
        bytes.len() <= 255,
    ensures
        ({
            let p = pos + head_bytes(tag, TarsType::String1).len();
            &&& head_at(data, pos) == (Some((tag, TarsType::String1)), p)
            &&& string_body(data, p, TarsType::String1) == (Some(bytes), p + 1 + bytes.len())
            &&& skipped(data, p, TarsType::String1) == (true, p + 1 + bytes.len())
        }),
{
    let head = head_bytes(tag, TarsType::String1);
    let length = seq![bytes.len() as u8];
    written_parts(data, pos, head + length, bytes);
    written_parts(data, pos, head, length);
    head_round_trip(data, pos, tag, TarsType::String1);
    written_byte(data, pos + head.len(), length, 0);
}

/// A long text is read as the UTF-8 that was written, and passed over as a whole.
proof fn long_text_read(data: Seq<u8>, pos: int, tag: u8, bytes: Seq<u8>)
    requires
        written(data, pos, head_bytes(tag, TarsType::String4) + be32(bytes.len() as int) + bytes),
        bytes.len() < 0x1_0000_0000,
    ensures
        ({
            let p = pos + head_bytes(tag, TarsType::String4).len();
            &&& head_at(data, pos) == (Some((tag, TarsType::String4)), p)
            &&& string_body(data, p, TarsType::String4) == (Some(bytes), p + 4 + bytes.len())
            &&& skipped(data, p, TarsType::String4) == (true, p + 4 + bytes.len())
        }),
{
    let head = head_bytes(tag, TarsType::String4);
    let length = be32(bytes.len() as int);
    written_parts(data, pos, head + length, bytes);
    written_parts(data, pos, head, length);
    head_round_trip(data, pos, tag, TarsType::String4);
    be32_read(data, pos + head.len(), bytes.len() as int);
}

/// The parts of a text field whose length fits.
proof fn string_field_parts(tag: u8, text: Seq<char>)
    requires
        encode_utf8(text).len() < 0x1_0000_0000,
    ensures
        ({
            let bytes = encode_utf8(text);
            if bytes.len() <= 255 {
                &&& string_field(tag, text) == head_bytes(tag, TarsType::String1)
                    + seq![bytes.len() as u8] + bytes
                &&& string_field(tag, text).len() == head_bytes(tag, TarsType::String1).len() + 1
                    + bytes.len()
            } else {
                &&& string_field(tag, text) == head_bytes(tag, TarsType::String4) + be32(
                    bytes.len() as int,
                ) + bytes
                &&& string_field(tag, text).len() == head_bytes(tag, TarsType::String4).len() + 4
                    + bytes.len()
            }
        }),
{
    let n = encode_utf8(text).len();
    vstd::arithmetic::div_mod::lemma_small_mod(n, 0x1_0000_0000);
}

/// A text field is read as the UTF-8 that was written, and passed over as a whole.
pub proof fn string_round_trip(data: Seq<u8>, pos: int, tag: u8, text: Seq<char>)
    requires
        written(data, pos, string_field(tag, text)),
        encode_utf8(text).len() < 0x1_0000_0000,
    ensures
        ({
            let end = pos + string_field(tag, text).len();
            let (head, p) = head_at(data, pos);
            &&& head is Some
            &&& (head->0).0 == tag
            &&& (head->0).1 != TarsType::StructEnd
            &&& pos < p <= end
            &&& string_body(data, p, (head->0).1) == (Some(encode_utf8(text)), end)
            &&& skipped(data, p, (head->0).1) == (true, end)
        }),
{
    let bytes = encode_utf8(text);
    string_field_parts(tag, text);
    if bytes.len() <= 255 {
        short_text_read(data, pos, tag, bytes);
    } else {
        long_text_read(data, pos, tag, bytes);
    }
}

/// A field of bytes is read as the bytes that were written, and passed over as a whole.
pub proof fn bytes_round_trip(data: Seq<u8>, pos: int, tag: u8, bytes: Seq<u8>)
    requires
        written(data, pos, bytes_field(tag, bytes)),
        bytes.len() <= i32::MAX,
    ensures
        ({
            let end = pos + bytes_field(tag, bytes).len();
            let (head, p) = head_at(data, pos);
            &&& head == Some((tag, TarsType::Bytes))
            &&& pos < p <= end
            &&& bytes_body(data, p) == (Some(bytes), end)
            &&& skipped(data, p, TarsType::Bytes) == (true, end)
        }),
{
    let outer = head_bytes(tag, TarsType::Bytes);
    let inner = head_bytes(0, TarsType::Int8);
    let n = bytes.len() as i64;
    count_kept(bytes.len());
    let length = int_field(0, n as int);
    written_parts(data, pos, outer + inner + length, bytes);
    written_parts(data, pos, outer + inner, length);
    written_parts(data, pos, outer, inner);
    head_round_trip(data, pos, tag, TarsType::Bytes);
    let p = pos + outer.len();
    head_round_trip(data, p, 0, TarsType::Int8);
    int_round_trip(data, p + inner.len(), 0, n);
}

/// A field of a lower tag lies behind a search.
pub proof fn sought_step(data: Seq<u8>, pos: int, target: u8)
    requires
        ({
            let (head, p) = head_at(data, pos);
            &&& head is Some
            &&& (head->0).0 < target
            &&& (head->0).1 != TarsType::StructEnd
            &&& skipped(data, p, (head->0).1).0
            &&& p <= skipped(data, p, (head->0).1).1
        }),
    ensures
        ({
            let (head, p) = head_at(data, pos);
            sought(data, pos, target) == sought(data, skipped(data, p, (head->0).1).1, target)
        }),
{
}

/// Searching passes over an integer of a lower tag.
pub proof fn sought_past_int(data: Seq<u8>, pos: int, tag: u8, v: i64, target: u8)
    requires
        written(data, pos, int_field(tag, v as int)),
        tag < target,
    ensures
        sought(data, pos, target) == sought(data, pos + int_field(tag, v as int).len(), target),
{
    int_round_trip(data, pos, tag, v);
    sought_step(data, pos, target);
}

/// Searching passes over a text of a lower tag.
pub proof fn sought_past_string(data: Seq<u8>, pos: int, tag: u8, text: Seq<char>, target: u8)
    requires
        written(data, pos, string_field(tag, text)),
        encode_utf8(text).len() < 0x1_0000_0000,
        tag < target,
    ensures
        sought(data, pos, target) == sought(data, pos + string_field(tag, text).len(), target),
{
    string_round_trip(data, pos, tag, text);
    sought_step(data, pos, target);
}

// ---------------------------------------------------------------------------
// Maps
// ---------------------------------------------------------------------------

/// One entry as it is written.
pub open spec fn entry_bytes(pair: (Seq<char>, Seq<u8>)) -> Seq<u8> {
    string_field(0, pair.0) + bytes_field(1, pair.1)
}

/// The entries can be written without losing their lengths.
pub open spec fn entries_fit(pairs: Seq<(Seq<char>, Seq<u8>)>) -> bool {
    forall|i: int|
        0 <= i < pairs.len() ==> encode_utf8((#[trigger] pairs[i]).0).len() < 0x1_0000_0000
            && pairs[i].1.len() <= i32::MAX
}

/// `pairs` put into `map`, the first one first.
pub open spec fn put_all(
    map: Map<Seq<char>, Seq<u8>>,
    pairs: Seq<(Seq<char>, Seq<u8>)>,
) -> Map<Seq<char>, Seq<u8>>
    decreases pairs.len(),
{
    if pairs.len() == 0 {
        map
    } else {
        put_all(map.insert(pairs[0].0, pairs[0].1), pairs.skip(1))
    }
}

/// The first entry stands first.
pub proof fn entries_front(pairs: Seq<(Seq<char>, Seq<u8>)>)
    requires
        pairs.len() > 0,
    ensures
        byte_entries(pairs) == entry_bytes(pairs[0]) + byte_entries(pairs.skip(1)),
    decreases pairs.len(),
{
    if pairs.len() == 1 {
        assert(pairs.drop_last() =~= Seq::<(Seq<char>, Seq<u8>)>::empty());
        assert(pairs.skip(1) =~= Seq::<(Seq<char>, Seq<u8>)>::empty());
        assert(byte_entries(pairs) =~= entry_bytes(pairs[0]) + byte_entries(pairs.skip(1)));
    } else {
        entries_front(pairs.drop_last());
        assert(pairs.drop_last().skip(1) =~= pairs.skip(1).drop_last());
        assert(pairs.skip(1).last() == pairs.last());
        assert(byte_entries(pairs) =~= entry_bytes(pairs[0]) + byte_entries(pairs.skip(1)));
    }
}

/// Text that was encoded is read as itself.
pub proof fn encoded_text(text: Seq<char>)
    ensures
        lossy_text(encode_utf8(text)) == text,
{
    vstd::utf8::encode_utf8_valid_utf8(text);
    vstd::utf8::encode_utf8_decode_utf8(text);
}

/// Entries are read as they were written.
pub proof fn entries_round_trip(
    data: Seq<u8>,
    pos: int,
    pairs: Seq<(Seq<char>, Seq<u8>)>,
    map: Map<Seq<char>, Seq<u8>>,
)
    requires
        written(data, pos, byte_entries(pairs)),
        entries_fit(pairs),
    ensures
        entries_at(data, pos, pairs.len() as int, map) == (
            Some(put_all(map, pairs)),
            pos + byte_entries(pairs).len(),
        ),
    decreases pairs.len(),
{
    if pairs.len() > 0 {
        entries_front(pairs);
        let pair = pairs[0];
        let rest = pairs.skip(1);
        let key = string_field(0, pair.0);
        let value = bytes_field(1, pair.1);
        written_parts(data, pos, entry_bytes(pair), byte_entries(rest));
        written_parts(data, pos, key, value);
        string_round_trip(data, pos, 0, pair.0);
        bytes_round_trip(data, pos + key.len(), 1, pair.1);
        encoded_text(pair.0);
        assert(entries_fit(rest)) by {
            assert forall|i: int| 0 <= i < rest.len() implies encode_utf8(
                (#[trigger] rest[i]).0,
            ).len() < 0x1_0000_0000 && rest[i].1.len() <= i32::MAX by {
                assert(rest[i] == pairs[i + 1]);
            }
        }
        entries_round_trip(
            data,
            pos + entry_bytes(pair).len(),
            rest,
            map.insert(pair.0, pair.1),
        );
    }
}

/// Putting ascending pairs in one by one gives their map.
proof fn put_all_ascending(
    map: Map<Seq<char>, Seq<u8>>,
    pairs: Seq<(Seq<char>, Seq<u8>)>,
)
    requires
        ascending(pairs),
    ensures
        put_all(map, pairs) == map.union_prefer_right(map_of(pairs)),
    decreases pairs.len(),
{
    if pairs.len() == 0 {
        assert(map.union_prefer_right(map_of(pairs)) =~= map);
    } else {
        let rest = pairs.skip(1);
        let first = pairs[0];
        assert(ascending(rest)) by {
            assert forall|i: int, j: int| 0 <= i < j < rest.len() implies text_before(
                (#[trigger] rest[i]).0,
                (#[trigger] rest[j]).0,
            ) by {
                assert(text_before(pairs[i + 1].0, pairs[j + 1].0));
            }
        }
        put_all_ascending(map.insert(first.0, first.1), rest);
        value_is_at(pairs, 0);
        assert forall|key: Seq<char>| has_key(pairs, key) == (key == first.0 || has_key(
            rest,
            key,
        )) by {
            if has_key(pairs, key) {
                let k = choose|k: int| 0 <= k < pairs.len() && (#[trigger] pairs[k]).0 == key;
                if k > 0 {
                    assert(rest[k - 1].0 == key);
                }
            }
            if has_key(rest, key) {
                let k = choose|k: int| 0 <= k < rest.len() && (#[trigger] rest[k]).0 == key;
                assert(pairs[k + 1].0 == key);
            }
        }
        assert forall|key: Seq<char>| has_key(rest, key) implies key != first.0 && value_of(
            pairs,
            key,
        ) == value_of(rest, key) by {
            let k = choose|k: int| 0 <= k < rest.len() && (#[trigger] rest[k]).0 == key;
            assert(rest[k] == pairs[k + 1]);
            value_is_at(rest, k);
            value_is_at(pairs, k + 1);
            assert(text_before(pairs[0].0, pairs[k + 1].0));
            text_order_irreflexive(first.0);
        }
        assert(map.insert(first.0, first.1).union_prefer_right(map_of(rest))
            =~= map.union_prefer_right(map_of(pairs)));
    }
}

/// A count that fits is kept as it is.
pub proof fn count_kept(n: nat)
    requires
        n <= i32::MAX,
    ensures
        wrap_i32(n as int) == n,
{
    vstd::arithmetic::div_mod::lemma_small_mod(n, 0x1_0000_0000);
}

/// What stands behind a head and a count, and where it begins.
pub proof fn counted(data: Seq<u8>, pos: int, tag: u8, t: TarsType, n: nat, items: Seq<u8>) -> (start:
    int)
    requires
        n <= i32::MAX,
        written(data, pos, head_bytes(tag, t) + int_field(0, wrap_i32(n as int)) + items),
    ensures
        ({
            let p = pos + head_bytes(tag, t).len();
            &&& head_at(data, pos) == (Some((tag, t)), p)
            &&& int32_at(data, p) == (Some(n as int), start)
            &&& 0 <= pos < p < start
            &&& written(data, start, items)
            &&& start + items.len() == pos + (head_bytes(tag, t) + int_field(
                0,
                wrap_i32(n as int),
            ) + items).len()
        }),
{
    count_kept(n);
    let (head, length) = (head_bytes(tag, t), int_field(0, wrap_i32(n as int)));
    written_parts(data, pos, head + length, items);
    written_parts(data, pos, head, length);
    head_round_trip(data, pos, tag, t);
    int_round_trip(data, pos + head.len(), 0, n as i64);
    pos + head.len() + length.len()
}

/// A map is read as the map that was written.
pub proof fn map_round_trip(data: Seq<u8>, pos: int, tag: u8, pairs: Seq<(Seq<char>, Seq<u8>)>)
    requires
        written(data, pos, byte_map_field(tag, pairs)),
        ascending(pairs),
        entries_fit(pairs),
        pairs.len() <= i32::MAX,
    ensures
        byte_map_at(data, pos, tag) == (
            Some(map_of(pairs)),
            pos + byte_map_field(tag, pairs).len(),
        ),
{
    let start = counted(data, pos, tag, TarsType::Mapping, pairs.len(), byte_entries(pairs));
    entries_round_trip(data, start, pairs, Map::empty());
    put_all_ascending(Map::empty(), pairs);
    assert(Map::<Seq<char>, Seq<u8>>::empty().union_prefer_right(map_of(pairs)) =~= map_of(pairs));
    assert(sought(data, pos, tag) == (true, pos));
}

} // verus!
