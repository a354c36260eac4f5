//! Fields of every kind stand one behind another, and each is found by its tag.

use crate::string_map::{ascending, map_of};
use crate::tars::{byte_entries, byte_map_field, bytes_field, head_bytes, int_field, string_field, text_entries, text_map_field, wrap_i32, TarsType};
use crate::tars_input::{byte_map_at, bytes_field_at, head_at, int64_field_at, skipped, skipped_items, skipped_struct, sought, string_field_at, struct_at};
use crate::tars_laws::{bytes_round_trip, counted, entries_fit, entries_front, entry_bytes, head_round_trip, int_round_trip, map_round_trip, sought_step, string_round_trip, written, written_parts};
use vstd::prelude::*;
use vstd::utf8::encode_utf8;

verus! {

/// What a field holds.
pub enum Field {
    Int(i64),
    Text(Seq<char>),
    Raw(Seq<u8>),
    ByteMap(Seq<(Seq<char>, Seq<u8>)>),
    TextMap(Seq<(Seq<char>, Seq<char>)>),
    List(Seq<(u8, Field)>),
    Struct(Seq<(u8, Field)>),
}

/// A field as it is written.
pub open spec fn field_bytes(tag: u8, field: Field) -> Seq<u8>
    decreases field,
{
    match field {
        Field::Int(v) => int_field(tag, v as int),
        Field::Text(text) => string_field(tag, text),
        Field::Raw(bytes) => bytes_field(tag, bytes),
        Field::ByteMap(pairs) => byte_map_field(tag, pairs),
        Field::TextMap(pairs) => text_map_field(tag, pairs),
        Field::List(items) => head_bytes(tag, TarsType::List) + int_field(
            0,
            wrap_i32(items.len() as int),
        ) + fields_bytes(items),
        Field::Struct(fields) => head_bytes(tag, TarsType::StructBegin) + fields_bytes(fields)
            + head_bytes(0, TarsType::StructEnd),
    }
}

/// Fields with their tags, as they are written one behind another.
pub open spec fn fields_bytes(fields: Seq<(u8, Field)>) -> Seq<u8>
    decreases fields,
{
    if fields.len() == 0 {
        Seq::empty()
    } else {
        field_bytes(fields[0].0, fields[0].1) + fields_bytes(fields.skip(1))
    }
}

/// A field can be written without losing a length.
pub open spec fn field_fits(field: Field) -> bool
    decreases field,
{
    match field {
        Field::Int(_) => true,
        Field::Text(text) => encode_utf8(text).len() < 0x1_0000_0000,
        Field::Raw(bytes) => bytes.len() <= i32::MAX,
        Field::ByteMap(pairs) => entries_fit(pairs) && pairs.len() <= i32::MAX,
        Field::TextMap(pairs) => texts_fit(pairs) && pairs.len() <= i32::MAX,
        Field::List(items) => fields_fit(items) && items.len() <= i32::MAX,
        Field::Struct(fields) => fields_fit(fields),
    }
}

/// The entries can be written without losing their lengths.
pub open spec fn texts_fit(pairs: Seq<(Seq<char>, Seq<char>)>) -> bool {
    forall|i: int|
        0 <= i < pairs.len() ==> encode_utf8((#[trigger] pairs[i]).0).len() < 0x1_0000_0000
            && encode_utf8(pairs[i].1).len() < 0x1_0000_0000
}

/// Every field can be written without losing a length.
pub open spec fn fields_fit(fields: Seq<(u8, Field)>) -> bool
    decreases fields,
{
    fields.len() > 0 ==> field_fits(fields[0].1) && fields_fit(fields.skip(1))
}

/// A field stands at `pos` under its tag, and is passed over as a whole.
pub open spec fn stands(data: Seq<u8>, pos: int, tag: u8, end: int) -> bool {
    let (head, p) = head_at(data, pos);
    &&& head is Some
    &&& (head->0).0 == tag
    &&& (head->0).1 != TarsType::StructEnd
    &&& 0 <= pos < p <= end <= data.len()
    &&& skipped(data, p, (head->0).1) == (true, end)
}

// ---------------------------------------------------------------------------
// Passing over
// ---------------------------------------------------------------------------

proof fn item_passed(data: Seq<u8>, pos: int, tag: u8, end: int, count: int)
    requires
        stands(data, pos, tag, end),
        count > 0,
    ensures
        skipped_items(data, pos, count) == skipped_items(data, end, count - 1),
{
}

proof fn byte_entries_passed(data: Seq<u8>, pos: int, pairs: Seq<(Seq<char>, Seq<u8>)>)
    requires
        written(data, pos, byte_entries(pairs)),
        entries_fit(pairs),
    ensures
        skipped_items(data, pos, 2 * pairs.len() as int) == (true, pos + byte_entries(pairs).len()),
    decreases pairs.len(),
{
    if pairs.len() > 0 {
        entries_front(pairs);
        let (pair, rest) = (pairs[0], pairs.skip(1));
        let (key, value) = (string_field(0, pair.0), bytes_field(1, pair.1));
        written_parts(data, pos, entry_bytes(pair), byte_entries(rest));
        written_parts(data, pos, key, value);
        string_round_trip(data, pos, 0, pair.0);
        let middle = pos + key.len();
        bytes_round_trip(data, middle, 1, pair.1);
        let end = middle + value.len();
        assert(entries_fit(rest)) by {
            assert forall|i: int| 0 <= i < rest.len() implies encode_utf8(
                (#[trigger] rest[i]).0,
            ).len() < 0x1_0000_0000 && rest[i].1.len() <= i32::MAX by {
                assert(rest[i] == pairs[i + 1]);
            }
        }
        byte_entries_passed(data, end, rest);
        item_passed(data, pos, 0, middle, 2 * pairs.len() as int);
        item_passed(data, middle, 1, end, 2 * pairs.len() - 1);
        assert(2 * pairs.len() - 2 == 2 * rest.len());
    }
}

proof fn texts_front(pairs: Seq<(Seq<char>, Seq<char>)>)
    requires
        pairs.len() > 0,
    ensures
        text_entries(pairs) == string_field(0, pairs[0].0) + string_field(1, pairs[0].1)
            + text_entries(pairs.skip(1)),
    decreases pairs.len(),
{
    let first = string_field(0, pairs[0].0) + string_field(1, pairs[0].1);
    if pairs.len() == 1 {
        assert(pairs.drop_last() =~= Seq::<(Seq<char>, Seq<char>)>::empty());
        assert(pairs.skip(1) =~= Seq::<(Seq<char>, Seq<char>)>::empty());
    } else {
        texts_front(pairs.drop_last());
        assert(pairs.drop_last().skip(1) =~= pairs.skip(1).drop_last());
        assert(pairs.skip(1).last() == pairs.last());
    }
    assert(text_entries(pairs) =~= first + text_entries(pairs.skip(1)));
}

proof fn text_entries_passed(data: Seq<u8>, pos: int, pairs: Seq<(Seq<char>, Seq<char>)>)
    requires
        written(data, pos, text_entries(pairs)),
        texts_fit(pairs),
    ensures
        skipped_items(data, pos, 2 * pairs.len() as int) == (true, pos + text_entries(pairs).len()),
    decreases pairs.len(),
{
    if pairs.len() > 0 {
        texts_front(pairs);
        let (pair, rest) = (pairs[0], pairs.skip(1));
        let (key, value) = (string_field(0, pair.0), string_field(1, pair.1));
        written_parts(data, pos, key + value, text_entries(rest));
        written_parts(data, pos, key, value);
        string_round_trip(data, pos, 0, pair.0);
        let middle = pos + key.len();
        string_round_trip(data, middle, 1, pair.1);
        let end = middle + value.len();
        assert(texts_fit(rest)) by {
            assert forall|i: int| 0 <= i < rest.len() implies encode_utf8(
                (#[trigger] rest[i]).0,
            ).len() < 0x1_0000_0000 && encode_utf8(rest[i].1).len() < 0x1_0000_0000 by {
                assert(rest[i] == pairs[i + 1]);
            }
        }
        text_entries_passed(data, end, rest);
        item_passed(data, pos, 0, middle, 2 * pairs.len() as int);
        item_passed(data, middle, 1, end, 2 * pairs.len() - 1);
        assert(2 * pairs.len() - 2 == 2 * rest.len());
    }
}

/// A field of any kind stands where it was written.
pub proof fn field_stands(data: Seq<u8>, pos: int, tag: u8, field: Field)
    requires
        written(data, pos, field_bytes(tag, field)),
        field_fits(field),
    ensures
        stands(data, pos, tag, pos + field_bytes(tag, field).len()),
    decreases field,
{
    match field {
        Field::Int(v) => {
            int_round_trip(data, pos, tag, v);
        },
        Field::Text(text) => {
            string_round_trip(data, pos, tag, text);
        },
        Field::Raw(bytes) => {
            bytes_round_trip(data, pos, tag, bytes);
        },
        Field::ByteMap(pairs) => {
            let start = counted(
                data,
                pos,
                tag,
                TarsType::Mapping,
                pairs.len(),
                byte_entries(pairs),
            );
            byte_entries_passed(data, start, pairs);
        },
        Field::TextMap(pairs) => {
            let start = counted(
                data,
                pos,
                tag,
                TarsType::Mapping,
                pairs.len(),
                text_entries(pairs),
            );
            text_entries_passed(data, start, pairs);
        },
        Field::List(items) => {
            let start = counted(
                data,
                pos,
                tag,
                TarsType::List,
                items.len(),
                fields_bytes(items),
            );
            items_passed(data, start, items);
        },
        Field::Struct(fields) => {
            let head = head_bytes(tag, TarsType::StructBegin);
            let close = head_bytes(0, TarsType::StructEnd);
            assert(field_bytes(tag, field) =~= head + (fields_bytes(fields) + close));
            written_parts(data, pos, head, fields_bytes(fields) + close);
            head_round_trip(data, pos, tag, TarsType::StructBegin);
            struct_passed(data, pos + head.len(), fields);
        },
    }
}

/// The items of a list are passed over one by one.
proof fn items_passed(data: Seq<u8>, pos: int, items: Seq<(u8, Field)>)
    requires
        written(data, pos, fields_bytes(items)),
        fields_fit(items),
    ensures
        skipped_items(data, pos, items.len() as int) == (true, pos + fields_bytes(items).len()),
    decreases items,
{
    if items.len() > 0 {
        let (tag, field) = items[0];
        let first = field_bytes(tag, field);
        written_parts(data, pos, first, fields_bytes(items.skip(1)));
        field_stands(data, pos, tag, field);
        items_passed(data, pos + first.len(), items.skip(1));
        item_passed(data, pos, tag, pos + first.len(), items.len() as int);
    }
}

/// The fields of a structure are passed over up to its end.
proof fn struct_passed(data: Seq<u8>, pos: int, fields: Seq<(u8, Field)>)
    requires
        written(data, pos, fields_bytes(fields) + head_bytes(0, TarsType::StructEnd)),
        fields_fit(fields),
    ensures
        skipped_struct(data, pos) == (
            true,
            pos + (fields_bytes(fields) + head_bytes(0, TarsType::StructEnd)).len(),
        ),
    decreases fields,
{
    let close = head_bytes(0, TarsType::StructEnd);
    if fields.len() == 0 {
        assert(fields_bytes(fields) + close =~= close);
        head_round_trip(data, pos, 0, TarsType::StructEnd);
    } else {
        let (tag, field) = fields[0];
        let (first, rest) = (field_bytes(tag, field), fields_bytes(fields.skip(1)));
        assert(fields_bytes(fields) + close =~= first + (rest + close));
        written_parts(data, pos, first, rest + close);
        field_stands(data, pos, tag, field);
        struct_passed(data, pos + first.len(), fields.skip(1));
    }
}

// ---------------------------------------------------------------------------
// Searching
// ---------------------------------------------------------------------------

/// The tags rise from field to field.
pub open spec fn tags_rise(fields: Seq<(u8, Field)>) -> bool {
    forall|i: int, j: int|
        0 <= i < j < fields.len() ==> (#[trigger] fields[i]).0 < (#[trigger] fields[j]).0
}

/// How many fields have a lower tag.
pub open spec fn lower(fields: Seq<(u8, Field)>, target: u8) -> int
    decreases fields.len(),
{
    if fields.len() > 0 && fields[0].0 < target {
        1 + lower(fields.skip(1), target)
    } else {
        0
    }
}

/// Where the field of index `i` stands, from the first one on.
pub open spec fn offset(fields: Seq<(u8, Field)>, i: int) -> int {
    fields_bytes(fields.take(i)).len() as int
}

/// Nothing more stands at `end`: the data end there, or the structure does.
pub open spec fn closes(data: Seq<u8>, end: int) -> bool {
    end == data.len() || (head_at(data, end).0 is Some && (head_at(data, end).0->0).1
        == TarsType::StructEnd)
}

proof fn lower_bounds(fields: Seq<(u8, Field)>, target: u8)
    requires
        tags_rise(fields),
    ensures
        0 <= lower(fields, target) <= fields.len(),
        forall|i: int| 0 <= i < lower(fields, target) ==> (#[trigger] fields[i]).0 < target,
        forall|i: int|
            lower(fields, target) <= i < fields.len() ==> (#[trigger] fields[i]).0 >= target,
    decreases fields.len(),
{
    if fields.len() > 0 && fields[0].0 < target {
        let rest = fields.skip(1);
        rest_rises(fields);
        lower_bounds(rest, target);
        assert forall|i: int| 0 <= i < lower(fields, target) implies (#[trigger] fields[i]).0
            < target by {
            if i > 0 {
                assert(rest[i - 1] == fields[i]);
            }
        }
        assert forall|i: int|
            lower(fields, target) <= i < fields.len() implies (#[trigger] fields[i]).0
            >= target by {
            assert(rest[i - 1] == fields[i]);
        }
    }
}

proof fn rest_rises(fields: Seq<(u8, Field)>)
    requires
        tags_rise(fields),
        fields.len() > 0,
    ensures
        tags_rise(fields.skip(1)),
{
    let rest = fields.skip(1);
    assert forall|i: int, j: int| 0 <= i < j < rest.len() implies (#[trigger] rest[i]).0
        < (#[trigger] rest[j]).0 by {
        assert(fields[i + 1].0 < fields[j + 1].0);
    }
}

/// A search ends behind the fields of lower tags.
proof fn search_ends(data: Seq<u8>, pos: int, fields: Seq<(u8, Field)>, target: u8)
    requires
        written(data, pos, fields_bytes(fields)),
        fields_fit(fields),
        tags_rise(fields),
        closes(data, pos + fields_bytes(fields).len()),
    ensures
        ({
            let i = lower(fields, target);
            sought(data, pos, target) == (
                i < fields.len() && fields[i].0 == target,
                pos + offset(fields, i),
            )
        }),
    decreases fields.len(),
{
    let i = lower(fields, target);
    lower_bounds(fields, target);
    if fields.len() == 0 {
        assert(fields.take(0) =~= seq![]);
    } else {
        let (tag, field) = fields[0];
        let (first, rest) = (field_bytes(tag, field), fields.skip(1));
        written_parts(data, pos, first, fields_bytes(rest));
        field_stands(data, pos, tag, field);
        if tag < target {
            rest_rises(fields);
            search_ends(data, pos + first.len(), rest, target);
            sought_step(data, pos, target);
            assert(fields.take(i).skip(1) =~= rest.take(i - 1));
            assert(fields.take(i)[0] == fields[0]);
            if i < fields.len() {
                assert(rest[i - 1] == fields[i]);
            }
        } else {
            assert(fields.take(0) =~= seq![]);
        }
    }
}

proof fn fields_parted(fields: Seq<(u8, Field)>, i: int)
    requires
        0 <= i < fields.len(),
        fields_fit(fields),
    ensures
        fields_bytes(fields) == fields_bytes(fields.take(i)) + (field_bytes(
            fields[i].0,
            fields[i].1,
        ) + fields_bytes(fields.skip(i + 1))),
        field_fits(fields[i].1),
    decreases fields.len(),
{
    if i == 0 {
        assert(fields.take(0) =~= seq![]);
        assert(fields_bytes(fields) =~= Seq::<u8>::empty() + fields_bytes(fields));
    } else {
        let rest = fields.skip(1);
        fields_parted(rest, i - 1);
        assert(fields.take(i).skip(1) =~= rest.take(i - 1));
        assert(fields.take(i)[0] == fields[0]);
        assert(rest.skip(i) =~= fields.skip(i + 1));
        assert(rest[i - 1] == fields[i]);
        let (first, front) = (field_bytes(fields[0].0, fields[0].1), fields_bytes(rest.take(i - 1)));
        let back = field_bytes(fields[i].0, fields[i].1) + fields_bytes(fields.skip(i + 1));
        assert(first + (front + back) =~= (first + front) + back);
    }
}

/// Among fields with rising tags, up to the end of the data or of their structure, a search
/// finds the field of its tag and stops in front of it.
pub proof fn field_is_found(data: Seq<u8>, pos: int, fields: Seq<(u8, Field)>, i: int)
    requires
        written(data, pos, fields_bytes(fields)),
        fields_fit(fields),
        tags_rise(fields),
        closes(data, pos + fields_bytes(fields).len()),
        0 <= i < fields.len(),
    ensures
        sought(data, pos, fields[i].0) == (true, pos + offset(fields, i)),
        written(data, pos + offset(fields, i), field_bytes(fields[i].0, fields[i].1)),
        head_at(data, pos + offset(fields, i)).0 matches Some((tag, _)) && tag == fields[i].0,
{
    let (tag, field) = fields[i];
    search_ends(data, pos, fields, tag);
    lower_bounds(fields, tag);
    let k = lower(fields, tag);
    assert(k == i) by {
        if k < i {
            assert(fields[k].0 < fields[i].0);
        }
    }
    fields_parted(fields, i);
    let (front, back) = (fields_bytes(fields.take(i)), fields_bytes(fields.skip(i + 1)));
    written_parts(data, pos, front, field_bytes(tag, field) + back);
    written_parts(data, pos + front.len(), field_bytes(tag, field), back);
    field_stands(data, pos + front.len(), tag, field);
}

/// A search for a tag that no field has stops in front of the first field of a higher tag, or
/// where the fields end.
pub proof fn missing_field_is_not_found(
    data: Seq<u8>,
    pos: int,
    fields: Seq<(u8, Field)>,
    target: u8,
)
    requires
        written(data, pos, fields_bytes(fields)),
        fields_fit(fields),
        tags_rise(fields),
        closes(data, pos + fields_bytes(fields).len()),
        forall|i: int| 0 <= i < fields.len() ==> (#[trigger] fields[i]).0 != target,
    ensures
        ({
            let i = lower(fields, target);
            &&& sought(data, pos, target) == (false, pos + offset(fields, i))
            &&& 0 <= i <= fields.len()
            &&& forall|j: int| 0 <= j < i ==> (#[trigger] fields[j]).0 < target
            &&& forall|j: int| i <= j < fields.len() ==> (#[trigger] fields[j]).0 > target
            &&& i < fields.len() ==> (head_at(data, pos + offset(fields, i)).0 matches Some((tag, _))
                && tag == fields[i].0)
            &&& i == fields.len() ==> offset(fields, i) == fields_bytes(fields).len()
        }),
{
    search_ends(data, pos, fields, target);
    lower_bounds(fields, target);
    let i = lower(fields, target);
    if i < fields.len() {
        field_is_found(data, pos, fields, i);
    } else {
        assert(fields.take(i) =~= fields);
    }
}

/// A field is read by its tag as it was written, whatever fields stand beside it.
pub proof fn field_is_read(data: Seq<u8>, pos: int, fields: Seq<(u8, Field)>, i: int)
    requires
        written(data, pos, fields_bytes(fields)),
        fields_fit(fields),
        tags_rise(fields),
        closes(data, pos + fields_bytes(fields).len()),
        0 <= i < fields.len(),
    ensures
        ({
            let (tag, field) = fields[i];
            let end = pos + offset(fields, i) + field_bytes(tag, field).len();
            match field {
                Field::Int(v) => int64_field_at(data, pos, tag) == (Some(v as int), end),
                Field::Text(text) => string_field_at(data, pos, tag) == (
                    Some(encode_utf8(text)),
                    end,
                ),
                Field::Raw(bytes) => bytes_field_at(data, pos, tag) == (Some(bytes), end),
                Field::ByteMap(pairs) => ascending(pairs) ==> byte_map_at(data, pos, tag) == (
                    Some(map_of(pairs)),
                    end,
                ),
                Field::TextMap(_) | Field::List(_) => true,
                Field::Struct(inner) => struct_at(data, pos, tag) == (
                    true,
                    pos + offset(fields, i) + head_bytes(tag, TarsType::StructBegin).len(),
                ),
            }
        }),
{
    let (tag, field) = fields[i];
    let at = pos + offset(fields, i);
    field_is_found(data, pos, fields, i);
    fields_parted(fields, i);
    match field {
        Field::Int(v) => {
            int_round_trip(data, at, tag, v);
        },
        Field::Text(text) => {
            string_round_trip(data, at, tag, text);
        },
        Field::Raw(bytes) => {
            bytes_round_trip(data, at, tag, bytes);
        },
        Field::ByteMap(pairs) => {
            if ascending(pairs) {
                map_round_trip(data, at, tag, pairs);
                field_stands(data, at, tag, field);
                assert(sought(data, at, tag) == (true, at));
            }
        },
        Field::Struct(inner) => {
            let head = head_bytes(tag, TarsType::StructBegin);
            let close = head_bytes(0, TarsType::StructEnd);
            assert(field_bytes(tag, field) =~= head + (fields_bytes(inner) + close));
            written_parts(data, at, head, fields_bytes(inner) + close);
            head_round_trip(data, at, tag, TarsType::StructBegin);
        },
        _ => {},
    }
}

} // verus!
