//! JSON values as plain data.

use crate::text::same_text;
use vstd::prelude::*;

verus! {

/// A JSON value. Numbers that are no integers of 64 bits keep only their kind.
#[derive(Debug)]
pub enum Json {
    Null,
    Bool(bool),
    PosInt(u64),
    NegInt(i64),
    Float,
    Text(String),
    Array(Vec<Json>),
    Object(Vec<(String, Json)>),
}

/// What a JSON value says.
pub enum JsonData {
    Null,
    Bool(bool),
    PosInt(u64),
    NegInt(i64),
    Float,
    Text(Seq<char>),
    Array(Seq<JsonData>),
    Object(Seq<(Seq<char>, JsonData)>),
}

/// What a value says.
pub open spec fn data_of(value: Json) -> JsonData
    decreases value,
{
    match value {
        Json::Null => JsonData::Null,
        Json::Bool(flag) => JsonData::Bool(flag),
        Json::PosInt(n) => JsonData::PosInt(n),
        Json::NegInt(n) => JsonData::NegInt(n),
        Json::Float => JsonData::Float,
        Json::Text(text) => JsonData::Text(text@),
        Json::Array(items) => JsonData::Array(values_of(items@)),
        Json::Object(entries) => JsonData::Object(entries_of(entries@)),
    }
}

/// What values say.
pub open spec fn values_of(items: Seq<Json>) -> Seq<JsonData>
    decreases items,
{
    if items.len() == 0 {
        Seq::empty()
    } else {
        seq![data_of(items[0])] + values_of(items.skip(1))
    }
}

/// What entries say.
pub open spec fn entries_of(entries: Seq<(String, Json)>) -> Seq<(Seq<char>, JsonData)>
    decreases entries,
{
    if entries.len() == 0 {
        Seq::empty()
    } else {
        seq![(entries[0].0@, data_of(entries[0].1))] + entries_of(entries.skip(1))
    }
}

impl View for Json {
    type V = JsonData;

    open spec fn view(&self) -> JsonData {
        data_of(*self)
    }
}

/// What values say is what each of them says.
pub proof fn values_at(items: Seq<Json>)
    ensures
        values_of(items).len() == items.len(),
        forall|i: int| 0 <= i < items.len() ==> #[trigger] values_of(items)[i] == items[i]@,
    decreases items.len(),
{
    if items.len() > 0 {
        let rest = items.skip(1);
        values_at(rest);
        assert forall|i: int| 0 <= i < items.len() implies #[trigger] values_of(items)[i]
            == items[i]@ by {
            if i > 0 {
                assert(values_of(items)[i] == values_of(rest)[i - 1]);
            }
        }
    }
}

/// What entries say is what each of them says.
proof fn entries_at(entries: Seq<(String, Json)>)
    ensures
        entries_of(entries).len() == entries.len(),
        forall|i: int|
            0 <= i < entries.len() ==> #[trigger] entries_of(entries)[i] == (
                entries[i].0@,
                entries[i].1@,
            ),
    decreases entries.len(),
{
    if entries.len() > 0 {
        let rest = entries.skip(1);
        entries_at(rest);
        assert forall|i: int| 0 <= i < entries.len() implies #[trigger] entries_of(entries)[i] == (
            entries[i].0@,
            entries[i].1@,
        ) by {
            if i > 0 {
                assert(entries_of(entries)[i] == entries_of(rest)[i - 1]);
            }
        }
    }
}

/// The first entry from `i` on that has the key.
pub open spec fn entry_from(entries: Seq<(Seq<char>, JsonData)>, key: Seq<char>, i: int) -> Option<
    JsonData,
>
    decreases entries.len() - i,
{
    if i < 0 || i >= entries.len() {
        None
    } else if entries[i].0 == key {
        Some(entries[i].1)
    } else {
        entry_from(entries, key, i + 1)
    }
}

/// The field `key` of an object.
pub open spec fn field(value: JsonData, key: Seq<char>) -> Option<JsonData> {
    match value {
        JsonData::Object(entries) => entry_from(entries, key, 0),
        _ => None,
    }
}

/// A text, if the value is one.
pub open spec fn text_in(value: JsonData) -> Option<Seq<char>> {
    match value {
        JsonData::Text(text) => Some(text),
        _ => None,
    }
}

/// An integer of 64 bits without a sign, if the value is one.
pub open spec fn u64_in(value: JsonData) -> Option<u64> {
    match value {
        JsonData::PosInt(n) => Some(n),
        _ => None,
    }
}

/// An integer of 64 bits with a sign, if the value is one.
pub open spec fn i64_in(value: JsonData) -> Option<i64> {
    match value {
        JsonData::PosInt(n) => if n <= i64::MAX {
            Some(n as i64)
        } else {
            None
        },
        JsonData::NegInt(n) => Some(n),
        _ => None,
    }
}

/// The text of a field, or the empty one.
pub open spec fn text_field(value: JsonData, key: Seq<char>) -> Seq<char> {
    match field(value, key) {
        Some(inner) => match text_in(inner) {
            Some(text) => text,
            None => Seq::empty(),
        },
        None => Seq::empty(),
    }
}

/// The number of a field, or zero.
pub open spec fn u64_field(value: JsonData, key: Seq<char>) -> u64 {
    match field(value, key) {
        Some(inner) => match u64_in(inner) {
            Some(n) => n,
            None => 0,
        },
        None => 0,
    }
}

/// The number of a field, or zero.
pub open spec fn i64_field(value: JsonData, key: Seq<char>) -> i64 {
    match field(value, key) {
        Some(inner) => match i64_in(inner) {
            Some(n) => n,
            None => 0,
        },
        None => 0,
    }
}

/// The items of a field that is an array.
pub open spec fn array_field(value: JsonData, key: Seq<char>) -> Option<Seq<JsonData>> {
    match field(value, key) {
        Some(JsonData::Array(items)) => Some(items),
        _ => None,
    }
}

/// The items of a field that is an array, or none.
pub open spec fn items_of(value: JsonData, key: Seq<char>) -> Seq<JsonData> {
    match array_field(value, key) {
        Some(items) => items,
        None => Seq::empty(),
    }
}

impl Json {
    /// The field `key` of an object.
    pub fn get(&self, key: &str) -> (found: Option<&Json>)
        ensures
            match found {
                Some(inner) => field(self@, key@) == Some(inner@),
                None => field(self@, key@) is None,
            },
    {
        match self {
            Json::Object(entries) => {
                proof {
                    entries_at(entries@);
                }
                let mut i: usize = 0;
                while i < entries.len()
                    invariant
                        i <= entries.len(),
                        entries_of(entries@).len() == entries@.len(),
                        forall|k: int|
                            0 <= k < entries@.len() ==> #[trigger] entries_of(entries@)[k] == (
                                entries@[k].0@,
                                entries@[k].1@,
                            ),
                        field(self@, key@) == entry_from(entries_of(entries@), key@, i as int),
                    decreases entries.len() - i,
                {
                    assert(entries_of(entries@)[i as int].0 == entries@[i as int].0@);
                    if same_text(entries[i].0.as_str(), key) {
                        return Some(&entries[i].1);
                    }
                    i += 1;
                }
                None
            },
            _ => None,
        }
    }

    /// A text, if the value is one.
    pub fn as_str(&self) -> (text: Option<&str>)
        ensures
            match text {
                Some(t) => text_in(self@) == Some(t@),
                None => text_in(self@) is None,
            },
    {
        match self {
            Json::Text(text) => Some(text.as_str()),
            _ => None,
        }
    }

    /// An integer of 64 bits without a sign, if the value is one.
    pub fn as_u64(&self) -> (n: Option<u64>)
        ensures
            n == u64_in(self@),
    {
        match self {
            Json::PosInt(n) => Some(*n),
            _ => None,
        }
    }

    /// An integer of 64 bits with a sign, if the value is one.
    pub fn as_i64(&self) -> (n: Option<i64>)
        ensures
            n == i64_in(self@),
    {
        match self {
            Json::PosInt(n) => if *n <= i64::MAX as u64 {
                Some(*n as i64)
            } else {
                None
            },
            Json::NegInt(n) => Some(*n),
            _ => None,
        }
    }

    /// The items, if the value is an array.
    pub fn as_array(&self) -> (items: Option<&Vec<Json>>)
        ensures
            match items {
                Some(v) => self@ == JsonData::Array(values_of(v@)),
                None => !(self@ is Array),
            },
    {
        match self {
            Json::Array(items) => Some(items),
            _ => None,
        }
    }

    /// The text of a field, or the empty one.
    pub fn text_or_empty(&self, key: &str) -> (text: &str)
        ensures
            text@ == text_field(self@, key@),
    {
        match self.get(key) {
            Some(inner) => match inner.as_str() {
                Some(text) => text,
                None => empty_text(),
            },
            None => empty_text(),
        }
    }

    /// The number of a field, or zero.
    pub fn u64_or_zero(&self, key: &str) -> (n: u64)
        ensures
            n == u64_field(self@, key@),
    {
        match self.get(key) {
            Some(inner) => match inner.as_u64() {
                Some(n) => n,
                None => 0,
            },
            None => 0,
        }
    }

    /// The number of a field, or zero.
    pub fn i64_or_zero(&self, key: &str) -> (n: i64)
        ensures
            n == i64_field(self@, key@),
    {
        match self.get(key) {
            Some(inner) => match inner.as_i64() {
                Some(n) => n,
                None => 0,
            },
            None => 0,
        }
    }

    /// The field `key` of an object, taken out of it.
    pub fn take(self, key: &str) -> (found: Option<Json>)
        ensures
            match found {
                Some(inner) => field(self@, key@) == Some(inner@),
                None => field(self@, key@) is None,
            },
    {
        match self {
            Json::Object(entries) => {
                let mut entries: Vec<(String, Json)> = entries;
                take_entry(&mut entries, key)
            },
            _ => None,
        }
    }

    /// The items of a field that is an array, taken out of it; none where it is no array.
    pub fn take_items(self, key: &str) -> (items: Vec<Json>)
        ensures
            values_of(items@) == items_of(self@, key@),
    {
        match self.take(key) {
            Some(Json::Array(items)) => items,
            _ => Vec::new(),
        }
    }

    /// The items of two fields that are arrays, taken out of them; none where one is no array.
    pub fn take_two(self, first: &str, second: &str) -> (items: (Vec<Json>, Vec<Json>))
        requires
            first@ != second@,
        ensures
            values_of(items.0@) == items_of(self@, first@),
            values_of(items.1@) == items_of(self@, second@),
    {
        match self {
            Json::Object(entries) => {
                let mut entries: Vec<(String, Json)> = entries;
                let ghost whole = entries_of(entries@);
                let a: Vec<Json> = match take_entry(&mut entries, first) {
                    Some(Json::Array(items)) => items,
                    _ => Vec::new(),
                };
                proof {
                    if entries_of(entries@) != whole {
                        let i = choose|i: int|
                            0 <= i < whole.len() && (#[trigger] whole[i]).0 == first@
                                && entries_of(entries@) == whole.remove(i);
                        others_stay(whole, second@, i, 0);
                    }
                }
                let b: Vec<Json> = match take_entry(&mut entries, second) {
                    Some(Json::Array(items)) => items,
                    _ => Vec::new(),
                };
                (a, b)
            },
            _ => (Vec::new(), Vec::new()),
        }
    }
}

/// Without an entry of another key, the entry of a key is found all the same.
proof fn others_stay(entries: Seq<(Seq<char>, JsonData)>, key: Seq<char>, i: int, from: int)
    requires
        0 <= i < entries.len(),
        entries[i].0 != key,
        0 <= from <= i,
    ensures
        entry_from(entries.remove(i), key, from) == entry_from(entries, key, from),
    decreases i - from,
{
    let rest = entries.remove(i);
    if from < i {
        assert(rest[from] == entries[from]);
        others_stay(entries, key, i, from + 1);
    } else {
        behind_stays(entries, key, i, i);
    }
}

/// What stands behind an entry is found without it one place earlier.
proof fn behind_stays(entries: Seq<(Seq<char>, JsonData)>, key: Seq<char>, i: int, from: int)
    requires
        0 <= i < entries.len(),
        i <= from < entries.len(),
    ensures
        entry_from(entries.remove(i), key, from) == entry_from(entries, key, from + 1),
    decreases entries.len() - from,
{
    let rest = entries.remove(i);
    if from < rest.len() {
        assert(rest[from] == entries[from + 1]);
        behind_stays(entries, key, i, from + 1);
    }
}

/// What entries say without one of them.
proof fn entries_without(entries: Seq<(String, Json)>, i: int)
    requires
        0 <= i < entries.len(),
    ensures
        entries_of(entries.remove(i)) == entries_of(entries).remove(i),
{
    let rest = entries.remove(i);
    entries_at(entries);
    entries_at(rest);
    assert forall|k: int| 0 <= k < rest.len() implies #[trigger] entries_of(rest)[k]
        == entries_of(entries).remove(i)[k] by {
        assert(entries_of(entries)[if k < i { k } else { k + 1 }] == (rest[k].0@, rest[k].1@));
    }
    assert(entries_of(rest) =~= entries_of(entries).remove(i));
}

/// Takes the first entry of a key out, if there is one.
fn take_entry(entries: &mut Vec<(String, Json)>, key: &str) -> (found: Option<Json>)
    ensures
        match found {
            Some(value) => entry_from(entries_of(old(entries)@), key@, 0) == Some(value@),
            None => entry_from(entries_of(old(entries)@), key@, 0) is None,
        },
        entries_of(final(entries)@) == entries_of(old(entries)@) || exists|i: int|
            0 <= i < entries_of(old(entries)@).len() && (#[trigger] entries_of(
                old(entries)@,
            )[i]).0 == key@ && entries_of(final(entries)@) == entries_of(old(entries)@).remove(i),
{
    let mut i: usize = 0;
    let ghost whole = entries_of(entries@);
    proof {
        entries_at(entries@);
    }
    while i < entries.len()
        invariant
            i <= entries.len(),
            entries@ == old(entries)@,
            whole == entries_of(entries@),
            whole.len() == entries@.len(),
            forall|k: int|
                0 <= k < entries@.len() ==> #[trigger] whole[k] == (
                    entries@[k].0@,
                    entries@[k].1@,
                ),
            entry_from(whole, key@, 0) == entry_from(whole, key@, i as int),
        decreases entries.len() - i,
    {
        assert(whole[i as int].0 == entries@[i as int].0@);
        if same_text(entries[i].0.as_str(), key) {
            proof {
                entries_without(entries@, i as int);
            }
            let (_, value) = entries.remove(i);
            return Some(value);
        }
        i += 1;
    }
    None
}

fn empty_text() -> (text: &'static str)
    ensures
        text@ == Seq::<char>::empty(),
{
    proof {
        reveal_strlit("");
    }
    let text: &'static str = "";
    assert(text@ =~= Seq::<char>::empty());
    text
}

} // verus!
