//! Reading TARS fields back.
//!
//! Each reader is described by a spec function from the data and a position to what is read and
//! the position behind it. A field that claims more than there is ends behind the end of the data,
//! where nothing more is read.

use crate::outside::{lossy_text, string_from_utf8, string_from_utf8_lossy};
use crate::string_map::StringMap;
use crate::tars::{type_of, TarsType};
use vstd::prelude::*;
use vstd::slice::slice_subrange;
use vstd::utf8::{decode_utf8, valid_utf8};

verus! {

/// The head at `pos`, and the position behind what was looked at.
pub open spec fn head_at(data: Seq<u8>, pos: int) -> (Option<(u8, TarsType)>, int) {
    if pos >= data.len() {
        (None, pos)
    } else {
        let tag = data[pos] / 16;
        let kind = type_of(data[pos] % 16);
        if tag < 15 {
            match kind {
                Some(t) => (Some((tag, t)), pos + 1),
                None => (None, pos + 1),
            }
        } else if pos + 1 >= data.len() {
            (None, pos + 1)
        } else {
            match kind {
                Some(t) => (Some((data[pos + 1], t)), pos + 2),
                None => (None, pos + 2),
            }
        }
    }
}

/// Two bytes at `pos` as a number.
pub open spec fn u16_at(data: Seq<u8>, pos: int) -> int {
    data[pos] * 0x100 + data[pos + 1]
}

/// Four bytes at `pos` as a number.
pub open spec fn u32_at(data: Seq<u8>, pos: int) -> int {
    u16_at(data, pos) * 0x1_0000 + u16_at(data, pos + 2)
}

/// Eight bytes at `pos` as a number.
pub open spec fn u64_at(data: Seq<u8>, pos: int) -> int {
    u32_at(data, pos) * 0x1_0000_0000 + u32_at(data, pos + 4)
}

/// `n` in two's complement, `modulus` being one past the largest unsigned number of its width.
pub open spec fn signed(n: int, modulus: int) -> int {
    if n >= modulus / 2 {
        n - modulus
    } else {
        n
    }
}

/// The integer behind a head of type `t`.
pub open spec fn int_body(data: Seq<u8>, pos: int, t: TarsType) -> (Option<int>, int) {
    match t {
        TarsType::Zero => (Some(0), pos),
        TarsType::Int8 => if pos < data.len() {
            (Some(signed(data[pos] as int, 0x100)), pos + 1)
        } else {
            (None, pos)
        },
        TarsType::Int16 => if pos + 2 <= data.len() {
            (Some(signed(u16_at(data, pos), 0x1_0000)), pos + 2)
        } else {
            (None, pos)
        },
        TarsType::Int32 => if pos + 4 <= data.len() {
            (Some(signed(u32_at(data, pos), 0x1_0000_0000)), pos + 4)
        } else {
            (None, pos)
        },
        TarsType::Int64 => if pos + 8 <= data.len() {
            (Some(signed(u64_at(data, pos), 0x1_0000_0000_0000_0000)), pos + 8)
        } else {
            (None, pos)
        },
        _ => (None, pos),
    }
}

/// An integer field of at most 32 bits, whatever its tag.
pub open spec fn int32_at(data: Seq<u8>, pos: int) -> (Option<int>, int) {
    match head_at(data, pos) {
        (Some((_, t)), p) if t != TarsType::Int64 => int_body(data, p, t),
        (_, p) => (None, p),
    }
}

/// A length or a count as an unsigned number of 64 bits.
pub open spec fn count_of(n: int) -> int {
    if n < 0 {
        n + 0x1_0000_0000_0000_0000
    } else {
        n
    }
}

/// `pos`, held behind the data to the largest position that can be counted.
pub open spec fn reached(data: Seq<u8>, pos: int) -> int {
    if pos > data.len() && pos > usize::MAX {
        usize::MAX as int
    } else {
        pos
    }
}

/// How much stands at and behind `pos`.
pub open spec fn rest_len(data: Seq<u8>, pos: int) -> int {
    if pos < data.len() {
        data.len() - pos
    } else {
        0
    }
}

/// Whether the field behind a head of type `t` can be passed over, and where that ends.
pub open spec fn skipped(data: Seq<u8>, pos: int, t: TarsType) -> (bool, int)
    decreases rest_len(data, pos), 1int,
{
    match t {
        TarsType::Int8 => (true, reached(data, pos + 1)),
        TarsType::Int16 => (true, reached(data, pos + 2)),
        TarsType::Int32 => (true, reached(data, pos + 4)),
        TarsType::Int64 => (true, reached(data, pos + 8)),
        TarsType::String1 => if pos < data.len() {
            (true, reached(data, pos + 1 + data[pos]))
        } else {
            (false, pos)
        },
        TarsType::String4 => if pos + 4 <= data.len() {
            (true, reached(data, pos + 4 + u32_at(data, pos)))
        } else {
            (false, pos)
        },
        TarsType::Mapping => match int32_at(data, pos) {
            (Some(n), p) => skipped_items(data, p, 2 * count_of(n)),
            (None, p) => (false, p),
        },
        TarsType::List => match int32_at(data, pos) {
            (Some(n), p) => skipped_items(data, p, count_of(n)),
            (None, p) => (false, p),
        },
        TarsType::Bytes => match head_at(data, pos) {
            (Some(_), p) => match int32_at(data, p) {
                (Some(n), q) => (true, reached(data, q + count_of(n))),
                (None, q) => (false, q),
            },
            (None, p) => (false, p),
        },
        TarsType::StructBegin => skipped_struct(data, pos),
        TarsType::StructEnd | TarsType::Zero => (true, pos),
    }
}

/// Whether `count` fields can be passed over, and where that ends.
pub open spec fn skipped_items(data: Seq<u8>, pos: int, count: int) -> (bool, int)
    decreases rest_len(data, pos), 0int,
{
    if count <= 0 {
        (true, pos)
    } else {
        match head_at(data, pos) {
            (Some((_, t)), p) => {
                let (ok, q) = skipped(data, p, t);
                if ok && p <= q {
                    skipped_items(data, q, count - 1)
                } else {
                    (false, q)
                }
            },
            (None, p) => (false, p),
        }
    }
}

/// Whether the structure that `pos` stands in is closed, and where it ends.
pub open spec fn skipped_struct(data: Seq<u8>, pos: int) -> (bool, int)
    decreases rest_len(data, pos), 0int,
{
    match head_at(data, pos) {
        (Some((_, t)), p) => if t == TarsType::StructEnd {
            (true, p)
        } else {
            let (ok, q) = skipped(data, p, t);
            if ok && p <= q {
                skipped_struct(data, q)
            } else {
                (false, q)
            }
        },
        (None, p) => (false, p),
    }
}

/// Passing over a field never moves back.
pub proof fn skipped_bounds(data: Seq<u8>, pos: int, t: TarsType)
    requires
        0 <= pos <= usize::MAX,
        data.len() <= usize::MAX,
    ensures
        pos <= skipped(data, pos, t).1 <= usize::MAX,
    decreases rest_len(data, pos), 1int,
{
    match t {
        TarsType::Mapping => {
            if let (Some(n), p) = int32_at(data, pos) {
                skipped_items_bounds(data, p, 2 * count_of(n));
            }
        },
        TarsType::List => {
            if let (Some(n), p) = int32_at(data, pos) {
                skipped_items_bounds(data, p, count_of(n));
            }
        },
        TarsType::StructBegin => {
            skipped_struct_bounds(data, pos);
        },
        _ => {},
    }
}

proof fn skipped_items_bounds(data: Seq<u8>, pos: int, count: int)
    requires
        0 <= pos <= usize::MAX,
        data.len() <= usize::MAX,
    ensures
        pos <= skipped_items(data, pos, count).1 <= usize::MAX,
    decreases rest_len(data, pos), 0int,
{
    if count > 0 {
        if let (Some((_, t)), p) = head_at(data, pos) {
            skipped_bounds(data, p, t);
            let (ok, q) = skipped(data, p, t);
            if ok {
                skipped_items_bounds(data, q, count - 1);
            }
        }
    }
}

proof fn skipped_struct_bounds(data: Seq<u8>, pos: int)
    requires
        0 <= pos <= usize::MAX,
        data.len() <= usize::MAX,
    ensures
        pos <= skipped_struct(data, pos).1 <= usize::MAX,
    decreases rest_len(data, pos), 0int,
{
    if let (Some((_, t)), p) = head_at(data, pos) {
        if t != TarsType::StructEnd {
            skipped_bounds(data, p, t);
            let (ok, q) = skipped(data, p, t);
            if ok {
                skipped_struct_bounds(data, q);
            }
        }
    }
}

/// Whether a field of tag `target` stands at or behind `pos`, in the structure of `pos` and
/// before any higher tag, and where the search ended.
pub open spec fn sought(data: Seq<u8>, pos: int, target: u8) -> (bool, int)
    decreases rest_len(data, pos),
{
    match head_at(data, pos) {
        (Some((tag, t)), p) => if t == TarsType::StructEnd || tag > target {
            (false, pos)
        } else if tag == target {
            (true, pos)
        } else {
            let (ok, q) = skipped(data, p, t);
            if ok && p <= q {
                sought(data, q, target)
            } else {
                (false, q)
            }
        },
        (None, _) => (false, pos),
    }
}

/// The integer field of tag `tag`, of at most 64 bits.
pub open spec fn int64_field_at(data: Seq<u8>, pos: int, tag: u8) -> (Option<int>, int) {
    match sought(data, pos, tag) {
        (true, p) => match head_at(data, p) {
            (Some((_, t)), q) => int_body(data, q, t),
            (None, q) => (None, q),
        },
        (false, p) => (None, p),
    }
}

/// The integer field of tag `tag`, of at most 32 bits.
pub open spec fn int32_field_at(data: Seq<u8>, pos: int, tag: u8) -> (Option<int>, int) {
    match sought(data, pos, tag) {
        (true, p) => int32_at(data, p),
        (false, p) => (None, p),
    }
}

/// The raw text behind a head of type `t`.
pub open spec fn string_body(data: Seq<u8>, pos: int, t: TarsType) -> (Option<Seq<u8>>, int) {
    match t {
        TarsType::String1 => if pos >= data.len() {
            (None, pos)
        } else if pos + 1 + data[pos] > data.len() {
            (None, pos + 1)
        } else {
            (Some(data.subrange(pos + 1, pos + 1 + data[pos])), pos + 1 + data[pos])
        },
        TarsType::String4 => if pos + 4 > data.len() {
            (None, pos)
        } else if pos + 4 + u32_at(data, pos) > data.len() {
            (None, pos + 4)
        } else {
            (
                Some(data.subrange(pos + 4, pos + 4 + u32_at(data, pos))),
                pos + 4 + u32_at(data, pos),
            )
        },
        _ => (None, pos),
    }
}

/// The raw text of the field of tag `tag`.
pub open spec fn string_field_at(data: Seq<u8>, pos: int, tag: u8) -> (Option<Seq<u8>>, int) {
    match sought(data, pos, tag) {
        (true, p) => match head_at(data, p) {
            (Some((_, t)), q) => string_body(data, q, t),
            (None, q) => (None, q),
        },
        (false, p) => (None, p),
    }
}

/// The bytes behind the head of a field of bytes.
pub open spec fn bytes_body(data: Seq<u8>, pos: int) -> (Option<Seq<u8>>, int) {
    match head_at(data, pos) {
        (Some(_), p) => match int32_at(data, p) {
            (Some(n), q) => if n < 0 || q + n > data.len() {
                (None, q)
            } else {
                (Some(data.subrange(q, q + n)), q + n)
            },
            (None, q) => (None, q),
        },
        (None, p) => (None, p),
    }
}

/// The bytes of the field of tag `tag`.
pub open spec fn bytes_field_at(data: Seq<u8>, pos: int, tag: u8) -> (Option<Seq<u8>>, int) {
    match sought(data, pos, tag) {
        (true, p) => match head_at(data, p) {
            (Some((_, TarsType::Bytes)), q) => bytes_body(data, q),
            (_, q) => (None, q),
        },
        (false, p) => (None, p),
    }
}

/// One entry of a map from text to bytes: its raw key and its value.
pub open spec fn entry_at(data: Seq<u8>, pos: int) -> (Option<(Seq<u8>, Seq<u8>)>, int) {
    match head_at(data, pos) {
        (Some((_, t)), p) => match string_body(data, p, t) {
            (Some(key), q) => match head_at(data, q) {
                (Some((_, TarsType::Bytes)), r) => match bytes_body(data, r) {
                    (Some(value), s) => (Some((key, value)), s),
                    (None, s) => (None, s),
                },
                (_, r) => (None, r),
            },
            (None, q) => (None, q),
        },
        (None, p) => (None, p),
    }
}

/// `count` entries, put into `map` one after the other.
pub open spec fn entries_at(
    data: Seq<u8>,
    pos: int,
    count: int,
    map: Map<Seq<char>, Seq<u8>>,
) -> (Option<Map<Seq<char>, Seq<u8>>>, int)
    decreases count,
{
    if count <= 0 {
        (Some(map), pos)
    } else {
        match entry_at(data, pos) {
            (Some((key, value)), p) => entries_at(
                data,
                p,
                count - 1,
                map.insert(lossy_text(key), value),
            ),
            (None, p) => (None, p),
        }
    }
}

/// The map of tag `tag`.
pub open spec fn byte_map_at(data: Seq<u8>, pos: int, tag: u8) -> (
    Option<Map<Seq<char>, Seq<u8>>>,
    int,
) {
    match sought(data, pos, tag) {
        (true, p) => match head_at(data, p) {
            (Some((_, TarsType::Mapping)), q) => match int32_at(data, q) {
                (Some(n), r) => entries_at(data, r, count_of(n), Map::empty()),
                (None, r) => (None, r),
            },
            (_, q) => (None, q),
        },
        (false, p) => (None, p),
    }
}

/// A structure of tag `tag`: whether there is one, and where its fields begin.
pub open spec fn struct_at(data: Seq<u8>, pos: int, tag: u8) -> (bool, int) {
    match sought(data, pos, tag) {
        (true, p) => match head_at(data, p) {
            (Some((_, t)), q) => (t == TarsType::StructBegin, q),
            (None, q) => (false, q),
        },
        (false, p) => (false, p),
    }
}

/// A position in encoded data.
pub struct TarsInputStream<'a> {
    pub data: &'a [u8],
    pub pos: usize,
}

impl<'a> TarsInputStream<'a> {
    /// `self` is `before`, moved to `pos`.
    pub open spec fn moved(&self, before: &Self, pos: int) -> bool {
        &&& self.data@ == before.data@
        &&& self.pos == pos
    }

    pub fn new(data: &'a [u8]) -> (input: Self)
        ensures
            input.data@ == data@,
            input.pos == 0,
    {
        TarsInputStream { data, pos: 0 }
    }

    /// The next head, without moving.
    pub fn peek_head(&self) -> (head: Option<(u8, TarsType)>)
        ensures
            head == head_at(self.data@, self.pos as int).0,
    {
        if self.pos >= self.data.len() {
            return None;
        }
        let byte: u8 = self.data[self.pos];
        let mut tag: u8 = byte / 16;
        if tag >= 15 {
            if self.data.len() - self.pos <= 1 {
                return None;
            }
            tag = self.data[self.pos + 1];
        }
        match TarsType::from_u8(byte % 16) {
            Some(t) => Some((tag, t)),
            None => None,
        }
    }

    pub fn read_head(&mut self) -> (head: Option<(u8, TarsType)>)
        ensures
            head == head_at(old(self).data@, old(self).pos as int).0,
            final(self).moved(old(self), head_at(old(self).data@, old(self).pos as int).1),
    {
        if self.pos >= self.data.len() {
            return None;
        }
        let byte: u8 = self.data[self.pos];
        let mut tag: u8 = byte / 16;
        self.pos += 1;
        if tag >= 15 {
            if self.pos >= self.data.len() {
                return None;
            }
            tag = self.data[self.pos];
            self.pos += 1;
        }
        match TarsType::from_u8(byte % 16) {
            Some(t) => Some((tag, t)),
            None => None,
        }
    }

    /// Moves on by `count`.
    fn advance(&mut self, count: u64)
        ensures
            final(self).moved(old(self), reached(old(self).data@, old(self).pos + count)),
    {
        assert(self.data.len() <= usize::MAX);
        let room: usize = usize::MAX - self.pos;
        if count > room as u64 {
            self.pos = usize::MAX;
        } else {
            self.pos += count as usize;
        }
    }

    /// How many bytes are left.
    fn rest(&self) -> (rest: usize)
        ensures
            rest == rest_len(self.data@, self.pos as int),
            self.data@.len() <= usize::MAX,
    {
        if self.pos < self.data.len() {
            self.data.len() - self.pos
        } else {
            0
        }
    }

    fn u16_here(&self) -> (n: u16)
        requires
            self.pos + 2 <= self.data@.len(),
        ensures
            n == u16_at(self.data@, self.pos as int),
    {
        self.data[self.pos] as u16 * 0x100 + self.data[self.pos + 1] as u16
    }

    fn u32_here(&self) -> (n: u32)
        requires
            self.pos + 4 <= self.data@.len(),
        ensures
            n == u32_at(self.data@, self.pos as int),
    {
        (self.data[self.pos] as u32 * 0x100 + self.data[self.pos + 1] as u32) * 0x1_0000 + (
        self.data[self.pos + 2] as u32 * 0x100 + self.data[self.pos + 3] as u32)
    }

    fn u64_here(&self) -> (n: u64)
        requires
            self.pos + 8 <= self.data@.len(),
        ensures
            n == u64_at(self.data@, self.pos as int),
    {
        assert(self.data.len() <= usize::MAX);
        let high: u32 = self.u32_here();
        let low = TarsInputStream { data: self.data, pos: self.pos + 4 };
        let low_part: u32 = low.u32_here();
        high as u64 * 0x1_0000_0000 + low_part as u64
    }

    /// The integer behind a head of type `t`.
    fn read_int_body(&mut self, t: TarsType) -> (value: Option<i64>)
        ensures
            final(self).moved(old(self), int_body(old(self).data@, old(self).pos as int, t).1),
            match int_body(old(self).data@, old(self).pos as int, t).0 {
                Some(n) => value is Some && value->0 == n,
                None => value is None,
            },
    {
        let rest: usize = self.rest();
        match t {
            TarsType::Zero => Some(0),
            TarsType::Int8 => {
                if rest < 1 {
                    return None;
                }
                let n: i64 = self.data[self.pos] as i64;
                self.pos += 1;
                Some(
                    if n >= 0x80 {
                        n - 0x100
                    } else {
                        n
                    },
                )
            },
            TarsType::Int16 => {
                if rest < 2 {
                    return None;
                }
                let n: i64 = self.u16_here() as i64;
                self.pos += 2;
                Some(
                    if n >= 0x8000 {
                        n - 0x1_0000
                    } else {
                        n
                    },
                )
            },
            TarsType::Int32 => {
                if rest < 4 {
                    return None;
                }
                let n: i64 = self.u32_here() as i64;
                self.pos += 4;
                Some(
                    if n >= 0x8000_0000 {
                        n - 0x1_0000_0000
                    } else {
                        n
                    },
                )
            },
            TarsType::Int64 => {
                if rest < 8 {
                    return None;
                }
                let n: u64 = self.u64_here();
                self.pos += 8;
                Some(
                    if n >= 0x8000_0000_0000_0000 {
                        (n as i128 - 0x1_0000_0000_0000_0000) as i64
                    } else {
                        n as i64
                    },
                )
            },
            _ => None,
        }
    }

    /// An integer field of at most 32 bits, whatever its tag.
    pub fn read_int32_internal(&mut self) -> (value: Option<i32>)
        ensures
            final(self).moved(old(self), int32_at(old(self).data@, old(self).pos as int).1),
            match int32_at(old(self).data@, old(self).pos as int).0 {
                Some(n) => value is Some && value->0 == n,
                None => value is None,
            },
    {
        match self.read_head() {
            Some((_, t)) => {
                if t == TarsType::Int64 {
                    return None;
                }
                match self.read_int_body(t) {
                    Some(n) => Some(n as i32),
                    None => None,
                }
            },
            None => None,
        }
    }

    /// Passes over the field behind a head of type `tars_type`.
    pub fn skip_field(&mut self, tars_type: TarsType) -> (done: Option<()>)
        ensures
            done is Some == skipped(old(self).data@, old(self).pos as int, tars_type).0,
            final(self).moved(
                old(self),
                skipped(old(self).data@, old(self).pos as int, tars_type).1,
            ),
        decreases rest_len(old(self).data@, old(self).pos as int), 1int,
    {
        match tars_type {
            TarsType::Int8 => {
                self.advance(1);
                Some(())
            },
            TarsType::Int16 => {
                self.advance(2);
                Some(())
            },
            TarsType::Int32 => {
                self.advance(4);
                Some(())
            },
            TarsType::Int64 => {
                self.advance(8);
                Some(())
            },
            TarsType::String1 => {
                if self.pos >= self.data.len() {
                    return None;
                }
                let length: u64 = self.data[self.pos] as u64;
                self.advance(1 + length);
                Some(())
            },
            TarsType::String4 => {
                if self.rest() < 4 {
                    return None;
                }
                let length: u64 = self.u32_here() as u64;
                self.advance(4 + length);
                Some(())
            },
            TarsType::Mapping => match self.read_int32_internal() {
                Some(size) => self.skip_items(2 * unsigned_count(size) as u128),
                None => None,
            },
            TarsType::List => match self.read_int32_internal() {
                Some(size) => self.skip_items(unsigned_count(size) as u128),
                None => None,
            },
            TarsType::Bytes => match self.read_head() {
                Some(_) => match self.read_int32_internal() {
                    Some(size) => {
                        self.advance(unsigned_count(size));
                        Some(())
                    },
                    None => None,
                },
                None => None,
            },
            TarsType::StructBegin => self.skip_to_struct_end(),
            TarsType::StructEnd | TarsType::Zero => Some(()),
        }
    }

    /// Passes over `count` fields with their heads.
    fn skip_items(&mut self, count: u128) -> (done: Option<()>)
        ensures
            done is Some == skipped_items(old(self).data@, old(self).pos as int, count as int).0,
            final(self).moved(
                old(self),
                skipped_items(old(self).data@, old(self).pos as int, count as int).1,
            ),
        decreases rest_len(old(self).data@, old(self).pos as int), 0int,
    {
        let mut left: u128 = count;
        while left > 0
            invariant
                self.data@ == old(self).data@,
                old(self).pos <= self.pos,
                left <= count,
                skipped_items(old(self).data@, old(self).pos as int, count as int)
                    == skipped_items(self.data@, self.pos as int, left as int),
            decreases left,
        {
            match self.read_head() {
                Some((_, t)) => {
                    let ghost start = self.pos as int;
                    proof {
                        assert(self.data.len() <= usize::MAX);
                        skipped_bounds(self.data@, start, t);
                    }
                    if self.skip_field(t).is_none() {
                        return None;
                    }
                },
                None => {
                    return None;
                },
            }
            left -= 1;
        }
        Some(())
    }

    /// Passes over the fields of the current structure and its end.
    pub fn skip_to_struct_end(&mut self) -> (done: Option<()>)
        ensures
            done is Some == skipped_struct(old(self).data@, old(self).pos as int).0,
            final(self).moved(old(self), skipped_struct(old(self).data@, old(self).pos as int).1),
        decreases rest_len(old(self).data@, old(self).pos as int), 0int,
    {
        loop
            invariant
                self.data@ == old(self).data@,
                old(self).pos <= self.pos,
                skipped_struct(old(self).data@, old(self).pos as int) == skipped_struct(
                    self.data@,
                    self.pos as int,
                ),
            decreases rest_len(self.data@, self.pos as int),
        {
            match self.read_head() {
                Some((_, t)) => {
                    if t == TarsType::StructEnd {
                        return Some(());
                    }
                    let ghost start = self.pos as int;
                    proof {
                        assert(self.data.len() <= usize::MAX);
                        skipped_bounds(self.data@, start, t);
                    }
                    if self.skip_field(t).is_none() {
                        return None;
                    }
                },
                None => {
                    return None;
                },
            }
        }
    }

    /// Moves to the field of tag `target_tag`, if the current structure has one ahead.
    pub fn skip_to_tag(&mut self, target_tag: u8) -> (found: bool)
        ensures
            found == sought(old(self).data@, old(self).pos as int, target_tag).0,
            final(self).moved(
                old(self),
                sought(old(self).data@, old(self).pos as int, target_tag).1,
            ),
    {
        while self.pos < self.data.len()
            invariant
                self.data@ == old(self).data@,
                sought(old(self).data@, old(self).pos as int, target_tag) == sought(
                    self.data@,
                    self.pos as int,
                    target_tag,
                ),
            decreases rest_len(self.data@, self.pos as int),
        {
            match self.peek_head() {
                Some((tag, t)) => {
                    if t == TarsType::StructEnd {
                        return false;
                    }
                    if tag == target_tag {
                        return true;
                    }
                    if tag > target_tag {
                        return false;
                    }
                    let _ = self.read_head();
                    let ghost start = self.pos as int;
                    proof {
                        assert(self.data.len() <= usize::MAX);
                        skipped_bounds(self.data@, start, t);
                    }
                    if self.skip_field(t).is_none() {
                        return false;
                    }
                },
                None => {
                    return false;
                },
            }
        }
        false
    }

    /// The integer field of tag `tag`, of at most 64 bits.
    pub fn read_int64_at(&mut self, tag: u8) -> (value: Option<i64>)
        ensures
            final(self).moved(
                old(self),
                int64_field_at(old(self).data@, old(self).pos as int, tag).1,
            ),
            match int64_field_at(old(self).data@, old(self).pos as int, tag).0 {
                Some(n) => value is Some && value->0 == n,
                None => value is None,
            },
    {
        if !self.skip_to_tag(tag) {
            return None;
        }
        match self.read_head() {
            Some((_, t)) => self.read_int_body(t),
            None => None,
        }
    }

    /// The integer field of tag `tag`, of at most 32 bits.
    pub fn read_int32_at(&mut self, tag: u8) -> (value: Option<i32>)
        ensures
            final(self).moved(
                old(self),
                int32_field_at(old(self).data@, old(self).pos as int, tag).1,
            ),
            match int32_field_at(old(self).data@, old(self).pos as int, tag).0 {
                Some(n) => value is Some && value->0 == n,
                None => value is None,
            },
    {
        if !self.skip_to_tag(tag) {
            return None;
        }
        self.read_int32_internal()
    }

    /// The raw text behind a head of type `t`.
    fn read_string_body(&mut self, t: TarsType) -> (bytes: Option<&'a [u8]>)
        ensures
            final(self).moved(old(self), string_body(old(self).data@, old(self).pos as int, t).1),
            match string_body(old(self).data@, old(self).pos as int, t).0 {
                Some(raw) => bytes is Some && (bytes->0)@ == raw,
                None => bytes is None,
            },
    {
        let length: usize = match t {
            TarsType::String1 => {
                if self.pos >= self.data.len() {
                    return None;
                }
                let length: usize = self.data[self.pos] as usize;
                self.pos += 1;
                length
            },
            TarsType::String4 => {
                if self.rest() < 4 {
                    return None;
                }
                let length: usize = self.u32_here() as usize;
                self.pos += 4;
                length
            },
            _ => {
                return None;
            },
        };
        if length > self.rest() {
            return None;
        }
        let bytes = slice_subrange(self.data, self.pos, self.pos + length);
        self.pos += length;
        Some(bytes)
    }

    /// The raw text of the field of tag `tag`.
    fn read_raw_string_at(&mut self, tag: u8) -> (bytes: Option<&'a [u8]>)
        ensures
            final(self).moved(
                old(self),
                string_field_at(old(self).data@, old(self).pos as int, tag).1,
            ),
            match string_field_at(old(self).data@, old(self).pos as int, tag).0 {
                Some(raw) => bytes is Some && (bytes->0)@ == raw,
                None => bytes is None,
            },
    {
        if !self.skip_to_tag(tag) {
            return None;
        }
        match self.read_head() {
            Some((_, t)) => self.read_string_body(t),
            None => None,
        }
    }

    /// The text of the field of tag `tag`. Bytes that are not UTF-8 are replaced.
    pub fn read_string_at(&mut self, tag: u8) -> (text: Option<String>)
        ensures
            final(self).moved(
                old(self),
                string_field_at(old(self).data@, old(self).pos as int, tag).1,
            ),
            match string_field_at(old(self).data@, old(self).pos as int, tag).0 {
                Some(raw) => text is Some && (text->0)@ == lossy_text(raw),
                None => text is None,
            },
    {
        match self.read_raw_string_at(tag) {
            Some(bytes) => Some(string_from_utf8_lossy(bytes)),
            None => None,
        }
    }

    /// The text of the field of tag `tag`, if it is UTF-8.
    pub fn read_utf8_at(&mut self, tag: u8) -> (text: Option<String>)
        ensures
            final(self).moved(
                old(self),
                string_field_at(old(self).data@, old(self).pos as int, tag).1,
            ),
            match string_field_at(old(self).data@, old(self).pos as int, tag).0 {
                Some(raw) => {
                    &&& text is Some == valid_utf8(raw)
                    &&& text is Some ==> (text->0)@ == decode_utf8(raw)
                },
                None => text is None,
            },
    {
        match self.read_raw_string_at(tag) {
            Some(bytes) => match string_from_utf8(bytes) {
                Ok(text) => Some(text),
                Err(_) => None,
            },
            None => None,
        }
    }

    /// The bytes behind the head of a field of bytes.
    fn read_bytes_body(&mut self) -> (bytes: Option<Vec<u8>>)
        ensures
            final(self).moved(old(self), bytes_body(old(self).data@, old(self).pos as int).1),
            match bytes_body(old(self).data@, old(self).pos as int).0 {
                Some(raw) => bytes is Some && (bytes->0)@ == raw,
                None => bytes is None,
            },
    {
        if self.read_head().is_none() {
            return None;
        }
        match self.read_int32_internal() {
            Some(size) => {
                if size < 0 || size as usize > self.rest() {
                    return None;
                }
                let length: usize = size as usize;
                let bytes = vstd::slice::slice_to_vec(
                    slice_subrange(self.data, self.pos, self.pos + length),
                );
                self.pos += length;
                Some(bytes)
            },
            None => None,
        }
    }

    /// The bytes of the field of tag `tag`.
    pub fn read_bytes_at(&mut self, tag: u8) -> (bytes: Option<Vec<u8>>)
        ensures
            final(self).moved(
                old(self),
                bytes_field_at(old(self).data@, old(self).pos as int, tag).1,
            ),
            match bytes_field_at(old(self).data@, old(self).pos as int, tag).0 {
                Some(raw) => bytes is Some && (bytes->0)@ == raw,
                None => bytes is None,
            },
    {
        if !self.skip_to_tag(tag) {
            return None;
        }
        match self.read_head() {
            Some((_, t)) => {
                if t == TarsType::Bytes {
                    self.read_bytes_body()
                } else {
                    None
                }
            },
            None => None,
        }
    }

    /// One entry of a map from text to bytes.
    fn read_entry(&mut self) -> (entry: Option<(String, Vec<u8>)>)
        ensures
            final(self).moved(old(self), entry_at(old(self).data@, old(self).pos as int).1),
            match entry_at(old(self).data@, old(self).pos as int).0 {
                Some((key, value)) => {
                    &&& entry is Some
                    &&& (entry->0).0@ == lossy_text(key)
                    &&& (entry->0).1@ == value
                },
                None => entry is None,
            },
    {
        let key: String = match self.read_head() {
            Some((_, t)) => match self.read_string_body(t) {
                Some(bytes) => string_from_utf8_lossy(bytes),
                None => {
                    return None;
                },
            },
            None => {
                return None;
            },
        };
        match self.read_head() {
            Some((_, t)) => {
                if t != TarsType::Bytes {
                    return None;
                }
                match self.read_bytes_body() {
                    Some(value) => Some((key, value)),
                    None => None,
                }
            },
            None => None,
        }
    }

    /// The map from text to bytes of tag `tag`. Of entries with one key the last counts.
    pub fn read_map_string_bytes_at(&mut self, tag: u8) -> (map: Option<StringMap<Vec<u8>>>)
        ensures
            final(self).moved(old(self), byte_map_at(old(self).data@, old(self).pos as int, tag).1),
            match byte_map_at(old(self).data@, old(self).pos as int, tag).0 {
                Some(entries) => map is Some && (map->0).wf() && (map->0)@ == entries,
                None => map is None,
            },
    {
        if !self.skip_to_tag(tag) {
            return None;
        }
        match self.read_head() {
            Some((_, t)) => {
                if t != TarsType::Mapping {
                    return None;
                }
            },
            None => {
                return None;
            },
        }
        let size: u64 = match self.read_int32_internal() {
            Some(n) => unsigned_count(n),
            None => {
                return None;
            },
        };
        let ghost start = self.pos as int;
        let mut map: StringMap<Vec<u8>> = StringMap::new();
        let mut left: u64 = size;
        while left > 0
            invariant
                self.data@ == old(self).data@,
                map.wf(),
                left <= size,
                entries_at(self.data@, start, size as int, Map::empty()) == entries_at(
                    self.data@,
                    self.pos as int,
                    left as int,
                    map@,
                ),
                byte_map_at(old(self).data@, old(self).pos as int, tag) == entries_at(
                    self.data@,
                    start,
                    size as int,
                    Map::empty(),
                ),
            decreases left,
        {
            match self.read_entry() {
                Some((key, value)) => {
                    map.insert(key, value);
                },
                None => {
                    return None;
                },
            }
            left -= 1;
        }
        Some(map)
    }

    /// Steps into the structure of tag `tag`.
    pub fn enter_struct(&mut self, tag: u8) -> (entered: bool)
        ensures
            final(self).moved(old(self), struct_at(old(self).data@, old(self).pos as int, tag).1),
            entered == struct_at(old(self).data@, old(self).pos as int, tag).0,
    {
        if !self.skip_to_tag(tag) {
            return false;
        }
        match self.read_head() {
            Some((_, t)) => t == TarsType::StructBegin,
            None => false,
        }
    }
}

/// A length or a count as an unsigned number of 64 bits.
fn unsigned_count(n: i32) -> (count: u64)
    ensures
        count == count_of(n as int),
{
    if n < 0 {
        (n as i128 + 0x1_0000_0000_0000_0000) as u64
    } else {
        n as u64
    }
}

} // verus!
