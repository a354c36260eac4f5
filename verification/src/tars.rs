//! The TARS binary encoding: tagged fields, written and read.

use crate::string_map::StringMap;
use vstd::prelude::*;
use vstd::utf8::encode_utf8;

verus! {

/// What a field holds, as its head says.
#[derive(Debug, Clone, Copy, PartialEq, Eq, Structural)]
pub enum TarsType {
    Int8,
    Int16,
    Int32,
    Int64,
    String1,
    String4,
    Mapping,
    List,
    StructBegin,
    StructEnd,
    Zero,
    Bytes,
}

/// The type that stands for `code` in a head.
pub open spec fn type_of(code: u8) -> Option<TarsType> {
    match code {
        0 => Some(TarsType::Int8),
        1 => Some(TarsType::Int16),
        2 => Some(TarsType::Int32),
        3 => Some(TarsType::Int64),
        6 => Some(TarsType::String1),
        7 => Some(TarsType::String4),
        8 => Some(TarsType::Mapping),
        9 => Some(TarsType::List),
        10 => Some(TarsType::StructBegin),
        11 => Some(TarsType::StructEnd),
        12 => Some(TarsType::Zero),
        13 => Some(TarsType::Bytes),
        _ => None,
    }
}

impl TarsType {
    /// The code of the type in a head.
    pub open spec fn spec_code(self) -> u8 {
        match self {
            TarsType::Int8 => 0,
            TarsType::Int16 => 1,
            TarsType::Int32 => 2,
            TarsType::Int64 => 3,
            TarsType::String1 => 6,
            TarsType::String4 => 7,
            TarsType::Mapping => 8,
            TarsType::List => 9,
            TarsType::StructBegin => 10,
            TarsType::StructEnd => 11,
            TarsType::Zero => 12,
            TarsType::Bytes => 13,
        }
    }

    /// The code of the type in a head.
    pub fn code(self) -> (code: u8)
        ensures
            code == self.spec_code(),
            code < 16,
            type_of(code) == Some(self),
    {
        match self {
            TarsType::Int8 => 0,
            TarsType::Int16 => 1,
            TarsType::Int32 => 2,
            TarsType::Int64 => 3,
            TarsType::String1 => 6,
            TarsType::String4 => 7,
            TarsType::Mapping => 8,
            TarsType::List => 9,
            TarsType::StructBegin => 10,
            TarsType::StructEnd => 11,
            TarsType::Zero => 12,
            TarsType::Bytes => 13,
        }
    }

    /// The type that a code stands for.
    pub fn from_u8(v: u8) -> (t: Option<Self>)
        ensures
            t == type_of(v),
    {
        match v {
            0 => Some(TarsType::Int8),
            1 => Some(TarsType::Int16),
            2 => Some(TarsType::Int32),
            3 => Some(TarsType::Int64),
            6 => Some(TarsType::String1),
            7 => Some(TarsType::String4),
            8 => Some(TarsType::Mapping),
            9 => Some(TarsType::List),
            10 => Some(TarsType::StructBegin),
            11 => Some(TarsType::StructEnd),
            12 => Some(TarsType::Zero),
            13 => Some(TarsType::Bytes),
            _ => None,
        }
    }
}

// ---------------------------------------------------------------------------
// The encoding
// ---------------------------------------------------------------------------

/// Two bytes, the high one first.
pub open spec fn be16(n: int) -> Seq<u8> {
    seq![(n / 256 % 256) as u8, (n % 256) as u8]
}

/// Four bytes, the high ones first.
pub open spec fn be32(n: int) -> Seq<u8> {
    be16(n / 0x1_0000) + be16(n % 0x1_0000)
}

/// Eight bytes, the high ones first.
pub open spec fn be64(n: int) -> Seq<u8> {
    be32(n / 0x1_0000_0000) + be32(n % 0x1_0000_0000)
}

/// The head of a field.
pub open spec fn head_bytes(tag: u8, t: TarsType) -> Seq<u8> {
    if tag < 15 {
        seq![(tag * 16 + t.spec_code()) as u8]
    } else {
        seq![(240 + t.spec_code()) as u8, tag]
    }
}

/// An integer field, in the shortest form that holds `v`. Negative numbers are written in two's
/// complement.
pub open spec fn int_field(tag: u8, v: int) -> Seq<u8> {
    if v == 0 {
        head_bytes(tag, TarsType::Zero)
    } else if -0x80 <= v < 0x80 {
        head_bytes(tag, TarsType::Int8) + seq![(v % 0x100) as u8]
    } else if -0x8000 <= v < 0x8000 {
        head_bytes(tag, TarsType::Int16) + be16(v % 0x1_0000)
    } else if -0x8000_0000 <= v < 0x8000_0000 {
        head_bytes(tag, TarsType::Int32) + be32(v % 0x1_0000_0000)
    } else {
        head_bytes(tag, TarsType::Int64) + be64(v % 0x1_0000_0000_0000_0000)
    }
}

/// A text field: its UTF-8 behind a length of one byte, or of four where one is too few.
pub open spec fn string_field(tag: u8, text: Seq<char>) -> Seq<u8> {
    let bytes = encode_utf8(text);
    if bytes.len() <= 255 {
        head_bytes(tag, TarsType::String1) + seq![bytes.len() as u8] + bytes
    } else {
        head_bytes(tag, TarsType::String4) + be32(bytes.len() as int % 0x1_0000_0000) + bytes
    }
}

/// `n` as a signed number of 32 bits.
pub open spec fn wrap_i32(n: int) -> int {
    let low = n % 0x1_0000_0000;
    if low >= 0x8000_0000 {
        low - 0x1_0000_0000
    } else {
        low
    }
}

/// A field of raw bytes: a head for the type of its items, then its length as a field.
pub open spec fn bytes_field(tag: u8, bytes: Seq<u8>) -> Seq<u8> {
    head_bytes(tag, TarsType::Bytes) + head_bytes(0, TarsType::Int8) + int_field(
        0,
        wrap_i32(bytes.len() as int),
    ) + bytes
}

/// The entries of a map from text to bytes, one behind the other.
pub open spec fn byte_entries(pairs: Seq<(Seq<char>, Seq<u8>)>) -> Seq<u8>
    decreases pairs.len(),
{
    if pairs.len() == 0 {
        Seq::empty()
    } else {
        byte_entries(pairs.drop_last()) + string_field(0, pairs.last().0) + bytes_field(
            1,
            pairs.last().1,
        )
    }
}

/// A map from text to bytes.
pub open spec fn byte_map_field(tag: u8, pairs: Seq<(Seq<char>, Seq<u8>)>) -> Seq<u8> {
    head_bytes(tag, TarsType::Mapping) + int_field(0, wrap_i32(pairs.len() as int)) + byte_entries(
        pairs,
    )
}

/// The entries of a map from text to text, one behind the other.
pub open spec fn text_entries(pairs: Seq<(Seq<char>, Seq<char>)>) -> Seq<u8>
    decreases pairs.len(),
{
    if pairs.len() == 0 {
        Seq::empty()
    } else {
        text_entries(pairs.drop_last()) + string_field(0, pairs.last().0) + string_field(
            1,
            pairs.last().1,
        )
    }
}

/// A map from text to text.
pub open spec fn text_map_field(tag: u8, pairs: Seq<(Seq<char>, Seq<char>)>) -> Seq<u8> {
    head_bytes(tag, TarsType::Mapping) + int_field(0, wrap_i32(pairs.len() as int)) + text_entries(
        pairs,
    )
}

// ---------------------------------------------------------------------------
// Writing
// ---------------------------------------------------------------------------

/// Fields written one behind the other. Its view is what has been written.
#[derive(Debug)]
pub struct TarsOutputStream {
    buffer: Vec<u8>,
}

impl View for TarsOutputStream {
    type V = Seq<u8>;

    closed spec fn view(&self) -> Seq<u8> {
        self.buffer@
    }
}

/// Putting behind one another does not depend on how it is grouped.
proof fn grouped(a: Seq<u8>, b: Seq<u8>, c: Seq<u8>)
    ensures
        a + b + c == a + (b + c),
{
    assert(a + b + c =~= a + (b + c));
}

impl TarsOutputStream {
    pub fn new() -> (out: Self)
        ensures
            out@ == Seq::<u8>::empty(),
    {
        TarsOutputStream { buffer: Vec::new() }
    }

    pub fn get_buffer(&self) -> (bytes: &[u8])
        ensures
            bytes@ == self@,
    {
        self.buffer.as_slice()
    }

    pub fn into_buffer(self) -> (bytes: Vec<u8>)
        ensures
            bytes@ == self@,
    {
        self.buffer
    }

    fn push_be16(&mut self, n: u16)
        ensures
            final(self)@ == old(self)@ + be16(n as int),
    {
        self.buffer.push((n / 256) as u8);
        self.buffer.push((n % 256) as u8);
        assert(self@ =~= old(self)@ + be16(n as int));
    }

    pub(crate) fn push_be32(&mut self, n: u32)
        ensures
            final(self)@ == old(self)@ + be32(n as int),
    {
        self.push_be16((n / 0x1_0000) as u16);
        self.push_be16((n % 0x1_0000) as u16);
        assert(self@ =~= old(self)@ + be32(n as int));
    }

    fn push_be64(&mut self, n: u64)
        ensures
            final(self)@ == old(self)@ + be64(n as int),
    {
        self.push_be32((n / 0x1_0000_0000) as u32);
        self.push_be32((n % 0x1_0000_0000) as u32);
        assert(self@ =~= old(self)@ + be64(n as int));
    }

    pub(crate) fn push_slice(&mut self, bytes: &[u8])
        ensures
            final(self)@ == old(self)@ + bytes@,
    {
        self.buffer.extend_from_slice(bytes);
        assert(self@ =~= old(self)@ + bytes@);
    }

    pub fn write_head(&mut self, tag: u8, tars_type: TarsType)
        ensures
            final(self)@ == old(self)@ + head_bytes(tag, tars_type),
    {
        let code: u8 = tars_type.code();
        if tag < 15 {
            self.buffer.push(tag * 16 + code);
        } else {
            self.buffer.push(240 + code);
            self.buffer.push(tag);
        }
        assert(self@ =~= old(self)@ + head_bytes(tag, tars_type));
    }

    pub fn write_int8(&mut self, tag: u8, value: i8)
        ensures
            final(self)@ == old(self)@ + int_field(tag, value as int),
    {
        if value == 0 {
            self.write_head(tag, TarsType::Zero);
        } else {
            self.write_head(tag, TarsType::Int8);
            let low: u8 = value as u8;
            assert(low == if value < 0 {
                value + 0x100
            } else {
                value as int
            }) by (bit_vector)
                requires
                    low == value as u8,
            ;
            self.buffer.push(low);
            assert(self@ =~= old(self)@ + int_field(tag, value as int));
        }
    }

    pub fn write_int16(&mut self, tag: u8, value: i16)
        ensures
            final(self)@ == old(self)@ + int_field(tag, value as int),
    {
        if value >= -128 && value <= 127 {
            self.write_int8(tag, value as i8);
        } else {
            self.write_head(tag, TarsType::Int16);
            let low: u16 = value as u16;
            assert(low == if value < 0 {
                value + 0x1_0000
            } else {
                value as int
            }) by (bit_vector)
                requires
                    low == value as u16,
            ;
            self.push_be16(low);
            proof {
                assert(low as int == value as int % 0x1_0000);
                grouped(
                    old(self)@,
                    head_bytes(tag, TarsType::Int16),
                    be16(value as int % 0x1_0000),
                );
            }
        }
    }

    pub fn write_int32(&mut self, tag: u8, value: i32)
        ensures
            final(self)@ == old(self)@ + int_field(tag, value as int),
    {
        if value >= -32768 && value <= 32767 {
            self.write_int16(tag, value as i16);
        } else {
            self.write_head(tag, TarsType::Int32);
            let low: u32 = value as u32;
            assert(low == if value < 0 {
                value + 0x1_0000_0000
            } else {
                value as int
            }) by (bit_vector)
                requires
                    low == value as u32,
            ;
            self.push_be32(low);
            proof {
                assert(low as int == value as int % 0x1_0000_0000);
                grouped(
                    old(self)@,
                    head_bytes(tag, TarsType::Int32),
                    be32(value as int % 0x1_0000_0000),
                );
            }
        }
    }

    pub fn write_int64(&mut self, tag: u8, value: i64)
        ensures
            final(self)@ == old(self)@ + int_field(tag, value as int),
    {
        if value >= -0x8000_0000 && value <= 0x7fff_ffff {
            self.write_int32(tag, value as i32);
        } else {
            self.write_head(tag, TarsType::Int64);
            let low: u64 = value as u64;
            assert(low == if value < 0 {
                value + 0x1_0000_0000_0000_0000
            } else {
                value as int
            }) by (bit_vector)
                requires
                    low == value as u64,
            ;
            self.push_be64(low);
            proof {
                assert(low as int == value as int % 0x1_0000_0000_0000_0000);
                grouped(
                    old(self)@,
                    head_bytes(tag, TarsType::Int64),
                    be64(value as int % 0x1_0000_0000_0000_0000),
                );
            }
        }
    }

    /// A flag is an integer of zero or one.
    pub fn write_bool(&mut self, tag: u8, value: bool)
        ensures
            final(self)@ == old(self)@ + int_field(
                tag,
                if value {
                    1
                } else {
                    0
                },
            ),
    {
        self.write_int8(
            tag,
            if value {
                1
            } else {
                0
            },
        );
    }

    pub fn write_string(&mut self, tag: u8, value: &str)
        ensures
            final(self)@ == old(self)@ + string_field(tag, value@),
    {
        let bytes = value.as_bytes();
        if bytes.len() <= 255 {
            self.write_head(tag, TarsType::String1);
            self.buffer.push(bytes.len() as u8);
        } else {
            self.write_head(tag, TarsType::String4);
            let length: u32 = low_u32(bytes.len());
            self.push_be32(length);
        }
        self.push_slice(bytes);
        assert(self@ =~= old(self)@ + string_field(tag, value@));
    }

    pub fn write_bytes(&mut self, tag: u8, value: &[u8])
        ensures
            final(self)@ == old(self)@ + bytes_field(tag, value@),
    {
        self.write_head(tag, TarsType::Bytes);
        self.write_head(0, TarsType::Int8);
        let length: i32 = low_i32(value.len());
        self.write_int32(0, length);
        self.push_slice(value);
        assert(self@ =~= old(self)@ + bytes_field(tag, value@));
    }

    pub fn write_struct_begin(&mut self, tag: u8)
        ensures
            final(self)@ == old(self)@ + head_bytes(tag, TarsType::StructBegin),
    {
        self.write_head(tag, TarsType::StructBegin);
    }

    pub fn write_struct_end(&mut self)
        ensures
            final(self)@ == old(self)@ + head_bytes(0, TarsType::StructEnd),
    {
        self.write_head(0, TarsType::StructEnd);
    }

    /// Writes the entries in the order of their keys.
    pub fn write_map_string_bytes(&mut self, tag: u8, value: &StringMap<Vec<u8>>)
        ensures
            final(self)@ == old(self)@ + byte_map_field(tag, value.pairs()),
    {
        self.write_head(tag, TarsType::Mapping);
        let length: i32 = low_i32(value.len());
        self.write_int32(0, length);
        let ghost start = self@;
        let mut i: usize = 0;
        while i < value.len()
            invariant
                i <= value.pairs().len(),
                self@ == start + byte_entries(value.pairs().take(i as int)),
            decreases value.pairs().len() - i,
        {
            let ghost before = self@;
            self.write_string(0, value.key_at(i));
            self.write_bytes(1, value.value_at(i).as_slice());
            proof {
                let next = value.pairs().take(i + 1);
                assert(next.drop_last() =~= value.pairs().take(i as int));
                assert(next.last() == value.pairs()[i as int]);
                assert(self@ =~= start + byte_entries(next));
            }
            i += 1;
        }
        assert(value.pairs().take(value.pairs().len() as int) =~= value.pairs());
        assert(self@ =~= old(self)@ + byte_map_field(tag, value.pairs()));
    }

    /// Writes the entries in the order of their keys.
    pub fn write_map_string_string(&mut self, tag: u8, value: &StringMap<String>)
        ensures
            final(self)@ == old(self)@ + text_map_field(tag, value.pairs()),
    {
        self.write_head(tag, TarsType::Mapping);
        let length: i32 = low_i32(value.len());
        self.write_int32(0, length);
        let ghost start = self@;
        let mut i: usize = 0;
        while i < value.len()
            invariant
                i <= value.pairs().len(),
                self@ == start + text_entries(value.pairs().take(i as int)),
            decreases value.pairs().len() - i,
        {
            self.write_string(0, value.key_at(i));
            self.write_string(1, value.value_at(i).as_str());
            proof {
                let next = value.pairs().take(i + 1);
                assert(next.drop_last() =~= value.pairs().take(i as int));
                assert(next.last() == value.pairs()[i as int]);
                assert(self@ =~= start + text_entries(next));
            }
            i += 1;
        }
        assert(value.pairs().take(value.pairs().len() as int) =~= value.pairs());
        assert(self@ =~= old(self)@ + text_map_field(tag, value.pairs()));
    }
}

/// The low 32 bits of a length.
pub(crate) fn low_u32(n: usize) -> (low: u32)
    ensures
        low == n as int % 0x1_0000_0000,
{
    let wide: u64 = n as u64;
    let low: u32 = (wide % 0x1_0000_0000) as u32;
    low
}

/// The low 32 bits of a length, read as a signed number.
pub(crate) fn low_i32(n: usize) -> (low: i32)
    ensures
        low == wrap_i32(n as int),
{
    let bits: u32 = low_u32(n);
    signed32(bits)
}

/// A number of 32 bits in two's complement.
fn signed32(bits: u32) -> (value: i32)
    ensures
        value == wrap_i32(bits as int),
{
    if bits < 0x8000_0000 {
        bits as i32
    } else {
        (bits as i64 - 0x1_0000_0000) as i32
    }
}

} // verus!
