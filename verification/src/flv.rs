//! FLV tags: their headers, what their bodies are, and how they are cut out of a byte stream.

use crate::outside_bytes::{buffer_advance, buffer_freeze, buffer_put, buffer_slice, buffer_split, buffer_with_capacity, bytes_copied, contents, pending};
use bytes::{Bytes, BytesMut};
use vstd::prelude::*;
use vstd::slice::slice_subrange;

verus! {

#[derive(Debug, Clone, Copy, PartialEq, Eq, Structural)]
pub enum TagType {
    Audio,
    Video,
    Script,
}

/// The fixed part of an FLV tag that stands before its body.
#[derive(Debug, Clone, Copy, PartialEq, Eq, Structural)]
pub struct TagHeader {
    pub tag_type: TagType,
    pub data_size: u32,
    pub timestamp: u32,
    pub stream_id: u32,
}

/// How much input a parser lacked.
#[derive(Debug, Clone, Copy, PartialEq, Eq, Structural)]
pub enum Needed {
    Unknown,
    Size(usize),
}

/// Why a parser gave up. The texts describe the place.
#[derive(Debug)]
pub enum ParseFailure {
    /// There is too little input.
    Incomplete(Needed),
    /// The input is not what was expected.
    Error(String),
    /// The input is wrong beyond doubt.
    Failure(String),
}

/// Why a recording ended early.
#[derive(Debug)]
pub enum Error {
    /// A part of the stream was cut short.
    NomIncomplete(String, Needed),
    /// A part of the stream could not be read.
    Custom(String),
    /// An AAC tag has no packet header.
    AacHeader,
    /// An AVC tag has no packet header.
    AvcHeader,
    /// The size of the file cannot be counted.
    SizeOverflow,
}

/// Says what was being parsed when a parser gave up.
pub fn map_parse_err<T>(result: Result<T, ParseFailure>, msg: &str) -> (mapped: Result<T, Error>)
    ensures
        match result {
            Ok(value) => mapped == Ok::<T, Error>(value),
            Err(ParseFailure::Incomplete(needed)) => (mapped matches Err(
                Error::NomIncomplete(text, n),
            ) && text@ == msg@ && n == needed),
            Err(ParseFailure::Error(e)) => (mapped matches Err(Error::Custom(text)) && text@
                == "parse "@ + msg@ + " err: "@ + e@),
            Err(ParseFailure::Failure(f)) => (mapped matches Err(Error::Custom(text)) && text@
                == msg@ + " Failure: "@ + f@),
        },
{
    match result {
        Ok(value) => Ok(value),
        Err(ParseFailure::Incomplete(needed)) => Err(Error::NomIncomplete(msg.to_owned(), needed)),
        Err(ParseFailure::Error(e)) => {
            let mut text = "parse ".to_owned();
            text.append(msg);
            text.append(" err: ");
            text.append(e.as_str());
            Err(Error::Custom(text))
        },
        Err(ParseFailure::Failure(f)) => {
            let mut text = msg.to_owned();
            text.append(" Failure: ");
            text.append(f.as_str());
            Err(Error::Custom(text))
        },
    }
}

// ---------------------------------------------------------------------------
// Headers
// ---------------------------------------------------------------------------

/// The length of a tag header.
pub const TAG_HEADER_SIZE: usize = 11;

/// Three bytes at `pos` as a number.
pub open spec fn u24_at(data: Seq<u8>, pos: int) -> int {
    data[pos] * 0x1_0000 + data[pos + 1] * 0x100 + data[pos + 2]
}

/// The type that a tag header begins with.
pub open spec fn tag_type_of(code: u8) -> Option<TagType> {
    if code == 8 {
        Some(TagType::Audio)
    } else if code == 9 {
        Some(TagType::Video)
    } else if code == 18 {
        Some(TagType::Script)
    } else {
        None
    }
}

/// The header that `data` holds, where it is long enough and of a known type. The timestamp's
/// highest byte stands behind its other three.
pub open spec fn header_of(data: Seq<u8>) -> TagHeader {
    TagHeader {
        tag_type: tag_type_of(data[0])->0,
        data_size: u24_at(data, 1) as u32,
        timestamp: (data[7] * 0x100_0000 + u24_at(data, 4)) as u32,
        stream_id: u24_at(data, 8) as u32,
    }
}

fn read_u24(data: &[u8], pos: usize) -> (n: u32)
    requires
        pos + 3 <= data.len(),
    ensures
        n == u24_at(data@, pos as int),
        n < 0x100_0000,
{
    data[pos] as u32 * 0x1_0000 + data[pos + 1] as u32 * 0x100 + data[pos + 2] as u32
}

/// Reads a tag header.
pub fn tag_header(data: &[u8]) -> (header: Result<TagHeader, ParseFailure>)
    ensures
        data@.len() < TAG_HEADER_SIZE ==> header == Err::<TagHeader, ParseFailure>(
            ParseFailure::Incomplete(Needed::Size((TAG_HEADER_SIZE - data@.len()) as usize)),
        ),
        data@.len() >= TAG_HEADER_SIZE && tag_type_of(data@[0]) is None ==> (header matches Err(
            ParseFailure::Error(text),
        ) && text@ == "unknown tag type"@),
        data@.len() >= TAG_HEADER_SIZE && tag_type_of(data@[0]) is Some ==> header == Ok::<
            TagHeader,
            ParseFailure,
        >(header_of(data@)),
{
    if data.len() < TAG_HEADER_SIZE {
        return Err(ParseFailure::Incomplete(Needed::Size(TAG_HEADER_SIZE - data.len())));
    }
    let tag_type = match data[0] {
        8 => TagType::Audio,
        9 => TagType::Video,
        18 => TagType::Script,
        _ => return Err(ParseFailure::Error("unknown tag type".to_owned())),
    };
    let high: u32 = data[7] as u32;
    Ok(
        TagHeader {
            tag_type,
            data_size: read_u24(data, 1),
            timestamp: high * 0x100_0000 + read_u24(data, 4),
            stream_id: read_u24(data, 8),
        },
    )
}

/// The code of a type.
pub open spec fn tag_code(tag_type: TagType) -> u8 {
    match tag_type {
        TagType::Audio => 8,
        TagType::Video => 9,
        TagType::Script => 18,
    }
}

/// A number in three bytes, of which only the low ones are kept.
pub open spec fn three_bytes(n: u32) -> Seq<u8> {
    seq![(n / 0x1_0000 % 0x100) as u8, (n / 0x100 % 0x100) as u8, (n % 0x100) as u8]
}

/// A tag header as it stands in a file.
pub open spec fn header_bytes(header: TagHeader) -> Seq<u8> {
    seq![tag_code(header.tag_type)] + three_bytes(header.data_size) + three_bytes(
        header.timestamp,
    ) + seq![(header.timestamp / 0x100_0000) as u8] + three_bytes(header.stream_id)
}

fn push_three(out: &mut Vec<u8>, n: u32)
    ensures
        final(out)@ == old(out)@ + three_bytes(n),
{
    out.push((n / 0x1_0000 % 0x100) as u8);
    out.push((n / 0x100 % 0x100) as u8);
    out.push((n % 0x100) as u8);
    assert(out@ =~= old(out)@ + three_bytes(n));
}

/// Writes a tag header.
pub fn tag_header_bytes(header: &TagHeader) -> (bytes: Vec<u8>)
    ensures
        bytes@ == header_bytes(*header),
{
    let mut bytes: Vec<u8> = Vec::new();
    bytes.push(
        match header.tag_type {
            TagType::Audio => 8,
            TagType::Video => 9,
            TagType::Script => 18,
        },
    );
    push_three(&mut bytes, header.data_size);
    push_three(&mut bytes, header.timestamp);
    bytes.push((header.timestamp / 0x100_0000) as u8);
    push_three(&mut bytes, header.stream_id);
    assert(bytes@ =~= header_bytes(*header));
    bytes
}

/// A header that is written is read as it was, where its size and its stream fit in three bytes.
pub proof fn written_headers_read(header: TagHeader)
    requires
        header.data_size < 0x100_0000,
        header.stream_id < 0x100_0000,
    ensures
        header_bytes(header).len() == TAG_HEADER_SIZE,
        tag_type_of(header_bytes(header)[0]) is Some,
        header_of(header_bytes(header)) == header,
{
    let bytes = header_bytes(header);
    let (size, time, stream) = (header.data_size, header.timestamp, header.stream_id);
    assert(bytes[1] == size / 0x1_0000 % 0x100 && bytes[2] == size / 0x100 % 0x100 && bytes[3]
        == size % 0x100);
    assert(bytes[4] == time / 0x1_0000 % 0x100 && bytes[5] == time / 0x100 % 0x100 && bytes[6]
        == time % 0x100);
    assert(bytes[7] == time / 0x100_0000);
    assert(bytes[8] == stream / 0x1_0000 % 0x100 && bytes[9] == stream / 0x100 % 0x100 && bytes[10]
        == stream % 0x100);
}

// ---------------------------------------------------------------------------
// Bodies
// ---------------------------------------------------------------------------

/// What a tag is to the recorder.
#[derive(Debug, Clone, Copy, PartialEq, Eq, Structural)]
pub enum TagClass {
    /// Sound, or the decoder configuration of it.
    Audio { sequence_header: bool },
    /// A frame, or the decoder configuration of one.
    Video { key: bool, sequence_header: bool },
    /// Metadata.
    Script,
}

/// Why a body has no class.
#[derive(Debug, Clone, Copy, PartialEq, Eq, Structural)]
pub enum BodyFault {
    /// It is shorter than its header says.
    Short(usize),
    /// Its first byte is not of the format.
    Format,
    /// The packet header of AAC is missing.
    AacHeader,
    /// The packet header of AVC is missing.
    AvcHeader,
}

/// The sound formats that exist.
pub open spec fn is_sound_format(format: u8) -> bool {
    format <= 8 || format == 10 || format == 11 || format == 14 || format == 15
}

/// The class of an audio body of one byte or more.
pub open spec fn audio_class(body: Seq<u8>) -> Result<TagClass, BodyFault> {
    let format = body[0] / 16;
    if !is_sound_format(format) {
        Err(BodyFault::Format)
    } else if format != 10 {
        Ok(TagClass::Audio { sequence_header: false })
    } else if body.len() < 2 || body[1] > 1 {
        Err(BodyFault::AacHeader)
    } else {
        Ok(TagClass::Audio { sequence_header: body[1] == 0 })
    }
}

/// The class of a video body of one byte or more.
pub open spec fn video_class(body: Seq<u8>) -> Result<TagClass, BodyFault> {
    let frame = body[0] / 16;
    let codec = body[0] % 16;
    if !(1 <= frame <= 5 && 1 <= codec <= 7) {
        Err(BodyFault::Format)
    } else if codec != 7 {
        Ok(TagClass::Video { key: frame == 1, sequence_header: false })
    } else if body.len() < 5 || body[1] > 2 {
        Err(BodyFault::AvcHeader)
    } else {
        Ok(TagClass::Video { key: frame == 1, sequence_header: body[1] == 0 })
    }
}

/// The class of a tag. Only the first `data_size` bytes count.
pub open spec fn tag_class(header: TagHeader, body: Seq<u8>) -> Result<TagClass, BodyFault> {
    if header.tag_type == TagType::Script {
        Ok(TagClass::Script)
    } else if body.len() < header.data_size {
        Err(BodyFault::Short(header.data_size as usize))
    } else if header.data_size < 1 {
        Err(BodyFault::Short(1))
    } else if header.tag_type == TagType::Audio {
        audio_class(body.take(header.data_size as int))
    } else {
        video_class(body.take(header.data_size as int))
    }
}

/// Tells what a tag is.
pub fn classify_tag(header: &TagHeader, body: &[u8]) -> (class: Result<TagClass, BodyFault>)
    ensures
        class == tag_class(*header, body@),
{
    match header.tag_type {
        TagType::Script => return Ok(TagClass::Script),
        _ => {},
    }
    let size: u64 = header.data_size as u64;
    if (body.len() as u64) < size {
        return Err(BodyFault::Short(header.data_size as usize));
    }
    if size < 1 {
        return Err(BodyFault::Short(1));
    }
    let data: &[u8] = slice_subrange(body, 0, header.data_size as usize);
    assert(data@ =~= body@.take(header.data_size as int));
    let high: u8 = data[0] / 16;
    let low: u8 = data[0] % 16;
    match header.tag_type {
        TagType::Audio => {
            if !(high <= 8 || high == 10 || high == 11 || high == 14 || high == 15) {
                Err(BodyFault::Format)
            } else if high != 10 {
                Ok(TagClass::Audio { sequence_header: false })
            } else if data.len() < 2 || data[1] > 1 {
                Err(BodyFault::AacHeader)
            } else {
                Ok(TagClass::Audio { sequence_header: data[1] == 0 })
            }
        },
        _ => {
            if !(1 <= high && high <= 5 && 1 <= low && low <= 7) {
                Err(BodyFault::Format)
            } else if low != 7 {
                Ok(TagClass::Video { key: high == 1, sequence_header: false })
            } else if data.len() < 5 || data[1] > 2 {
                Err(BodyFault::AvcHeader)
            } else {
                Ok(TagClass::Video { key: high == 1, sequence_header: data[1] == 0 })
            }
        },
    }
}

/// Whether a tag stands on the media time axis: neither metadata nor a decoder configuration.
pub open spec fn media_tag(tag_type: TagType, body: Seq<u8>) -> bool {
    match tag_type {
        TagType::Script => false,
        TagType::Audio => !(body.len() >= 2 && body[0] / 16 == 10 && body[1] == 0),
        TagType::Video => !(body.len() >= 2 && body[0] % 16 == 7 && body[1] == 0),
    }
}

/// Whether a tag stands on the media time axis.
pub fn is_media_timestamp_tag(tag_header: &TagHeader, body: &[u8]) -> (media: bool)
    ensures
        media == media_tag(tag_header.tag_type, body@),
{
    match tag_header.tag_type {
        TagType::Script => false,
        TagType::Audio => {
            if body.len() >= 2 {
                !(body[0] / 16 == 10 && body[1] == 0)
            } else {
                true
            }
        },
        TagType::Video => {
            if body.len() >= 2 {
                !(body[0] % 16 == 7 && body[1] == 0)
            } else {
                true
            }
        },
    }
}

/// What the class says of the time axis is what the body says.
pub proof fn class_tells_media(header: TagHeader, body: Seq<u8>)
    requires
        tag_class(header, body) is Ok,
    ensures
        media_tag(header.tag_type, body) == match tag_class(header, body)->Ok_0 {
            TagClass::Script => false,
            TagClass::Audio { sequence_header } => !sequence_header,
            TagClass::Video { sequence_header, .. } => !sequence_header,
        },
{
}

// ---------------------------------------------------------------------------
// The byte stream
// ---------------------------------------------------------------------------

/// The first `size` bytes of those that wait and the rest, once that many have come.
pub open spec fn first_frame(waiting: Seq<u8>, size: int) -> Option<(Seq<u8>, Seq<u8>)> {
    if size <= waiting.len() {
        Some((waiting.take(size), waiting.skip(size)))
    } else {
        None
    }
}

/// The received side of a connection: bytes that have come and have not been taken. Its view is
/// those bytes.
pub struct Connection {
    buffer: BytesMut,
}

impl View for Connection {
    type V = Seq<u8>;

    closed spec fn view(&self) -> Seq<u8> {
        pending(self.buffer)
    }
}

impl Connection {
    /// A connection on which nothing has come yet.
    pub fn new() -> (connection: Self)
        ensures
            connection@ == Seq::<u8>::empty(),
    {
        Connection { buffer: buffer_with_capacity(8192) }
    }

    /// How many bytes are waiting.
    pub fn len(&self) -> (n: usize)
        ensures
            n == self@.len(),
    {
        buffer_slice(&self.buffer).len()
    }

    /// Takes the first `chunk_size` bytes, once that many have come.
    pub fn read_frame(&mut self, chunk_size: usize) -> (frame: Option<Bytes>)
        ensures
            match frame {
                Some(bytes) => first_frame(old(self)@, chunk_size as int) == Some(
                    (contents(bytes), final(self)@),
                ),
                None => first_frame(old(self)@, chunk_size as int) is None && final(self)@ == old(
                    self,
                )@,
            },
    {
        let waiting: &[u8] = buffer_slice(&self.buffer);
        if chunk_size <= waiting.len() {
            let front: &[u8] = slice_subrange(waiting, 0, chunk_size);
            assert(front@ =~= self@.take(chunk_size as int));
            let bytes = bytes_copied(front);
            buffer_advance(&mut self.buffer, chunk_size);
            Some(bytes)
        } else {
            None
        }
    }

    /// Adds bytes that have come.
    pub fn feed(&mut self, chunk: Bytes)
        requires
            old(self)@.len() + contents(chunk).len() <= isize::MAX,
        ensures
            final(self)@ == old(self)@ + contents(chunk),
    {
        buffer_put(&mut self.buffer, chunk);
    }

    /// Takes what is left once no more will come.
    pub fn rest(&mut self) -> (frame: Bytes)
        ensures
            contents(frame) == old(self)@,
            final(self)@ == Seq::<u8>::empty(),
    {
        let taken = buffer_split(&mut self.buffer);
        buffer_freeze(taken)
    }
}

/// A frame that can be taken is the same after more bytes have come, and what stays behind it is
/// followed by them: how the stream was cut into chunks cannot be seen in its frames.
pub proof fn frames_ignore_chunks(waiting: Seq<u8>, chunk: Seq<u8>, size: int)
    requires
        0 <= size <= waiting.len(),
    ensures
        (waiting + chunk).take(size) == waiting.take(size),
        (waiting + chunk).skip(size) == waiting.skip(size) + chunk,
        first_frame(waiting + chunk, size) == Some(
            ((first_frame(waiting, size)->0).0, (first_frame(waiting, size)->0).1 + chunk),
        ),
{
    assert((waiting + chunk).take(size) =~= waiting.take(size));
    assert((waiting + chunk).skip(size) =~= waiting.skip(size) + chunk);
}

} // verus!
