//! The order in which the parts of an FLV stream are read: the size field behind the file header,
//! and for each tag its header, its body and the size field behind it.

use crate::flv::{header_bytes, header_of, tag_type_of, written_headers_read, Error, Needed, TagHeader, TAG_HEADER_SIZE};
use crate::httpflv::{next_tag_header, Tag};
use crate::outside_bytes::{bytes_slice, contents};
use bytes::Bytes;
use vstd::prelude::*;

verus! {

/// The length of the size field behind each tag.
pub const SIZE_FIELD: usize = 4;

/// The part of the stream that is read next, with what was read of its tag.
#[derive(Debug)]
pub enum FrameOrder<B> {
    /// The size field in front of the first tag.
    Lead,
    /// A tag's header.
    Header,
    /// The body of a tag.
    Body(TagHeader),
    /// The size field behind a tag.
    Trailer(TagHeader, B),
}

/// What a frame brings.
#[derive(Debug)]
pub enum Progress<B> {
    /// A part of a tag. The next part follows.
    Part(FrameOrder<B>),
    /// The last part of a tag. The next tag follows.
    Whole(Tag<B>, FrameOrder<B>),
    /// The end of the stream.
    End,
}

impl View for FrameOrder<Bytes> {
    type V = FrameOrder<Seq<u8>>;

    open spec fn view(&self) -> FrameOrder<Seq<u8>> {
        match *self {
            FrameOrder::Lead => FrameOrder::Lead,
            FrameOrder::Header => FrameOrder::Header,
            FrameOrder::Body(header) => FrameOrder::Body(header),
            FrameOrder::Trailer(header, body) => FrameOrder::Trailer(header, contents(body)),
        }
    }
}

impl View for Progress<Bytes> {
    type V = Progress<Seq<u8>>;

    open spec fn view(&self) -> Progress<Seq<u8>> {
        match *self {
            Progress::Part(order) => Progress::Part(order@),
            Progress::Whole(tag, order) => Progress::Whole(tag@, order@),
            Progress::End => Progress::End,
        }
    }
}

/// How many bytes the next part has.
pub open spec fn frame_size<B>(order: FrameOrder<B>) -> int {
    match order {
        FrameOrder::Lead => SIZE_FIELD as int,
        FrameOrder::Header => TAG_HEADER_SIZE as int,
        FrameOrder::Body(header) => header.data_size as int,
        FrameOrder::Trailer(_, _) => SIZE_FIELD as int,
    }
}

/// What a frame brings: nothing, where a tag header should stand and none does. A stream ends
/// where no byte of a tag header is left.
pub open spec fn frame_step(order: FrameOrder<Seq<u8>>, frame: Seq<u8>) -> Option<
    Progress<Seq<u8>>,
> {
    match order {
        FrameOrder::Lead => Some(Progress::Part(FrameOrder::Header)),
        FrameOrder::Header => if frame.len() == 0 {
            Some(Progress::End)
        } else if frame.len() >= TAG_HEADER_SIZE && tag_type_of(frame[0]) is Some {
            Some(Progress::Part(FrameOrder::Body(header_of(frame))))
        } else {
            None
        },
        FrameOrder::Body(header) => Some(Progress::Part(FrameOrder::Trailer(header, frame))),
        FrameOrder::Trailer(header, body) => Some(
            Progress::Whole(Tag { header, body, previous_size: frame }, FrameOrder::Header),
        ),
    }
}

impl FrameOrder<Bytes> {
    /// The order at the beginning of a stream.
    pub fn new() -> (order: Self)
        ensures
            order is Lead,
    {
        FrameOrder::Lead
    }

    /// How many bytes the next frame should have.
    pub fn size(&self) -> (size: usize)
        ensures
            size == frame_size(*self),
    {
        match self {
            FrameOrder::Lead => SIZE_FIELD,
            FrameOrder::Header => TAG_HEADER_SIZE,
            FrameOrder::Body(header) => header.data_size as usize,
            FrameOrder::Trailer(_, _) => SIZE_FIELD,
        }
    }

    /// Takes the next frame, which is shorter than it should be only at the end of the stream.
    pub fn on_frame(self, frame: Bytes) -> (progress: Result<Progress<Bytes>, Error>)
        ensures
            frame_step(self@, contents(frame)) matches Some(step) ==> (progress matches Ok(brought)
                && brought@ == step),
            frame_step(self@, contents(frame)) is None && contents(frame).len() < TAG_HEADER_SIZE
                ==> (progress matches Err(Error::NomIncomplete(text, needed)) && text@
                == "tag header"@ && needed == Needed::Size(
                (TAG_HEADER_SIZE - contents(frame).len()) as usize,
            )),
            frame_step(self@, contents(frame)) is None && contents(frame).len() >= TAG_HEADER_SIZE
                ==> (progress matches Err(Error::Custom(text)) && text@ == "parse "@
                + "tag header"@ + " err: "@ + "unknown tag type"@),
    {
        match self {
            FrameOrder::Lead => Ok(Progress::Part(FrameOrder::Header)),
            FrameOrder::Header => match next_tag_header(bytes_slice(&frame)) {
                Ok(Some(header)) => Ok(Progress::Part(FrameOrder::Body(header))),
                Ok(None) => Ok(Progress::End),
                Err(error) => Err(error),
            },
            FrameOrder::Body(header) => Ok(Progress::Part(FrameOrder::Trailer(header, frame))),
            FrameOrder::Trailer(header, body) => Ok(
                Progress::Whole(Tag { header, body, previous_size: frame }, FrameOrder::Header),
            ),
        }
    }
}

// ---------------------------------------------------------------------------
// Whole streams
// ---------------------------------------------------------------------------

/// The frame that is cut off a stream: as many bytes as asked for, or what is left.
pub open spec fn cut(stream: Seq<u8>, size: int) -> Seq<u8> {
    if size <= stream.len() {
        stream.take(size)
    } else {
        stream
    }
}

/// What stands behind the frame that is cut off.
pub open spec fn behind(stream: Seq<u8>, size: int) -> Seq<u8> {
    if size <= stream.len() {
        stream.skip(size)
    } else {
        seq![]
    }
}

/// How far an order is from the next header.
pub open spec fn parts_left<B>(order: FrameOrder<B>) -> nat {
    match order {
        FrameOrder::Lead => 1,
        FrameOrder::Header => 0,
        FrameOrder::Body(_) => 2,
        FrameOrder::Trailer(_, _) => 1,
    }
}

/// The tags of a stream, and whether it is read to its end.
pub open spec fn tags_read(order: FrameOrder<Seq<u8>>, stream: Seq<u8>) -> (
    Seq<Tag<Seq<u8>>>,
    bool,
)
    decreases stream.len(), parts_left(order),
{
    let size = frame_size(order);
    match frame_step(order, cut(stream, size)) {
        Some(Progress::Part(next)) => tags_read(next, behind(stream, size)),
        Some(Progress::Whole(tag, next)) => {
            let (tags, ended) = tags_read(next, behind(stream, size));
            (seq![tag] + tags, ended)
        },
        Some(Progress::End) => (seq![], true),
        None => (seq![], false),
    }
}

/// A tag as it stands in a stream.
pub open spec fn tag_bytes(tag: Tag<Seq<u8>>) -> Seq<u8> {
    header_bytes(tag.header) + tag.body + tag.previous_size
}

/// Tags as they stand in a stream.
pub open spec fn tags_bytes(tags: Seq<Tag<Seq<u8>>>) -> Seq<u8>
    decreases tags.len(),
{
    if tags.len() == 0 {
        seq![]
    } else {
        tag_bytes(tags[0]) + tags_bytes(tags.skip(1))
    }
}

/// A tag whose header tells the length of its body, and whose numbers fit in their fields.
pub open spec fn tag_fits(tag: Tag<Seq<u8>>) -> bool {
    &&& tag.header.data_size < 0x100_0000
    &&& tag.header.stream_id < 0x100_0000
    &&& tag.body.len() == tag.header.data_size
    &&& tag.previous_size.len() == SIZE_FIELD
}

/// One tag is read off the front of a stream.
proof fn tag_is_read(tag: Tag<Seq<u8>>, rest: Seq<u8>)
    requires
        tag_fits(tag),
    ensures
        tags_read(FrameOrder::Header, tag_bytes(tag) + rest) == ({
            let (tags, ended) = tags_read(FrameOrder::Header, rest);
            (seq![tag] + tags, ended)
        }),
{
    written_headers_read(tag.header);
    let (head, size) = (header_bytes(tag.header), tag.header.data_size as int);
    let stream = tag_bytes(tag) + rest;
    assert(cut(stream, TAG_HEADER_SIZE as int) =~= head);
    let first = behind(stream, TAG_HEADER_SIZE as int);
    assert(first =~= tag.body + tag.previous_size + rest);
    assert(cut(first, size) =~= tag.body);
    let second = behind(first, size);
    assert(second =~= tag.previous_size + rest);
    assert(cut(second, SIZE_FIELD as int) =~= tag.previous_size);
    assert(behind(second, SIZE_FIELD as int) =~= rest);
    let trailer = FrameOrder::Trailer(tag.header, tag.body);
    assert(tags_read(FrameOrder::Header, stream) == tags_read(FrameOrder::Body(tag.header), first));
    assert(tags_read(FrameOrder::Body(tag.header), first) == tags_read(trailer, second));
    assert(tag == (Tag {
        header: tag.header,
        body: tag.body,
        previous_size: tag.previous_size,
    }));
}

/// A stream of tags behind a size field is read tag by tag as it was written, to its end.
pub proof fn written_tags_are_read(lead: Seq<u8>, tags: Seq<Tag<Seq<u8>>>)
    requires
        lead.len() == SIZE_FIELD,
        forall|i: int| 0 <= i < tags.len() ==> tag_fits(#[trigger] tags[i]),
    ensures
        tags_read(FrameOrder::Lead, lead + tags_bytes(tags)) == (tags, true),
{
    let stream = lead + tags_bytes(tags);
    assert(behind(stream, SIZE_FIELD as int) =~= tags_bytes(tags));
    tags_are_read(tags);
}

proof fn tags_are_read(tags: Seq<Tag<Seq<u8>>>)
    requires
        forall|i: int| 0 <= i < tags.len() ==> tag_fits(#[trigger] tags[i]),
    ensures
        tags_read(FrameOrder::Header, tags_bytes(tags)) == (tags, true),
    decreases tags.len(),
{
    if tags.len() > 0 {
        let rest = tags.skip(1);
        assert forall|i: int| 0 <= i < rest.len() implies tag_fits(#[trigger] rest[i]) by {
            assert(rest[i] == tags[i + 1]);
        }
        tags_are_read(rest);
        tag_is_read(tags[0], tags_bytes(rest));
        assert(seq![tags[0]] + rest =~= tags);
    } else {
        assert(tags =~= seq![]);
    }
}

} // verus!
