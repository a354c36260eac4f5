//! Playlists of the `m3u8-rs` crate and addresses of the `url` crate. The contracts here are
//! believed, not proved.

use vstd::prelude::*;

verus! {

/// One piece of a stream.
#[derive(Debug)]
pub struct MediaSegment {
    pub uri: String,
    pub discontinuity: bool,
    /// The length in seconds, as the bits of a number of single precision.
    pub duration_bits: u32,
}

/// The pieces of a stream that can be had at a time.
#[derive(Debug)]
pub struct MediaPlaylist {
    /// The longest piece in seconds.
    pub target_duration: u64,
    /// The number of the first piece.
    pub media_sequence: u64,
    pub segments: Vec<MediaSegment>,
    /// No more pieces will come.
    pub end_list: bool,
}

/// One rendition of a stream.
#[derive(Debug)]
pub struct VariantStream {
    pub uri: String,
    pub bandwidth: u64,
    pub has_resolution: bool,
    /// It holds only the key frames.
    pub is_i_frame: bool,
}

/// What a playlist document is.
#[derive(Debug)]
pub enum Playlist {
    Master(Vec<VariantStream>),
    Media(MediaPlaylist),
}

/// A piece by its view.
pub struct SegmentData {
    pub uri: Seq<char>,
    pub discontinuity: bool,
    pub duration_bits: u32,
}

/// A playlist by its view.
pub struct PlaylistData {
    pub target_duration: u64,
    pub media_sequence: u64,
    pub segments: Seq<SegmentData>,
    pub end_list: bool,
}

/// A rendition by its view.
pub struct VariantData {
    pub uri: Seq<char>,
    pub bandwidth: u64,
    pub has_resolution: bool,
    pub is_i_frame: bool,
}

/// A document by its view.
pub enum PlaylistView {
    Master(Seq<VariantData>),
    Media(PlaylistData),
}

impl View for MediaSegment {
    type V = SegmentData;

    open spec fn view(&self) -> SegmentData {
        SegmentData {
            uri: self.uri@,
            discontinuity: self.discontinuity,
            duration_bits: self.duration_bits,
        }
    }
}

impl View for MediaPlaylist {
    type V = PlaylistData;

    open spec fn view(&self) -> PlaylistData {
        PlaylistData {
            target_duration: self.target_duration,
            media_sequence: self.media_sequence,
            segments: self.segments@.map_values(|s: MediaSegment| s@),
            end_list: self.end_list,
        }
    }
}

impl View for VariantStream {
    type V = VariantData;

    open spec fn view(&self) -> VariantData {
        VariantData {
            uri: self.uri@,
            bandwidth: self.bandwidth,
            has_resolution: self.has_resolution,
            is_i_frame: self.is_i_frame,
        }
    }
}

/// Renditions by their views.
pub open spec fn variants_of(variants: Seq<VariantStream>) -> Seq<VariantData> {
    variants.map_values(|v: VariantStream| v@)
}

impl View for Playlist {
    type V = PlaylistView;

    open spec fn view(&self) -> PlaylistView {
        match *self {
            Playlist::Master(variants) => PlaylistView::Master(variants_of(variants@)),
            Playlist::Media(playlist) => PlaylistView::Media(playlist@),
        }
    }
}

/// What `m3u8_rs::parse_media_playlist` makes of a document: the playlist, or the error's text.
pub uninterp spec fn media_playlist_read(bytes: Seq<u8>) -> Result<PlaylistData, Seq<char>>;

/// What `m3u8_rs::parse_playlist` makes of a document: its variants or its pieces, or the error's
/// text.
pub uninterp spec fn playlist_read(bytes: Seq<u8>) -> Result<PlaylistView, Seq<char>>;

/// Calls `m3u8_rs::parse_media_playlist`. The result depends on the bytes alone; of the playlist
/// it keeps the fields that `MediaPlaylist` has, and of an error the text. Which documents are
/// playlists, and what they say, is left to the name.
#[verifier::external_body]
pub(crate) fn read_media_playlist(bytes: &[u8]) -> (playlist: Result<MediaPlaylist, String>)
    ensures
        match playlist {
            Ok(p) => media_playlist_read(bytes@) == Ok::<PlaylistData, Seq<char>>(p@),
            Err(e) => media_playlist_read(bytes@) == Err::<PlaylistData, Seq<char>>(e@),
        },
{
    let (_, p) = m3u8_rs::parse_media_playlist(bytes).map_err(|e| e.to_string())?;
    let segments = p.segments.into_iter().map(|s| MediaSegment {
        uri: s.uri,
        discontinuity: s.discontinuity,
        duration_bits: s.duration.to_bits(),
    }).collect();
    let (target_duration, media_sequence) = (p.target_duration, p.media_sequence);
    Ok(MediaPlaylist { target_duration, media_sequence, segments, end_list: p.end_list })
}

/// Calls `m3u8_rs::parse_playlist`. The result depends on the bytes alone; of the document it
/// keeps the fields that `VariantStream` and `MediaPlaylist` have, and of an error the text.
/// Which documents are playlists, and what they say, is left to the name.
#[verifier::external_body]
pub(crate) fn read_playlist(bytes: &[u8]) -> (playlist: Result<Playlist, String>)
    ensures
        match playlist {
            Ok(p) => playlist_read(bytes@) == Ok::<PlaylistView, Seq<char>>(p@),
            Err(e) => playlist_read(bytes@) == Err::<PlaylistView, Seq<char>>(e@),
        },
{
    match m3u8_rs::parse_playlist(bytes).map_err(|e| e.to_string())?.1 {
        m3u8_rs::Playlist::MasterPlaylist(p) => Ok(Playlist::Master(p.variants.into_iter().map(
            |v| VariantStream { uri: v.uri, bandwidth: v.bandwidth,
                has_resolution: v.resolution.is_some(), is_i_frame: v.is_i_frame },
        ).collect())),
        m3u8_rs::Playlist::MediaPlaylist(p) => Ok(Playlist::Media(MediaPlaylist {
            target_duration: p.target_duration, media_sequence: p.media_sequence,
            segments: p.segments.into_iter().map(|s| MediaSegment { uri: s.uri,
                discontinuity: s.discontinuity, duration_bits: s.duration.to_bits() }).collect(),
            end_list: p.end_list,
        })),
    }
}

/// What `Url::parse` makes of a text: the address in its standard form, or the error's text.
pub uninterp spec fn url_read(text: Seq<char>) -> Result<Seq<char>, Seq<char>>;

/// What `Url::join` makes of a reference on the address that `base` writes: the address in its
/// standard form, or the error's text.
pub uninterp spec fn url_joined(base: Seq<char>, reference: Seq<char>) -> Result<
    Seq<char>,
    Seq<char>,
>;

/// Calls `Url::parse`. The result depends on the text alone. How an address is brought into its
/// standard form is left to the name.
#[verifier::external_body]
pub(crate) fn parse_url(text: &str) -> (url: Result<String, String>)
    ensures
        match url {
            Ok(u) => url_read(text@) == Ok::<Seq<char>, Seq<char>>(u@),
            Err(e) => url_read(text@) == Err::<Seq<char>, Seq<char>>(e@),
        },
{
    match url::Url::parse(text) {
        Ok(url) => Ok(url.to_string()),
        Err(e) => Err(e.to_string()),
    }
}

/// Calls `Url::join` on the address that `base` writes. The result depends on the two texts
/// alone. How a reference is resolved is left to the name.
#[verifier::external_body]
pub(crate) fn join_url(base: &str, reference: &str) -> (url: Result<String, String>)
    ensures
        match url {
            Ok(u) => url_joined(base@, reference@) == Ok::<Seq<char>, Seq<char>>(u@),
            Err(e) => url_joined(base@, reference@) == Err::<Seq<char>, Seq<char>>(e@),
        },
{
    match url::Url::parse(base).and_then(|base| base.join(reference)) {
        Ok(url) => Ok(url.to_string()),
        Err(e) => Err(e.to_string()),
    }
}

} // verus!
