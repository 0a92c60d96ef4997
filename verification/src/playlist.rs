use vstd::prelude::*;
use crate::downloader::url_fits;

verus! {

/// What the downloader reads of an HLS playlist: the URIs of the variant
/// streams of a master playlist, or the URIs of the segments of a media
/// playlist, in the order the playlist lists them.
pub enum IndexPlaylist {
    Master { variant_uris: Vec<String> },
    Media { segment_uris: Vec<String> },
}

/// The text of an `IndexPlaylist`.
pub enum PlaylistShape {
    Master(Seq<Seq<char>>),
    Media(Seq<Seq<char>>),
}

/// The text of each string.
pub open spec fn uri_views(v: Seq<String>) -> Seq<Seq<char>> {
    v.map_values(|s: String| s@)
}

impl View for IndexPlaylist {
    type V = PlaylistShape;

    open spec fn view(&self) -> PlaylistShape {
        match self {
            IndexPlaylist::Master { variant_uris } => PlaylistShape::Master(uri_views(variant_uris@)),
            IndexPlaylist::Media { segment_uris } => PlaylistShape::Media(uri_views(segment_uris@)),
        }
    }
}

/// What `m3u8_rs::parse_playlist` reads from `input`: `None` when it rejects
/// the input, else the URIs of the variant streams (master playlist) or of
/// the segments (media playlist).
pub uninterp spec fn m3u8_playlist(input: Seq<u8>) -> Option<PlaylistShape>;

/// Calls `m3u8_rs::parse_playlist` and keeps the URIs of what it parsed.
/// Claims only that the result is `m3u8_playlist` of the input: the parser
/// reads nothing but its argument. Where it accepts the input and how it
/// tells master from media playlists is left unsaid.
#[verifier::external_body]
fn parse_m3u8(input: &[u8]) -> (r: Option<IndexPlaylist>)
    ensures
        r is Some <==> m3u8_playlist(input@) is Some,
        r matches Some(p) ==> m3u8_playlist(input@) == Some(p@),
{
    match m3u8_rs::parse_playlist(input) {
        Ok((_, m3u8_rs::Playlist::MasterPlaylist(pl))) => Some(
            IndexPlaylist::Master { variant_uris: pl.variants.into_iter().map(|v| v.uri).collect() },
        ),
        Ok((_, m3u8_rs::Playlist::MediaPlaylist(pl))) => Some(
            IndexPlaylist::Media { segment_uris: pl.segments.into_iter().map(|s| s.uri).collect() },
        ),
        Err(_) => None,
    }
}

impl IndexPlaylist {
    /// Reads the playlist served as `index`; `None` when it is no playlist.
    pub fn parse(index: &[u8]) -> (r: Option<IndexPlaylist>)
        ensures
            r is Some <==> m3u8_playlist(index@) is Some,
            r matches Some(p) ==> m3u8_playlist(index@) == Some(p@),
    {
        parse_m3u8(index)
    }
}

/// `url` parsed as a URL, with the last segment of its path removed, written
/// back as text; `None` when `url` is no URL or one that cannot be a base.
pub uninterp spec fn url_parent(url: Seq<char>) -> Option<Seq<char>>;

/// The URL of the variant stream `uri` listed by the master playlist at
/// `url`: `url` without the last segment of its path, then the segment `/`
/// appended (written `%2F`), then `uri` resolved against that, which replaces
/// that segment; `None` when a step fails.
pub uninterp spec fn url_variant(url: Seq<char>, uri: Seq<char>) -> Option<Seq<char>>;

/// Calls `url::Url::parse`, `Url::path_segments_mut` with
/// `PathSegmentsMut::pop`, and `Url::as_str`. Claims only that the result is
/// `url_parent` of the argument, which the url crate computes from it alone.
/// Removing a segment never lengthens the text, so nothing overflows.
#[verifier::external_body]
fn url_parent_text(url: &str) -> (r: Option<String>)
    ensures
        r is Some <==> url_parent(url@) is Some,
        r matches Some(p) ==> url_parent(url@) == Some(p@),
{
    let mut parsed = url::Url::parse(url).ok()?;
    parsed.path_segments_mut().ok()?.pop();
    Some(parsed.as_str().to_string())
}

/// Calls `url::Url::parse`, `Url::path_segments_mut` with
/// `PathSegmentsMut::pop` and `PathSegmentsMut::push("/")`, `Url::join` and
/// `Url::as_str`. Claims only that the result is `url_variant` of the
/// arguments, which the url crate computes from them alone. The push panics
/// once the text passes `u32::MAX` bytes; within `url_fits` it stays far
/// below (see `url_fits`), and `Url::join` reports an overflow as an error.
#[verifier::external_body]
fn url_variant_text(url: &str, uri: &str) -> (r: Option<String>)
    requires
        url_fits(url@, uri@),
    ensures
        r is Some <==> url_variant(url@, uri@) is Some,
        r matches Some(v) ==> url_variant(url@, uri@) == Some(v@),
{
    let mut parsed = url::Url::parse(url).ok()?;
    parsed.path_segments_mut().ok()?.pop().push("/");
    Some(parsed.join(uri).ok()?.as_str().to_string())
}

/// What to do after reading the playlist served at some URL.
pub enum GrabStep {
    /// Fetch the media playlist at this URL next.
    Fetch(String),
    /// The segments are these URIs, to be appended to `base`.
    Segments { base: String, uris: Vec<String> },
    /// The master playlist lists no variant stream.
    NoVariant,
}

/// The text of a `GrabStep`.
pub enum StepShape {
    Fetch(Seq<char>),
    Segments(Seq<char>, Seq<Seq<char>>),
    NoVariant,
}

impl View for GrabStep {
    type V = StepShape;

    open spec fn view(&self) -> StepShape {
        match self {
            GrabStep::Fetch(url) => StepShape::Fetch(url@),
            GrabStep::Segments { base, uris } => StepShape::Segments(base@, uri_views(uris@)),
            GrabStep::NoVariant => StepShape::NoVariant,
        }
    }
}

/// The step after reading `playlist` at `current`. A master playlist leads
/// to its first variant stream (the only quality Picarto offers); a media
/// playlist gives its segments, to be fetched from the directory of
/// `current`. `None` when the URL of that step cannot be formed.
pub open spec fn next_step(current: Seq<char>, playlist: PlaylistShape) -> Option<StepShape> {
    match playlist {
        PlaylistShape::Master(variants) => if variants.len() == 0 {
            Some(StepShape::NoVariant)
        } else {
            match url_variant(current, variants[0]) {
                Some(next) => Some(StepShape::Fetch(next)),
                None => None,
            }
        },
        PlaylistShape::Media(segments) => match url_parent(current) {
            Some(base) => Some(StepShape::Segments(base, segments)),
            None => None,
        },
    }
}

/// The first variant stream of a master playlist is short enough to be
/// resolved against `current`.
pub open spec fn step_fits(current: Seq<char>, playlist: PlaylistShape) -> bool {
    match playlist {
        PlaylistShape::Master(variants) => variants.len() > 0 ==> url_fits(current, variants[0]),
        PlaylistShape::Media(_) => true,
    }
}

/// Decides what follows reading `playlist` at the URL `current`.
pub fn grab_step(current: &str, playlist: IndexPlaylist) -> (r: Option<GrabStep>)
    requires
        step_fits(current@, playlist@),
    ensures
        r is Some <==> next_step(current@, playlist@) is Some,
        r matches Some(step) ==> next_step(current@, playlist@) == Some(step@),
{
    let ghost shape = playlist@;
    match playlist {
        IndexPlaylist::Master { variant_uris } => {
            if variant_uris.len() == 0 {
                Some(GrabStep::NoVariant)
            } else {
                match url_variant_text(current, variant_uris[0].as_str()) {
                    Some(next) => Some(GrabStep::Fetch(next)),
                    None => None,
                }
            }
        },
        IndexPlaylist::Media { segment_uris } => match url_parent_text(current) {
            Some(base) => {
                let step = GrabStep::Segments { base, uris: segment_uris };
                assert(next_step(current@, shape) == Some(step@));
                Some(step)
            },
            None => None,
        },
    }
}

/// A media playlist leads to all its segment URIs, unchanged and in order,
/// fetched from the parent of the playlist's URL.
pub proof fn lemma_media_step_keeps_segments(current: Seq<char>, segments: Seq<Seq<char>>)
    ensures
        next_step(current, PlaylistShape::Media(segments)) is None <==> url_parent(current) is None,
        url_parent(current) matches Some(base) ==> next_step(current, PlaylistShape::Media(segments))
            == Some(StepShape::Segments(base, segments)),
        next_step(current, PlaylistShape::Media(segments)) matches Some(step) ==> (
        step matches StepShape::Segments(_, uris) && uris == segments),
{
}

/// A master playlist leads to the URL of its first variant stream, and to no
/// stream when it lists none.
pub proof fn lemma_master_step_follows_first_variant(current: Seq<char>, variants: Seq<Seq<char>>)
    ensures
        variants.len() == 0 ==> next_step(current, PlaylistShape::Master(variants)) == Some(
            StepShape::NoVariant,
        ),
        variants.len() > 0 ==> (next_step(current, PlaylistShape::Master(variants)) is None
            <==> url_variant(current, variants[0]) is None),
        variants.len() > 0 && url_variant(current, variants[0]) is Some ==> next_step(
            current,
            PlaylistShape::Master(variants),
        ) == Some(StepShape::Fetch(url_variant(current, variants[0])->0)),
{
}

} // verus!
