//! Content-type tables: which MIME types name a playlist and which a
//! directly playable stream, and with what codec label.

use vstd::prelude::*;
use crate::text::{chars_of, find_char, find_in, lemma_find_from_bounds, lower, lower_chars, segment_is};

verus! {

pub open spec fn is_m3u_type(t: Seq<char>) -> bool {
    t == "application/mpegurl"@ || t == "application/x-mpegurl"@ || t == "audio/mpegurl"@
        || t == "audio/x-mpegurl"@ || t == "application/vnd.apple.mpegurl"@
        || t == "application/vnd.apple.mpegurl.audio"@
}

pub open spec fn is_pls_type(t: Seq<char>) -> bool {
    t == "audio/x-scpls"@ || t == "application/x-scpls"@ || t == "application/pls+xml"@
}

pub open spec fn is_asx_type(t: Seq<char>) -> bool {
    t == "video/x-ms-asx"@ || t == "video/x-ms-asf"@
}

pub open spec fn is_xspf_type(t: Seq<char>) -> bool {
    t == "application/xspf+xml"@
}

/// Plain XML, taken for a playlist as a last guess.
pub open spec fn is_xml_type(t: Seq<char>) -> bool {
    t == "application/xml"@ || t == "text/xml"@
}

/// The part of a content type before its parameters (`;charset=...`).
pub open spec fn base_type(t: Seq<char>) -> Seq<char> {
    t.subrange(0, find_char(t, ';'))
}

pub open spec fn is_playlist_type(t: Seq<char>) -> bool {
    let b = base_type(t);
    is_m3u_type(b) || is_pls_type(b) || is_asx_type(b) || is_xspf_type(b) || is_xml_type(b)
}

/// The codec label of a stream content type, without parameters.
pub open spec fn stream_codec(b: Seq<char>) -> Option<Seq<char>> {
    if b == "audio/mpeg"@ || b == "audio/x-mpeg"@ || b == "audio/mp3"@ {
        Some("MP3"@)
    } else if b == "audio/aac"@ || b == "audio/x-aac"@ {
        Some("AAC"@)
    } else if b == "audio/aacp"@ {
        Some("AAC+"@)
    } else if b == "audio/ogg"@ || b == "application/ogg"@ {
        Some("OGG"@)
    } else if b == "audio/flac"@ {
        Some("FLAC"@)
    } else if b == "application/flv"@ {
        Some("FLV"@)
    } else if b == "application/octet-stream"@ {
        Some("UNKNOWN"@)
    } else {
        None
    }
}

/// What a content type, as a server sent it, says of the resource.
pub enum ContentClass {
    Playlist,
    Stream(String),
    Unknown,
}

pub ghost enum ContentClassView {
    Playlist,
    Stream(Seq<char>),
    Unknown,
}

impl View for ContentClass {
    type V = ContentClassView;

    open spec fn view(&self) -> ContentClassView {
        match self {
            ContentClass::Playlist => ContentClassView::Playlist,
            ContentClass::Stream(c) => ContentClassView::Stream(c@),
            ContentClass::Unknown => ContentClassView::Unknown,
        }
    }
}

/// Classification of a raw content type: case does not matter, and
/// parameters after `;` are ignored.
pub open spec fn content_class(raw: Seq<char>) -> ContentClassView {
    let t = lower(raw);
    if is_playlist_type(t) {
        ContentClassView::Playlist
    } else {
        match stream_codec(base_type(t)) {
            Some(c) => ContentClassView::Stream(c),
            None => ContentClassView::Unknown,
        }
    }
}

fn m3u_in(t: &Vec<char>, n: usize) -> (r: bool)
    requires
        n <= t@.len(),
    ensures
        r == is_m3u_type(t@.subrange(0, n as int)),
{
    segment_is(t, 0, n, "application/mpegurl") || segment_is(t, 0, n, "application/x-mpegurl")
        || segment_is(t, 0, n, "audio/mpegurl") || segment_is(t, 0, n, "audio/x-mpegurl")
        || segment_is(t, 0, n, "application/vnd.apple.mpegurl")
        || segment_is(t, 0, n, "application/vnd.apple.mpegurl.audio")
}

fn pls_in(t: &Vec<char>, n: usize) -> (r: bool)
    requires
        n <= t@.len(),
    ensures
        r == is_pls_type(t@.subrange(0, n as int)),
{
    segment_is(t, 0, n, "audio/x-scpls") || segment_is(t, 0, n, "application/x-scpls")
        || segment_is(t, 0, n, "application/pls+xml")
}

fn asx_in(t: &Vec<char>, n: usize) -> (r: bool)
    requires
        n <= t@.len(),
    ensures
        r == is_asx_type(t@.subrange(0, n as int)),
{
    segment_is(t, 0, n, "video/x-ms-asx") || segment_is(t, 0, n, "video/x-ms-asf")
}

fn xspf_in(t: &Vec<char>, n: usize) -> (r: bool)
    requires
        n <= t@.len(),
    ensures
        r == is_xspf_type(t@.subrange(0, n as int)),
{
    segment_is(t, 0, n, "application/xspf+xml")
}

fn xml_in(t: &Vec<char>, n: usize) -> (r: bool)
    requires
        n <= t@.len(),
    ensures
        r == is_xml_type(t@.subrange(0, n as int)),
{
    segment_is(t, 0, n, "application/xml") || segment_is(t, 0, n, "text/xml")
}

fn codec_in(t: &Vec<char>, n: usize) -> (r: Option<&'static str>)
    requires
        n <= t@.len(),
    ensures
        match r {
            Some(c) => stream_codec(t@.subrange(0, n as int)) == Some(c@),
            None => stream_codec(t@.subrange(0, n as int)) is None,
        },
{
    if segment_is(t, 0, n, "audio/mpeg") || segment_is(t, 0, n, "audio/x-mpeg")
        || segment_is(t, 0, n, "audio/mp3") {
        Some("MP3")
    } else if segment_is(t, 0, n, "audio/aac") || segment_is(t, 0, n, "audio/x-aac") {
        Some("AAC")
    } else if segment_is(t, 0, n, "audio/aacp") {
        Some("AAC+")
    } else if segment_is(t, 0, n, "audio/ogg") || segment_is(t, 0, n, "application/ogg") {
        Some("OGG")
    } else if segment_is(t, 0, n, "audio/flac") {
        Some("FLAC")
    } else if segment_is(t, 0, n, "application/flv") {
        Some("FLV")
    } else if segment_is(t, 0, n, "application/octet-stream") {
        Some("UNKNOWN")
    } else {
        None
    }
}

pub fn type_is_m3u(content_type: &str) -> (r: bool)
    ensures
        r == is_m3u_type(content_type@),
{
    let t = chars_of(content_type);
    assert(t@.subrange(0, t@.len() as int) =~= t@);
    m3u_in(&t, t.len())
}

pub fn type_is_pls(content_type: &str) -> (r: bool)
    ensures
        r == is_pls_type(content_type@),
{
    let t = chars_of(content_type);
    assert(t@.subrange(0, t@.len() as int) =~= t@);
    pls_in(&t, t.len())
}

pub fn type_is_asx(content_type: &str) -> (r: bool)
    ensures
        r == is_asx_type(content_type@),
{
    let t = chars_of(content_type);
    assert(t@.subrange(0, t@.len() as int) =~= t@);
    asx_in(&t, t.len())
}

pub fn type_is_xspf(content_type: &str) -> (r: bool)
    ensures
        r == is_xspf_type(content_type@),
{
    let t = chars_of(content_type);
    assert(t@.subrange(0, t@.len() as int) =~= t@);
    xspf_in(&t, t.len())
}

fn playlist_in(t: &Vec<char>) -> (r: bool)
    ensures
        r == is_playlist_type(t@),
{
    let n = find_in(t, ';');
    m3u_in(t, n) || pls_in(t, n) || asx_in(t, n) || xspf_in(t, n) || xml_in(t, n)
}

/// Whether a (lower-case) content type names a playlist; parameters after
/// `;` are ignored.
pub fn type_is_playlist(content_type: &str) -> (r: bool)
    ensures
        r == is_playlist_type(content_type@),
{
    let t = chars_of(content_type);
    playlist_in(&t)
}

/// The codec label of a (lower-case) stream content type; parameters after
/// `;` are ignored.
pub fn type_is_stream(content_type: &str) -> (r: Option<&'static str>)
    ensures
        match r {
            Some(c) => stream_codec(base_type(content_type@)) == Some(c@),
            None => stream_codec(base_type(content_type@)) is None,
        },
{
    let t = chars_of(content_type);
    let n = find_in(&t, ';');
    codec_in(&t, n)
}

/// Classifies a content type as a server sent it.
pub fn classify_content_type(raw: &str) -> (r: ContentClass)
    ensures
        r@ == content_class(raw@),
{
    let t = lower_chars(&chars_of(raw));
    if playlist_in(&t) {
        ContentClass::Playlist
    } else {
        let n = find_in(&t, ';');
        match codec_in(&t, n) {
            Some(c) => ContentClass::Stream(c.to_string()),
            None => ContentClass::Unknown,
        }
    }
}

} // verus!

verus! {

/// Content-type matching is case-insensitive: a content type classifies as
/// its lower-case form does.
pub proof fn lemma_class_ignores_case(raw: Seq<char>)
    ensures
        content_class(raw) == content_class(lower(raw)),
{
    crate::text::lemma_lower_idempotent(raw);
}

/// Content-type matching ignores parameters: `t;params` classifies as `t`
/// does, for every `t` without a `;`.
pub proof fn lemma_class_ignores_parameters(t: Seq<char>, params: Seq<char>)
    requires
        forall|i: int| 0 <= i < t.len() ==> t[i] != ';',
    ensures
        content_class(t + seq![';'] + params) == content_class(t),
{
    let full = t + seq![';'] + params;
    let lf = lower(full);
    let lt = lower(t);
    assert forall|i: int| 0 <= i < lt.len() implies lt[i] != ';' by {
        crate::text::lemma_lower_char_keeps_punctuation(t[i], ';');
    }
    assert(lf[t.len() as int] == ';');
    assert forall|j: int| 0 <= j < t.len() implies lf[j] != ';' by {
        assert(lf[j] == lt[j]);
    }
    crate::text::lemma_find_from_at(lf, ';', 0, t.len() as int);
    lemma_find_from_bounds(lt, ';', 0);
    if find_char(lt, ';') < lt.len() {
        assert(lt[find_char(lt, ';')] == ';');
    }
    assert(base_type(lf) =~= base_type(lt));
}

} // verus!
