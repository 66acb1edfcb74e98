//! Resolution of a station URL into playable streams: what a response means,
//! and a resolver that follows redirects and playlists down to the streams.

use vstd::prelude::*;
use vstd::string::StringExecFns;
use crate::content_type::{classify_content_type, content_class, ContentClass, ContentClassView};
use crate::headers::{HeadView, HttpHeaders};
use crate::text::{chars_of, decimal_text, decimal_value, lower, lower_chars, parse_decimal, push_decimal, string_of};

verus! {

/// A stream that was reached and judged playable.
pub struct StreamInfo {
    pub name: String,
    pub description: String,
    pub content_type: String,
    pub url: String,
    pub homepage: String,
    pub genre: String,
    pub bitrate: u32,
    pub sampling: u32,
    pub codec: String,
    pub hls: bool,
}

pub ghost struct StreamInfoView {
    pub name: Seq<char>,
    pub description: Seq<char>,
    pub content_type: Seq<char>,
    pub url: Seq<char>,
    pub homepage: Seq<char>,
    pub genre: Seq<char>,
    pub bitrate: u32,
    pub sampling: u32,
    pub codec: Seq<char>,
    pub hls: bool,
}

impl View for StreamInfo {
    type V = StreamInfoView;

    open spec fn view(&self) -> StreamInfoView {
        StreamInfoView {
            name: self.name@,
            description: self.description@,
            content_type: self.content_type@,
            url: self.url@,
            homepage: self.homepage@,
            genre: self.genre@,
            bitrate: self.bitrate,
            sampling: self.sampling,
            codec: self.codec@,
            hls: self.hls,
        }
    }
}

/// Why one URL did not lead to a stream.
pub struct StreamCheckError {
    pub url: String,
    pub details: String,
}

impl StreamCheckError {
    pub fn new(url: &str, msg: &str) -> (r: StreamCheckError)
        ensures
            r.url@ == url@,
            r.details@ == msg@,
    {
        StreamCheckError { url: url.to_string(), details: msg.to_string() }
    }
}

/// The outcome for one URL: a stream, or why there is none.
pub type Outcome = Result<StreamInfo, StreamCheckError>;

pub ghost enum OutcomeView {
    Found(StreamInfoView),
    Failed(Seq<char>, Seq<char>),
}

pub open spec fn outcome_view(o: Outcome) -> OutcomeView {
    match o {
        Ok(s) => OutcomeView::Found(s@),
        Err(e) => OutcomeView::Failed(e.url@, e.details@),
    }
}

pub open spec fn outcomes_view(v: Seq<Outcome>) -> Seq<OutcomeView> {
    v.map_values(|o: Outcome| outcome_view(o))
}

/// What a response asks the resolver to do.
pub enum Reaction {
    Stream(String),
    Playlist,
    Redirect(String),
    Failure(String),
}

pub ghost enum ReactionView {
    Stream(Seq<char>),
    Playlist,
    Redirect(Seq<char>),
    Failure(Seq<char>),
}

impl View for Reaction {
    type V = ReactionView;

    open spec fn view(&self) -> ReactionView {
        match self {
            Reaction::Stream(c) => ReactionView::Stream(c@),
            Reaction::Playlist => ReactionView::Playlist,
            Reaction::Redirect(l) => ReactionView::Redirect(l@),
            Reaction::Failure(m) => ReactionView::Failure(m@),
        }
    }
}

/// The meaning of a response head: a 2xx answer is a stream or a playlist
/// by its content type, a 3xx answer redirects to its `location`, anything
/// else is a failure.
pub open spec fn reaction(h: HeadView) -> ReactionView {
    if 200 <= h.code < 300 {
        if !h.headers.contains_key("content-type"@) {
            ReactionView::Failure("Missing content-type in http header"@)
        } else {
            match content_class(h.headers["content-type"@]) {
                ContentClassView::Playlist => ReactionView::Playlist,
                ContentClassView::Stream(c) => ReactionView::Stream(c),
                ContentClassView::Unknown => ReactionView::Failure(
                    "unknown content type "@ + lower(h.headers["content-type"@]),
                ),
            }
        }
    } else if 300 <= h.code < 400 {
        if h.headers.contains_key("location"@) {
            ReactionView::Redirect(h.headers["location"@])
        } else {
            ReactionView::Failure("redirect without location"@)
        }
    } else {
        ReactionView::Failure("illegal http status code "@ + decimal_text(h.code as nat))
    }
}

/// Classifies a response head.
pub fn classify(info: &HttpHeaders) -> (r: Reaction)
    ensures
        r@ == reaction(info@),
{
    if info.code >= 200 && info.code < 300 {
        match info.headers.get("content-type") {
            None => Reaction::Failure("Missing content-type in http header".to_string()),
            Some(ct) => match classify_content_type(ct.as_str()) {
                ContentClass::Playlist => Reaction::Playlist,
                ContentClass::Stream(c) => Reaction::Stream(c),
                ContentClass::Unknown => {
                    let low = lower_chars(&chars_of(ct.as_str()));
                    let n = low.len();
                    let mut msg = String::from_str("unknown content type ");
                    msg.append(string_of(&low, 0, n).as_str());
                    assert(low@.subrange(0, n as int) =~= low@);
                    Reaction::Failure(msg)
                },
            },
        }
    } else if info.code >= 300 && info.code < 400 {
        match info.headers.get("location") {
            Some(l) => Reaction::Redirect(l.clone()),
            None => Reaction::Failure("redirect without location".to_string()),
        }
    } else {
        let mut msg = String::from_str("illegal http status code ");
        push_decimal(&mut msg, info.code);
        Reaction::Failure(msg)
    }
}

/// A header's value, or the empty text without one.
pub open spec fn header_text(h: HeadView, key: Seq<char>) -> Seq<char> {
    if h.headers.contains_key(key) {
        h.headers[key]
    } else {
        Seq::empty()
    }
}

/// A numeric header's value, or 0 without a usable one.
pub open spec fn header_number(h: HeadView, key: Seq<char>) -> u32 {
    match decimal_value(header_text(h, key), u32::MAX as nat) {
        Some(n) => n as u32,
        None => 0,
    }
}

/// The stream that a playable response describes with its ICY headers.
pub open spec fn stream_info_of(url: Seq<char>, h: HeadView, codec: Seq<char>) -> StreamInfoView {
    StreamInfoView {
        name: header_text(h, "icy-name"@),
        description: header_text(h, "icy-description"@),
        content_type: header_text(h, "content-type"@),
        url: url,
        homepage: header_text(h, "icy-url"@),
        genre: header_text(h, "icy-genre"@),
        bitrate: header_number(h, "icy-br"@),
        sampling: header_number(h, "icy-sr"@),
        codec: codec,
        hls: false,
    }
}

/// An HLS manifest, taken as playable without looking further.
pub open spec fn hls_info_of(url: Seq<char>) -> StreamInfoView {
    StreamInfoView {
        name: Seq::empty(),
        description: Seq::empty(),
        content_type: Seq::empty(),
        url: url,
        homepage: Seq::empty(),
        genre: Seq::empty(),
        bitrate: 0,
        sampling: 0,
        codec: "UNKNOWN"@,
        hls: true,
    }
}

fn header_or_empty(info: &HttpHeaders, key: &str) -> (r: String)
    ensures
        r@ == header_text(info@, key@),
{
    match info.headers.get(key) {
        Some(v) => v.clone(),
        None => String::new(),
    }
}

fn header_u32(info: &HttpHeaders, key: &str) -> (r: u32)
    ensures
        r == header_number(info@, key@),
{
    let t = chars_of(header_or_empty(info, key).as_str());
    assert(t@.subrange(0, t@.len() as int) =~= t@);
    match parse_decimal(&t, 0, t.len()) {
        Some(n) if n <= u32::MAX as u64 => n as u32,
        _ => 0,
    }
}

/// The stream that a playable response from `url` describes.
pub fn stream_info(url: &str, info: &HttpHeaders, codec: &str) -> (r: StreamInfo)
    ensures
        r@ == stream_info_of(url@, info@, codec@),
{
    StreamInfo {
        name: header_or_empty(info, "icy-name"),
        description: header_or_empty(info, "icy-description"),
        content_type: header_or_empty(info, "content-type"),
        url: url.to_string(),
        homepage: header_or_empty(info, "icy-url"),
        genre: header_or_empty(info, "icy-genre"),
        bitrate: header_u32(info, "icy-br"),
        sampling: header_u32(info, "icy-sr"),
        codec: codec.to_string(),
        hls: false,
    }
}

/// The stream of an HLS manifest at `url`.
pub fn hls_info(url: &str) -> (r: StreamInfo)
    ensures
        r@ == hls_info_of(url@),
{
    StreamInfo {
        name: String::new(),
        description: String::new(),
        content_type: String::new(),
        url: url.to_string(),
        homepage: String::new(),
        genre: String::new(),
        bitrate: 0,
        sampling: 0,
        codec: "UNKNOWN".to_string(),
        hls: true,
    }
}

} // verus!
