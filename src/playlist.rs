//! Playlists: spotting HLS manifests, decoding M3U/PLS/ASX/XSPF listings
//! (done by the `playlist_decoder` crate), and making their entries absolute.

use vstd::prelude::*;
use crate::text::{blank_in, chars_of, is_blank};
use crate::urls::{join_url, url_join_of};

verus! {

/// Whether `pat` occurs in `s`.
pub open spec fn contains_text(s: Seq<char>, pat: Seq<char>) -> bool {
    exists|i: int| 0 <= i && i + pat.len() <= s.len() && #[trigger] s.subrange(i, i + pat.len()) == pat
}

/// HLS manifests carry one of two tags.
pub open spec fn is_hls_text(content: Seq<char>) -> bool {
    contains_text(content, "EXT-X-STREAM-INF"@) || contains_text(content, "EXT-X-TARGETDURATION"@)
}

/// Relies on `playlist_decoder::is_content_hls`: true exactly when the text
/// contains `EXT-X-STREAM-INF` or `EXT-X-TARGETDURATION`.
#[verifier::external_body]
pub(crate) fn is_content_hls(content: &str) -> (r: bool)
    ensures
        r == is_hls_text(content@),
{
    playlist_decoder::is_content_hls(content)
}

/// The set of URLs that `playlist_decoder::decode` finds in a playlist text,
/// or its error message.
pub uninterp spec fn playlist_urls_of(content: Seq<char>) -> Result<Set<Seq<char>>, Seq<char>>;

pub open spec fn texts_view(v: Seq<String>) -> Seq<Seq<char>> {
    v.map_values(|s: String| s@)
}

/// Relies on `playlist_decoder::decode`: the URLs of a playlist, each once.
/// They come out of a hash set, so their order is not fixed; the set is.
#[verifier::external_body]
pub(crate) fn decode(content: &str) -> (r: Result<Vec<String>, String>)
    ensures
        match (r, playlist_urls_of(content@)) {
            (Ok(v), Ok(s)) => texts_view(v@).to_set() == s && texts_view(v@).no_duplicates(),
            (Err(e), Err(m)) => e@ == m,
            _ => false,
        },
{
    match playlist_decoder::decode(content) {
        Ok(v) => Ok(v),
        Err(e) => Err(e.to_string()),
    }
}

/// A playlist entry made absolute, or why that failed.
pub type Entry = Result<String, String>;

pub open spec fn entry_view(e: Entry) -> Result<Seq<char>, Seq<char>> {
    match e {
        Ok(u) => Ok(u@),
        Err(m) => Err(m@),
    }
}

pub open spec fn entries_view(v: Seq<Entry>) -> Seq<Result<Seq<char>, Seq<char>>> {
    v.map_values(|e: Entry| entry_view(e))
}

/// The entries of a listing: blank ones are dropped, the others are read
/// against the playlist's own URL.
pub open spec fn entries_of(base: Seq<char>, listing: Seq<Seq<char>>) -> Seq<Result<Seq<char>, Seq<char>>>
    decreases listing.len(),
{
    if listing.len() == 0 {
        Seq::empty()
    } else {
        let before = entries_of(base, listing.drop_last());
        if is_blank(listing.last()) {
            before
        } else {
            before.push(url_join_of(base, listing.last()))
        }
    }
}

/// The entries of a decoded listing, in listing order.
pub fn playlist_entries(base: &str, listing: &Vec<String>) -> (r: Vec<Entry>)
    ensures
        entries_view(r@) == entries_of(base@, texts_view(listing@)),
{
    let mut out: Vec<Entry> = Vec::new();
    let mut i: usize = 0;
    while i < listing.len()
        invariant
            i <= listing@.len(),
            entries_view(out@) == entries_of(base@, texts_view(listing@.subrange(0, i as int))),
        decreases listing.len() - i,
    {
        let t = chars_of(listing[i].as_str());
        let blank = blank_in(&t, 0, t.len());
        assert(t@.subrange(0, t@.len() as int) =~= t@);
        let ghost prev = out@;
        assert(texts_view(listing@.subrange(0, i + 1)).drop_last() =~= texts_view(listing@.subrange(0, i as int)));
        assert(texts_view(listing@.subrange(0, i + 1)).last() == listing@[i as int]@);
        if !blank {
            out.push(join_url(base, listing[i].as_str()));
            assert(entries_view(out@) =~= entries_view(prev).push(entry_view(out@.last())));
        }
        i = i + 1;
    }
    assert(listing@.subrange(0, listing@.len() as int) =~= listing@);
    out
}

} // verus!
