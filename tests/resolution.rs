use std::collections::HashMap;

use stream_check::headers::{HttpHeaders, ResponseHeadReader};
use stream_check::playlist::playlist_entries;
use stream_check::request::Request;
use stream_check::resolver::{Action, Resolver};
use stream_check::streamcheck::{classify, Outcome, Reaction};

/// A small web of canned answers: head text and body for each URL.
struct Pages {
    pages: HashMap<String, (String, String)>,
}

impl Pages {
    fn new() -> Pages {
        Pages { pages: HashMap::new() }
    }

    fn add(&mut self, url: &str, head: &str, body: &str) {
        self.pages.insert(url.to_string(), (head.to_string(), body.to_string()));
    }
}

fn parse_head(text: &str) -> Result<HttpHeaders, String> {
    let mut reader = ResponseHeadReader::new();
    for b in text.bytes() {
        if reader.push(b) {
            break;
        }
    }
    reader.finish().map_err(|e| e.details)
}

fn run(pages: &Pages, url: &str, check_all: bool, depth: u32) -> Vec<Outcome> {
    let mut resolver = Resolver::new(url, check_all, depth);
    let mut current: Option<Request> = None;
    let mut body = String::new();
    loop {
        match resolver.next_action() {
            Action::Fetch(u) => match pages.pages.get(&u) {
                Some((head, b)) => {
                    let fetched = parse_head(head);
                    body = b.clone();
                    resolver.on_head(&fetched);
                    if let Ok(h) = fetched {
                        current = Some(Request::new(&u, h));
                    }
                }
                None => resolver.on_head(&Err("connection refused".to_string())),
            },
            Action::ReadBody => {
                let mut request = current.take().unwrap();
                request.read_content(&body.as_bytes().to_vec());
                let content = request.get_content().to_string();
                resolver.on_content(&content);
            }
            Action::Finished => break,
        }
    }
    resolver.into_outcomes()
}

const MP3_HEAD: &str = "HTTP/1.0 200 OK\r\nContent-Type: audio/mpeg\r\nicy-br: 128\r\nicy-name: Test Radio\r\n\r\n";

#[test]
fn direct_stream() {
    let mut p = Pages::new();
    p.add("http://radio.example.com/live", MP3_HEAD, "");
    let out = run(&p, "http://radio.example.com/live", false, 5);
    assert_eq!(out.len(), 1);
    let info = out[0].as_ref().ok().unwrap();
    assert_eq!(info.codec, "MP3");
    assert_eq!(info.bitrate, 128);
    assert_eq!(info.name, "Test Radio");
    assert!(!info.hls);
    assert_eq!(info.url, "http://radio.example.com/live");
    assert_eq!(info.sampling, 0);
    assert_eq!(info.genre, "");
}

#[test]
fn redirect_reaches_final_url() {
    let mut p = Pages::new();
    p.add("http://a.example.com/", "HTTP/1.1 302 Found\r\nLocation: http://b.example.com/s\r\n\r\n", "");
    p.add("http://b.example.com/s", "ICY 200 OK\r\ncontent-type: audio/aacp\r\nicy-sr: 44100\r\n\r\n", "");
    let out = run(&p, "http://a.example.com/", false, 5);
    assert_eq!(out.len(), 1);
    let info = out[0].as_ref().ok().unwrap();
    assert_eq!(info.url, "http://b.example.com/s");
    assert_eq!(info.codec, "AAC+");
    assert_eq!(info.sampling, 44100);
    assert_eq!(info.bitrate, 0);
}

#[test]
fn redirect_loop_ends_with_depth_error() {
    let mut p = Pages::new();
    p.add("http://a.example.com/", "HTTP/1.1 301 Moved\r\nLocation: http://b.example.com/\r\n\r\n", "");
    p.add("http://b.example.com/", "HTTP/1.1 301 Moved\r\nLocation: http://a.example.com/\r\n\r\n", "");
    let out = run(&p, "http://a.example.com/", false, 3);
    assert_eq!(out.len(), 1);
    let e = out[0].as_ref().err().unwrap();
    assert_eq!(e.details, "max depth reached");
    assert!(e.details.contains("depth"));
}

#[test]
fn redirect_without_location_fails() {
    let mut p = Pages::new();
    p.add("http://a.example.com/", "HTTP/1.1 302 Found\r\n\r\n", "");
    let out = run(&p, "http://a.example.com/", false, 3);
    assert_eq!(out.len(), 1);
    assert_eq!(out[0].as_ref().err().unwrap().details, "redirect without location");
}

#[test]
fn pls_playlist_leads_to_stream() {
    let mut p = Pages::new();
    p.add(
        "http://example.com/radio.pls",
        "HTTP/1.0 200 OK\r\nContent-Type: application/x-scpls\r\n\r\n",
        "[playlist]\nNumberOfEntries=1\nFile1=http://example.com/stream.mp3\n",
    );
    p.add("http://example.com/stream.mp3", "HTTP/1.0 200 OK\r\nContent-Type: audio/mpeg\r\n\r\n", "");
    let out = run(&p, "http://example.com/radio.pls", false, 5);
    assert_eq!(out.len(), 1);
    let info = out[0].as_ref().ok().unwrap();
    assert_eq!(info.url, "http://example.com/stream.mp3");
    assert_eq!(info.codec, "MP3");
}

#[test]
fn empty_playlist_is_an_error() {
    let mut p = Pages::new();
    p.add("http://example.com/empty.m3u", "HTTP/1.0 200 OK\r\nContent-Type: audio/x-mpegurl\r\n\r\n", "#EXTM3U\n");
    let out = run(&p, "http://example.com/empty.m3u", true, 5);
    assert_eq!(out.len(), 1);
    let e = out[0].as_ref().err().unwrap();
    assert_eq!(e.details, "Empty playlist");
    assert_eq!(e.url, "http://example.com/empty.m3u");
}

#[test]
fn hls_manifest_is_a_stream() {
    let mut p = Pages::new();
    p.add(
        "http://example.com/live.m3u8",
        "HTTP/1.0 200 OK\r\nContent-Type: application/vnd.apple.mpegurl\r\n\r\n",
        "#EXTM3U\n#EXT-X-STREAM-INF:BANDWIDTH=128000\nchunks.m3u8\n",
    );
    let out = run(&p, "http://example.com/live.m3u8", false, 5);
    assert_eq!(out.len(), 1);
    let info = out[0].as_ref().ok().unwrap();
    assert!(info.hls);
    assert_eq!(info.codec, "UNKNOWN");
    assert_eq!(info.url, "http://example.com/live.m3u8");
}

#[test]
fn plain_m3u_is_not_hls() {
    let mut p = Pages::new();
    p.add(
        "http://example.com/list.m3u",
        "HTTP/1.0 200 OK\r\nContent-Type: audio/x-mpegurl\r\n\r\n",
        "#EXTM3U\n#EXTINF:-1,Radio\nhttp://example.com/s.mp3\n",
    );
    p.add("http://example.com/s.mp3", MP3_HEAD, "");
    let out = run(&p, "http://example.com/list.m3u", false, 5);
    assert_eq!(out.len(), 1);
    let info = out[0].as_ref().ok().unwrap();
    assert!(!info.hls);
    assert_eq!(info.url, "http://example.com/s.mp3");
}

#[test]
fn hls_by_target_duration() {
    let mut p = Pages::new();
    p.add(
        "http://example.com/media.m3u8",
        "HTTP/1.0 200 OK\r\nContent-Type: application/x-mpegurl\r\n\r\n",
        "#EXTM3U\n#EXT-X-TARGETDURATION:10\nseg1.ts\n",
    );
    let out = run(&p, "http://example.com/media.m3u8", false, 5);
    assert_eq!(out.len(), 1);
    assert!(out[0].as_ref().ok().unwrap().hls);
}

#[test]
fn relative_playlist_entry_is_joined() {
    let mut p = Pages::new();
    p.add("http://example.com/dir/list.m3u", "HTTP/1.0 200 OK\r\nContent-Type: audio/x-mpegurl\r\n\r\n", "stream.ogg\n");
    p.add("http://example.com/dir/stream.ogg", "HTTP/1.0 200 OK\r\nContent-Type: audio/ogg\r\n\r\n", "");
    let out = run(&p, "http://example.com/dir/list.m3u", false, 5);
    assert_eq!(out.len(), 1);
    assert_eq!(out[0].as_ref().ok().unwrap().url, "http://example.com/dir/stream.ogg");
}

#[test]
fn playlist_entries_beyond_depth_fail() {
    let mut p = Pages::new();
    p.add("http://example.com/list.m3u", "HTTP/1.0 200 OK\r\nContent-Type: audio/x-mpegurl\r\n\r\n", "http://example.com/s.mp3\n");
    p.add("http://example.com/s.mp3", MP3_HEAD, "");
    let out = run(&p, "http://example.com/list.m3u", false, 0);
    assert_eq!(out.len(), 1);
    assert_eq!(out[0].as_ref().err().unwrap().details, "max depth reached");
}

#[test]
fn failures_are_outcomes() {
    let mut p = Pages::new();
    p.add("http://example.com/404", "HTTP/1.1 404 Not Found\r\n\r\n", "");
    p.add("http://example.com/html", "HTTP/1.1 200 OK\r\nContent-Type: TEXT/HTML; charset=utf-8\r\n\r\n", "");
    p.add("http://example.com/none", "HTTP/1.1 200 OK\r\n\r\n", "");
    let out = run(&p, "http://example.com/404", false, 5);
    assert_eq!(out[0].as_ref().err().unwrap().details, "illegal http status code 404");
    let out = run(&p, "http://example.com/html", false, 5);
    assert_eq!(out[0].as_ref().err().unwrap().details, "unknown content type text/html; charset=utf-8");
    let out = run(&p, "http://example.com/none", false, 5);
    assert_eq!(out[0].as_ref().err().unwrap().details, "Missing content-type in http header");
    let out = run(&p, "http://example.com/missing", false, 5);
    assert_eq!(out.len(), 1);
    let e = out[0].as_ref().err().unwrap();
    assert_eq!(e.details, "connection refused");
    assert_eq!(e.url, "http://example.com/missing");
}

#[test]
fn playlist_stops_at_first_stream_unless_all_wanted() {
    let mut p = Pages::new();
    p.add(
        "http://example.com/list.m3u",
        "HTTP/1.0 200 OK\r\nContent-Type: audio/x-mpegurl\r\n\r\n",
        "http://example.com/one.mp3\nhttp://example.com/two.mp3\n",
    );
    p.add("http://example.com/one.mp3", MP3_HEAD, "");
    p.add("http://example.com/two.mp3", MP3_HEAD, "");
    let first = run(&p, "http://example.com/list.m3u", false, 5);
    assert_eq!(first.len(), 1);
    assert!(first[0].is_ok());
    let all = run(&p, "http://example.com/list.m3u", true, 5);
    assert_eq!(all.len(), 2);
    assert!(all.iter().all(|o| o.is_ok()));
}

#[test]
fn playlist_skips_broken_entries() {
    let mut p = Pages::new();
    p.add(
        "http://example.com/list.m3u",
        "HTTP/1.0 200 OK\r\nContent-Type: audio/x-mpegurl\r\n\r\n",
        "http://example.com/dead.mp3\nhttp://example.com/good.mp3\n",
    );
    p.add("http://example.com/good.mp3", MP3_HEAD, "");
    let out = run(&p, "http://example.com/list.m3u", false, 5);
    assert_eq!(out.iter().filter(|o| o.is_ok()).count(), 1);
    assert!(out.last().unwrap().is_ok());
}

#[test]
fn classify_reactions() {
    let h = parse_head("HTTP/1.1 307 Temporary\r\nlocation: /next\r\n\r\n").unwrap();
    assert!(matches!(classify(&h), Reaction::Redirect(l) if l == "/next"));
    let h = parse_head("HTTP/1.1 200 OK\r\ncontent-type: audio/x-scpls\r\n\r\n").unwrap();
    assert!(matches!(classify(&h), Reaction::Playlist));
    let h = parse_head("HTTP/1.1 500 Oops\r\n\r\n").unwrap();
    assert!(matches!(classify(&h), Reaction::Failure(m) if m == "illegal http status code 500"));
}

#[test]
fn entries_drop_blanks_and_join() {
    let listing = vec!["  ".to_string(), "a.mp3".to_string(), "http://other.example/b".to_string()];
    let entries = playlist_entries("http://example.com/x/list.m3u", &listing);
    assert_eq!(entries.len(), 2);
    assert_eq!(entries[0].as_ref().unwrap(), "http://example.com/x/a.mp3");
    assert_eq!(entries[1].as_ref().unwrap(), "http://other.example/b");
}

#[test]
fn playlist_at_unparsable_url_gives_one_error() {
    let mut p = Pages::new();
    p.add(
        "radio.m3u",
        "HTTP/1.0 200 OK\r\nContent-Type: audio/x-mpegurl\r\n\r\n",
        "http://example.com/a.mp3\nhttp://example.com/b.mp3\n",
    );
    p.add("http://example.com/a.mp3", MP3_HEAD, "");
    let out = run(&p, "radio.m3u", true, 5);
    assert_eq!(out.len(), 1);
    let e = out[0].as_ref().err().unwrap();
    assert_eq!(e.url, "radio.m3u");
    assert_eq!(e.details, "relative URL without a base");
}
