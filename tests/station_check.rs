use stream_check::check::{
    any_found, build_check, change_line, choose_favicon, detect_change, favicon_ok, retry_needed,
    NewStationCheckItem, StationItem, Tone,
};
use stream_check::streamcheck::{hls_info, Outcome, StreamCheckError, StreamInfo};
use stream_check::watchdog::{Verdict, Watchdog, HANG_EXIT_CODE};

fn station(check_ok: bool, bitrate: u32) -> StationItem {
    StationItem {
        id: 7,
        uuid: "u-1".to_string(),
        name: "Test Radio".to_string(),
        url: "http://radio.example.com/live".to_string(),
        homepage: "http://radio.example.com/".to_string(),
        favicon: "http://radio.example.com/icon.png".to_string(),
        bitrate,
        codec: "MP3".to_string(),
        hls: false,
        check_ok,
    }
}

fn stream(url: &str, codec: &str, bitrate: u32) -> StreamInfo {
    StreamInfo {
        name: String::new(),
        description: String::new(),
        content_type: "audio/mpeg".to_string(),
        url: url.to_string(),
        homepage: String::new(),
        genre: String::new(),
        bitrate,
        sampling: 0,
        codec: codec.to_string(),
        hls: false,
    }
}

fn failure(url: &str) -> Outcome {
    Err(StreamCheckError::new(url, "illegal http status code 404"))
}

fn record(check_ok: bool, bitrate: u32) -> NewStationCheckItem {
    NewStationCheckItem {
        station_uuid: "u-1".to_string(),
        source: "host".to_string(),
        codec: "MP3".to_string(),
        bitrate,
        hls: false,
        check_ok,
        url: "http://radio.example.com/live".to_string(),
    }
}

#[test]
fn check_uses_first_stream() {
    let s = station(false, 0);
    let outcomes = vec![failure("http://a/"), Ok(stream("http://b/", "AAC", 64)), Ok(stream("http://c/", "MP3", 128))];
    let r = build_check(&s, "host", &outcomes);
    assert!(r.check_ok);
    assert_eq!(r.codec, "AAC");
    assert_eq!(r.bitrate, 64);
    assert_eq!(r.url, "http://b/");
    assert_eq!(r.station_uuid, "u-1");
    assert_eq!(r.source, "host");
}

#[test]
fn check_without_stream_fails() {
    let s = station(true, 128);
    let r = build_check(&s, "host", &vec![failure("http://a/")]);
    assert!(!r.check_ok);
    assert_eq!(r.codec, "");
    assert_eq!(r.bitrate, 0);
    assert!(!r.hls);
    let r = build_check(&s, "host", &vec![]);
    assert!(!r.check_ok);
}

#[test]
fn check_of_hls_stream() {
    let s = station(true, 128);
    let r = build_check(&s, "host", &vec![Ok(hls_info("http://x/live.m3u8"))]);
    assert!(r.check_ok);
    assert!(r.hls);
    assert_eq!(r.codec, "UNKNOWN");
}

#[test]
fn retries_only_after_failure() {
    let failed = vec![failure("http://a/")];
    let found = vec![Ok(stream("http://b/", "MP3", 128))];
    assert!(!any_found(&failed));
    assert!(any_found(&found));
    assert!(retry_needed(1, 2, &failed));
    assert!(retry_needed(2, 2, &failed));
    assert!(!retry_needed(3, 2, &failed));
    assert!(!retry_needed(1, 2, &found));
    assert!(!retry_needed(1, 0, &failed));
}

#[test]
fn bitrate_change_is_not_a_flip() {
    let before = station(true, 128);
    let after = record(true, 192);
    let change = detect_change(&before, &after, "http://radio.example.com/icon.png");
    assert!(change.bitrate_changed);
    assert!(!change.flipped());
    assert!(!change.codec_changed);
    assert!(!change.hls_changed);
    assert!(!change.favicon_changed);
    assert_eq!(change.tone(), Tone::Steady);
    assert_eq!(
        change_line(&before, &after, &change, "http://radio.example.com/icon.png"),
        "Test Radio (u-1): bitrate 128 -> 192"
    );
}

#[test]
fn station_breaks_and_is_repaired() {
    let before = station(true, 128);
    let mut after = record(false, 0);
    after.codec = String::new();
    let change = detect_change(&before, &after, "");
    assert_eq!(change.tone(), Tone::Broken);
    assert!(change.flipped());
    assert_eq!(
        change_line(&before, &after, &change, ""),
        "Test Radio (u-1): check_ok true -> false codec MP3 ->  bitrate 128 -> 0 favicon http://radio.example.com/icon.png -> "
    );
    let before = station(false, 0);
    let after = record(true, 0);
    let change = detect_change(&before, &after, "http://radio.example.com/icon.png");
    assert_eq!(change.tone(), Tone::Repaired);
}

#[test]
fn favicon_rules() {
    assert!(favicon_ok(true, Some("image/png")));
    assert!(!favicon_ok(true, Some("text/html")));
    assert!(!favicon_ok(false, Some("image/png")));
    assert!(!favicon_ok(true, None));
    assert_eq!(choose_favicon("old.png", true, None), "old.png");
    assert_eq!(choose_favicon("old.png", false, Some(vec!["a.ico".to_string(), "b.ico".to_string()])), "a.ico");
    assert_eq!(choose_favicon("old.png", false, Some(vec![])), "");
    assert_eq!(choose_favicon("old.png", false, None), "");
}

#[test]
fn watchdog_fires_on_hang() {
    let mut w = Watchdog::new(2, 3);
    assert_eq!(w.deadline(), 12);
    for _ in 0..11 {
        assert_eq!(w.poll(false), Verdict::Wait);
    }
    assert_eq!(w.poll(false), Verdict::Fire);
    assert_ne!(HANG_EXIT_CODE, 0);
}

#[test]
fn watchdog_stands_down_when_done() {
    let mut w = Watchdog::new(1, 10);
    assert_eq!(w.poll(false), Verdict::Wait);
    assert_eq!(w.poll(true), Verdict::StandDown);
    let mut z = Watchdog::new(0, 10);
    assert_eq!(z.poll(false), Verdict::Fire);
}
