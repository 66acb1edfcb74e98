use stream_check::headers::{decode_first_line, HeaderMap, HttpHeaders, ResponseHeadReader};
use stream_check::request::Request;

fn read_head(text: &str) -> (bool, Result<HttpHeaders, String>) {
    let mut reader = ResponseHeadReader::new();
    let mut done = false;
    for b in text.bytes() {
        if reader.push(b) {
            done = true;
            break;
        }
    }
    (done, reader.finish().map_err(|e| e.details))
}

#[test]
fn http_status_line() {
    let h = decode_first_line("HTTP/1.1 200 OK").ok().unwrap();
    assert_eq!(h.code, 200);
    assert_eq!(h.message, "OK");
    assert_eq!(h.version, "1.1");
}

#[test]
fn status_line_with_its_line_end() {
    let h = decode_first_line("HTTP/1.1 200\r\n").ok().unwrap();
    assert_eq!(h.code, 200);
    assert_eq!(h.message, "");
    let h = decode_first_line("HTTP/1.0 404 Not Found\r\n").ok().unwrap();
    assert_eq!(h.code, 404);
    assert_eq!(h.message, "Not Found");
    let h = decode_first_line("ICY 200 OK\r\n").ok().unwrap();
    assert_eq!(h.message, "OK");
}

#[test]
fn unknown_status_line_stops_reading() {
    let text = b"SSH-2.0-OpenSSH\r\nmore: bytes\r\n\r\n";
    let mut reader = ResponseHeadReader::new();
    let mut used = 0;
    for b in text.iter() {
        used += 1;
        if reader.push(*b) {
            break;
        }
    }
    assert_eq!(used, 17);
    assert_eq!(reader.finish().err().unwrap().details, "HTTP header missing");
}

#[test]
fn status_line_cut_short_by_end_of_stream() {
    let mut reader = ResponseHeadReader::new();
    for b in b"HTTP/1.1 200".iter() {
        assert!(!reader.push(*b));
    }
    assert_eq!(reader.finish().err().unwrap().details, "HTTP status line too short");
}

#[test]
fn icy_status_line() {
    let h = decode_first_line("ICY 200 OK").ok().unwrap();
    assert_eq!(h.code, 200);
    assert_eq!(h.message, "OK");
    assert_eq!(h.version, "");
}

#[test]
fn status_line_errors() {
    assert_eq!(decode_first_line("HTTP/1.1 20").err().unwrap().details, "HTTP status line too short");
    assert_eq!(decode_first_line("HTTP/1.1 200").err().unwrap().details, "HTTP status line too short");
    assert_eq!(decode_first_line("ICY 20").err().unwrap().details, "ICY status line too short");
    assert_eq!(decode_first_line("HTTP/1.1 2x0 OK").err().unwrap().details, "invalid status code");
    assert_eq!(decode_first_line("SMTP ready").err().unwrap().details, "HTTP header missing");
    assert_eq!(decode_first_line("").err().unwrap().details, "HTTP header missing");
}

#[test]
fn head_reader_stops_at_blank_line() {
    let text = "HTTP/1.0 200 OK\r\nContent-Type: audio/mpeg\r\nicy-br:  128 \r\n\r\nBODY";
    let (done, head) = read_head(text);
    assert!(done);
    let head = head.unwrap();
    assert_eq!(head.code, 200);
    assert_eq!(head.message, "OK");
    assert_eq!(head.headers.get("content-type").unwrap(), "audio/mpeg");
    assert_eq!(head.headers.get("icy-br").unwrap(), "128");
    assert!(head.headers.get("Content-Type").is_none());
}

#[test]
fn head_reader_last_field_wins() {
    let text = "ICY 200 OK\r\nicy-name: first\r\nICY-NAME: second\r\nno colon here\r\n\r\n";
    let (done, head) = read_head(text);
    assert!(done);
    let head = head.unwrap();
    assert_eq!(head.headers.get("icy-name").unwrap(), "second");
}

#[test]
fn head_reader_at_end_of_stream() {
    let (done, head) = read_head("HTTP/1.1 302 Found\r\nLocation: http://example.com/a");
    assert!(!done);
    let head = head.unwrap();
    assert_eq!(head.code, 302);
    assert_eq!(head.headers.get("location").unwrap(), "http://example.com/a");
    let (_, bad) = read_head("garbage\r\n\r\n");
    assert_eq!(bad.err().unwrap(), "HTTP header missing");
}

#[test]
fn header_map_insert_and_get() {
    let mut m = HeaderMap::new();
    assert!(m.get("a").is_none());
    m.insert("a".to_string(), "1".to_string());
    m.insert("b".to_string(), "2".to_string());
    m.insert("a".to_string(), "3".to_string());
    assert_eq!(m.get("a").unwrap(), "3");
    assert_eq!(m.get("b").unwrap(), "2");
}

#[test]
fn request_targets() {
    let t = Request::target("http://example.com/stream").ok().unwrap();
    assert_eq!(t.host, "example.com");
    assert_eq!(t.port, 80);
    assert_eq!(t.path, "/stream");
    assert!(!t.tls);
    let t = Request::target("https://radio.example.org:8443/live.mp3").ok().unwrap();
    assert_eq!(t.host, "radio.example.org");
    assert_eq!(t.port, 8443);
    assert!(t.tls);
    let t = Request::target("http://example.com/listen?sid=1&type=mp3").ok().unwrap();
    assert_eq!(t.path, "/listen?sid=1&type=mp3");
    assert_eq!(Request::target("ftp://example.com/x").err().unwrap().details, "unknown scheme");
    assert_eq!(Request::target("not a url").err().unwrap().details, "relative URL without a base");
}

#[test]
fn request_text_is_a_bare_get() {
    let text = Request::request_text("example.com", "/live", "agent/1");
    assert_eq!(
        text,
        "GET /live HTTP/1.0\r\nHost: example.com\r\nUser-Agent: agent/1\r\nAccept: */*\r\nConnection: close\r\n\r\n"
    );
}

#[test]
fn body_length_from_header() {
    let (_, head) = read_head("HTTP/1.0 200 OK\r\nContent-Length: 42\r\n\r\n");
    let r = Request::new("http://example.com/", head.unwrap());
    assert_eq!(r.content_length(), 42);
    let (_, head) = read_head("HTTP/1.0 200 OK\r\nContent-Length: many\r\n\r\n");
    let r = Request::new("http://example.com/", head.unwrap());
    assert_eq!(r.content_length(), 10000);
    let (_, head) = read_head("HTTP/1.0 200 OK\r\n\r\n");
    let r = Request::new("http://example.com/", head.unwrap());
    assert_eq!(r.content_length(), 10000);
}

#[test]
fn body_read_twice_is_the_same() {
    let (_, head) = read_head("HTTP/1.0 200 OK\r\n\r\n");
    let mut r = Request::new("http://example.com/", head.unwrap());
    assert_eq!(r.get_content(), "");
    r.read_content(&b"first body".to_vec());
    let once = r.get_content().to_string();
    assert!(r.is_content_read());
    r.read_content(&b"second body".to_vec());
    assert_eq!(r.get_content(), once);
    assert_eq!(once, "first body");
}

#[test]
fn body_with_invalid_utf8_is_tolerated() {
    let (_, head) = read_head("HTTP/1.0 200 OK\r\n\r\n");
    let mut r = Request::new("http://example.com/", head.unwrap());
    r.read_content(&vec![b'o', b'k', 0xff]);
    assert_eq!(r.get_content(), "ok\u{fffd}");
}
