//! One HTTP(S) exchange as the library sees it: where to connect, what to
//! send, and the response's head and body once they have been read.

use vstd::prelude::*;
use vstd::string::StringExecFns;
use crate::headers::{lossy_of, lossy_text, HttpHeaders, RequestError, HeadView};
use crate::text::{chars_of, decimal_value, parse_decimal};
use crate::urls::{parse_url, url_parse_of};

verus! {

/// Where a request goes; `path` is the path with its query.
pub struct Target {
    pub host: String,
    pub port: u16,
    pub path: String,
    pub tls: bool,
}

/// The target of a URL: only `http` and `https` are spoken, and both need a
/// host and a port.
pub open spec fn target_of(url: Seq<char>) -> Result<(Seq<char>, u16, Seq<char>, bool), Seq<char>> {
    match url_parse_of(url) {
        Err(m) => Err(m),
        Ok((scheme, host, port, path, query)) => if scheme != "http"@ && scheme != "https"@ {
            Err("unknown scheme"@)
        } else {
            match (host, port) {
                (None, _) => Err("illegal host name"@),
                (Some(_), None) => Err("port unknown"@),
                (Some(h), Some(p)) => Ok((h, p, resource_of(path, query), scheme == "https"@)),
            }
        },
    }
}

/// The resource a request names: the path, and the query after a `?`.
pub open spec fn resource_of(path: Seq<char>, query: Option<Seq<char>>) -> Seq<char> {
    match query {
        Some(q) => path + "?"@ + q,
        None => path,
    }
}

/// The request that is sent: a bare `GET` of the path.
pub open spec fn request_text(host: Seq<char>, path: Seq<char>, user_agent: Seq<char>) -> Seq<char> {
    "GET "@ + path + " HTTP/1.0\r\nHost: "@ + host + "\r\nUser-Agent: "@ + user_agent
        + "\r\nAccept: */*\r\nConnection: close\r\n\r\n"@
}

/// How many body bytes to read: the `content-length`, or 10000 without a
/// usable one.
pub open spec fn body_length(h: HeadView) -> nat {
    if h.headers.contains_key("content-length"@) {
        match decimal_value(h.headers["content-length"@], usize::MAX as nat) {
            Some(n) => n,
            None => 10000,
        }
    } else {
        10000
    }
}

/// The content after a body read: a read that finds the content already
/// read keeps it, the first one decodes the body.
pub open spec fn content_after_read(done: bool, content: Seq<char>, body: Seq<u8>) -> Seq<char> {
    if done {
        content
    } else {
        lossy_of(body)
    }
}

/// A response whose head has been read; its body is read at most once.
pub struct Request {
    url: String,
    pub info: HttpHeaders,
    content_read_done: bool,
    content: String,
}

impl Request {
    pub closed spec fn head(&self) -> HeadView {
        self.info@
    }

    pub closed spec fn url_spec(&self) -> Seq<char> {
        self.url@
    }

    pub closed spec fn content_read_done_spec(&self) -> bool {
        self.content_read_done
    }

    pub closed spec fn content_spec(&self) -> Seq<char> {
        self.content@
    }

    /// Where to connect for `url_str`, or why that cannot be done.
    pub fn target(url_str: &str) -> (r: Result<Target, RequestError>)
        ensures
            match (r, target_of(url_str@)) {
                (Ok(t), Ok((h, p, path, tls))) => t.host@ == h && t.port == p && t.path@ == path && t.tls == tls,
                (Err(e), Err(m)) => e.details@ == m,
                _ => false,
            },
    {
        match parse_url(url_str) {
            Err(m) => Err(RequestError { details: m }),
            Ok(parts) => {
                let s = chars_of(parts.scheme.as_str());
                let http = crate::text::segment_is(&s, 0, s.len(), "http");
                let https = crate::text::segment_is(&s, 0, s.len(), "https");
                assert(s@.subrange(0, s@.len() as int) =~= s@);
                if !http && !https {
                    return Err(RequestError::new("unknown scheme"));
                }
                match (parts.host, parts.port) {
                    (None, _) => Err(RequestError::new("illegal host name")),
                    (Some(_), None) => Err(RequestError::new("port unknown")),
                    (Some(host), Some(port)) => {
                        let mut path = parts.path;
                        if let Some(q) = parts.query {
                            path.append("?");
                            path.append(q.as_str());
                        }
                        Ok(Target { host, port, path, tls: https })
                    },
                }
            },
        }
    }

    /// The bytes of the request line and headers for `host` and `path`.
    pub fn request_text(host: &str, path: &str, user_agent: &str) -> (r: String)
        ensures
            r@ == request_text(host@, path@, user_agent@),
    {
        let mut s = String::from_str("GET ");
        s.append(path);
        s.append(" HTTP/1.0\r\nHost: ");
        s.append(host);
        s.append("\r\nUser-Agent: ");
        s.append(user_agent);
        s.append("\r\nAccept: */*\r\nConnection: close\r\n\r\n");
        s
    }

    /// A response from `url` whose head is `info`; nothing of its body is
    /// read yet.
    pub fn new(url: &str, info: HttpHeaders) -> (r: Request)
        ensures
            r.url_spec() == url@,
            r.head() == info@,
            !r.content_read_done_spec(),
            r.content_spec() == Seq::<char>::empty(),
    {
        Request { url: url.to_string(), info, content_read_done: false, content: String::new() }
    }

    pub fn url(&self) -> (r: &str)
        ensures
            r@ == self.url_spec(),
    {
        self.url.as_str()
    }

    /// How many body bytes are to be read for this response.
    pub fn content_length(&self) -> (r: usize)
        ensures
            r as nat == body_length(self.head()),
    {
        match self.info.headers.get("content-length") {
            Some(v) => {
                let t = chars_of(v.as_str());
                assert(t@.subrange(0, t@.len() as int) =~= t@);
                match parse_decimal(&t, 0, t.len()) {
                    Some(n) if n <= usize::MAX as u64 => n as usize,
                    _ => 10000,
                }
            },
            None => 10000,
        }
    }

    /// Keeps the body read from the connection; only the first call counts,
    /// later ones leave the content as it is.
    pub fn read_content(&mut self, body: &Vec<u8>)
        ensures
            final(self).head() == old(self).head(),
            final(self).url_spec() == old(self).url_spec(),
            final(self).content_read_done_spec(),
            final(self).content_spec() == content_after_read(
                old(self).content_read_done_spec(),
                old(self).content_spec(),
                body@,
            ),
    {
        if self.content_read_done {
            return;
        }
        self.content_read_done = true;
        assert(body@.subrange(0, body@.len() as int) =~= body@);
        self.content = lossy_text(body, 0, body.len());
    }

    /// Whether the body has been read already.
    pub fn is_content_read(&self) -> (r: bool)
        ensures
            r == self.content_read_done_spec(),
    {
        self.content_read_done
    }

    pub fn get_content(&self) -> (r: &str)
        ensures
            r@ == self.content_spec(),
    {
        self.content.as_str()
    }
}

/// Reading the body twice gives the content of the first read both times:
/// the second read consumes nothing and changes nothing.
pub proof fn lemma_read_content_idempotent(done: bool, content: Seq<char>, first: Seq<u8>, second: Seq<u8>)
    ensures
        content_after_read(true, content_after_read(done, content, first), second)
            == content_after_read(done, content, first),
{
}

} // verus!
