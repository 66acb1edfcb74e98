//! The head of an HTTP (or legacy ICY) response: status line and header
//! fields, read byte by byte from a socket and parsed.

use vstd::prelude::*;
use crate::text::{chars_of, find_from, find_in, lemma_find_from_bounds, lower, lower_chars, parse_decimal, decimal_value, starts_with, string_of, trim, trimmed};

verus! {

/// What `String::from_utf8_lossy` makes of a byte sequence.
pub uninterp spec fn lossy_of(b: Seq<u8>) -> Seq<char>;

/// Relies on `String::from_utf8_lossy`: the text of `b[from..to]`, with
/// invalid UTF-8 replaced; the result depends on the bytes alone.
#[verifier::external_body]
pub(crate) fn lossy_text(b: &Vec<u8>, from: usize, to: usize) -> (r: String)
    requires
        from <= to <= b@.len(),
    ensures
        r@ == lossy_of(b@.subrange(from as int, to as int)),
{
    String::from_utf8_lossy(&b[from..to]).into_owned()
}

/// Header fields by lower-case name. Fields are kept in arrival order and a
/// later field hides an earlier one of the same name.
pub struct HeaderMap {
    fields: Vec<(String, String)>,
}

pub open spec fn fields_map(f: Seq<(String, String)>) -> Map<Seq<char>, Seq<char>>
    decreases f.len(),
{
    if f.len() == 0 {
        Map::empty()
    } else {
        fields_map(f.drop_last()).insert(f.last().0@, f.last().1@)
    }
}

impl View for HeaderMap {
    type V = Map<Seq<char>, Seq<char>>;

    closed spec fn view(&self) -> Map<Seq<char>, Seq<char>> {
        fields_map(self.fields@)
    }
}

proof fn lemma_fields_map_skip(f: Seq<(String, String)>, k: Seq<char>, n: int)
    requires
        0 <= n <= f.len(),
        forall|j: int| n <= j < f.len() ==> f[j].0@ != k,
    ensures
        fields_map(f).contains_key(k) == fields_map(f.subrange(0, n)).contains_key(k),
        fields_map(f)[k] == fields_map(f.subrange(0, n))[k],
    decreases f.len() - n,
{
    if n < f.len() {
        lemma_fields_map_skip(f, k, n + 1);
        assert(f.subrange(0, n + 1).drop_last() =~= f.subrange(0, n));
    } else {
        assert(f.subrange(0, n) =~= f);
    }
}

impl HeaderMap {
    pub fn new() -> (r: HeaderMap)
        ensures
            r@ == Map::<Seq<char>, Seq<char>>::empty(),
    {
        HeaderMap { fields: Vec::new() }
    }

    /// Sets the value of a field; a later call for the same name wins.
    pub fn insert(&mut self, key: String, value: String)
        ensures
            final(self)@ == old(self)@.insert(key@, value@),
    {
        self.fields.push((key, value));
        assert(self.fields@.drop_last() =~= old(self).fields@);
    }

    /// The value of a field by its (lower-case) name.
    pub fn get(&self, key: &str) -> (r: Option<&String>)
        ensures
            match r {
                Some(v) => self@.contains_key(key@) && self@[key@] == v@,
                None => !self@.contains_key(key@),
            },
    {
        let k = key.to_string();
        let mut i = self.fields.len();
        while i > 0
            invariant
                i <= self.fields@.len(),
                k@ == key@,
                forall|j: int| i <= j < self.fields@.len() ==> self.fields@[j].0@ != key@,
            decreases i,
        {
            if self.fields[i - 1].0 == k {
                proof {
                    lemma_fields_map_skip(self.fields@, key@, i as int);
                    assert(self.fields@.subrange(0, i as int).drop_last() =~= self.fields@.subrange(0, i - 1));
                }
                return Some(&self.fields[i - 1].1);
            }
            i = i - 1;
        }
        proof {
            lemma_fields_map_skip(self.fields@, key@, 0);
        }
        None
    }
}

/// An error of the HTTP layer, with a readable cause.
pub struct RequestError {
    pub details: String,
}

impl RequestError {
    pub fn new(msg: &str) -> (r: RequestError)
        ensures
            r.details@ == msg@,
    {
        RequestError { details: msg.to_string() }
    }
}

/// The parsed head of a response.
pub struct HttpHeaders {
    pub code: u32,
    pub message: String,
    pub version: String,
    pub headers: HeaderMap,
}

pub ghost struct HeadView {
    pub code: u32,
    pub message: Seq<char>,
    pub version: Seq<char>,
    pub headers: Map<Seq<char>, Seq<char>>,
}

impl View for HttpHeaders {
    type V = HeadView;

    open spec fn view(&self) -> HeadView {
        HeadView {
            code: self.code,
            message: self.message@,
            version: self.version@,
            headers: self.headers@,
        }
    }
}

/// Where the text of a status line ends: before its `\r\n`, if it has one.
pub open spec fn line_text_end(l: Seq<char>) -> int {
    if l.len() >= 2 && l[l.len() - 2] == '\r' && l[l.len() - 1] == '\n' {
        l.len() - 2
    } else {
        l.len() as int
    }
}

/// A status line as it was read, with its `\r\n` if that arrived: code,
/// message and protocol version, or why it is refused. An HTTP line needs
/// 14 characters with its line end counted.
pub open spec fn status_line(l: Seq<char>) -> Result<(u32, Seq<char>, Seq<char>), Seq<char>> {
    let e = line_text_end(l);
    if l.len() >= 5 && l.subrange(0, 5) == "HTTP/"@ {
        if l.len() < 14 {
            Err("HTTP status line too short"@)
        } else {
            match decimal_value(l.subrange(9, 12), u32::MAX as nat) {
                Some(c) => Ok((
                    c as u32,
                    if e > 13 { l.subrange(13, e) } else { Seq::empty() },
                    l.subrange(5, 8),
                )),
                None => Err("invalid status code"@),
            }
        }
    } else if l.len() >= 3 && l.subrange(0, 3) == "ICY"@ {
        if l.len() < 7 {
            Err("ICY status line too short"@)
        } else {
            match decimal_value(l.subrange(4, 7), u32::MAX as nat) {
                Some(c) => Ok((c as u32, if e > 8 { l.subrange(8, e) } else { Seq::empty() }, Seq::empty())),
                None => Err("invalid status code"@),
            }
        }
    } else {
        Err("HTTP header missing"@)
    }
}

/// Decodes a status line (`HTTP/1.1 200 OK` or `ICY 200 OK`) as it was
/// read, with its line end if that arrived.
pub fn decode_first_line(line: &str) -> (r: Result<HttpHeaders, RequestError>)
    ensures
        match (r, status_line(line@)) {
            (Ok(h), Ok((c, m, v))) => h.code == c && h.message@ == m && h.version@ == v
                && h.headers@ == Map::<Seq<char>, Seq<char>>::empty(),
            (Err(e), Err(msg)) => e.details@ == msg,
            _ => false,
        },
{
    let l = chars_of(line);
    let n = l.len();
    let e = if n >= 2 && l[n - 2] == '\r' && l[n - 1] == '\n' { n - 2 } else { n };
    proof {
        reveal_strlit("HTTP/");
        reveal_strlit("ICY");
    }
    if starts_with(&l, "HTTP/") {
        if n < 14 {
            return Err(RequestError::new("HTTP status line too short"));
        }
        match parse_decimal(&l, 9, 12) {
            Some(c) if c <= 0xffff_ffff => {
                let message = if e > 13 { string_of(&l, 13, e) } else { String::new() };
                Ok(HttpHeaders {
                    code: c as u32,
                    message,
                    version: string_of(&l, 5, 8),
                    headers: HeaderMap::new(),
                })
            },
            _ => Err(RequestError::new("invalid status code")),
        }
    } else if starts_with(&l, "ICY") {
        if n < 7 {
            return Err(RequestError::new("ICY status line too short"));
        }
        match parse_decimal(&l, 4, 7) {
            Some(c) if c <= 0xffff_ffff => {
                let message = if e > 8 { string_of(&l, 8, e) } else { String::new() };
                Ok(HttpHeaders {
                    code: c as u32,
                    message,
                    version: String::new(),
                    headers: HeaderMap::new(),
                })
            },
            _ => Err(RequestError::new("invalid status code")),
        }
    } else {
        Err(RequestError::new("HTTP header missing"))
    }
}

} // verus!

verus! {

/// A line without the `\r` of a `\r\n` line end.
pub open spec fn strip_cr(l: Seq<char>) -> Seq<char> {
    if l.len() > 0 && l.last() == '\r' {
        l.drop_last()
    } else {
        l
    }
}

/// The lines of `t` from position `p` on; each runs up to the next `\n`.
pub open spec fn lines_from(t: Seq<char>, p: int) -> Seq<Seq<char>>
    decreases t.len() - p,
{
    if p < 0 || p >= t.len() {
        Seq::empty()
    } else {
        proof {
            lemma_find_from_bounds(t, '\n', p);
        }
        let k = find_from(t, '\n', p);
        if k < t.len() {
            seq![strip_cr(t.subrange(p, k))] + lines_from(t, k + 1)
        } else {
            seq![strip_cr(t.subrange(p, k))]
        }
    }
}

/// One header line applied to the fields so far: `name: value` sets the
/// lower-case name to the trimmed value; a line without a colon is ignored.
pub open spec fn apply_line(m: Map<Seq<char>, Seq<char>>, l: Seq<char>) -> Map<Seq<char>, Seq<char>> {
    let c = crate::text::find_char(l, ':');
    if c < l.len() {
        m.insert(lower(l.subrange(0, c)), trim(l.subrange(c + 1, l.len() as int)))
    } else {
        m
    }
}

pub open spec fn apply_lines(m: Map<Seq<char>, Seq<char>>, ls: Seq<Seq<char>>) -> Map<Seq<char>, Seq<char>>
    decreases ls.len(),
{
    if ls.len() == 0 {
        m
    } else {
        apply_lines(apply_line(m, ls[0]), ls.drop_first())
    }
}

/// The header fields of a header block.
pub open spec fn header_fields(t: Seq<char>) -> Map<Seq<char>, Seq<char>> {
    apply_lines(Map::empty(), lines_from(t, 0))
}

fn apply_header_line(fields: &mut HeaderMap, line: &Vec<char>)
    ensures
        final(fields)@ == apply_line(old(fields)@, line@),
{
    let c = find_in(line, ':');
    if c < line.len() {
        let key = lower_chars(&crate::text::sub_chars(line, 0, c));
        let n = key.len();
        let key = string_of(&key, 0, n);
        assert(key@ =~= lower(line@.subrange(0, c as int)));
        let value = trimmed(line, c + 1, line.len());
        fields.insert(key, value);
    }
}

/// Adds the fields of a header block to `fields`, line by line.
pub fn read_header_block(fields: &mut HeaderMap, text: &str)
    ensures
        final(fields)@ == apply_lines(old(fields)@, lines_from(text@, 0)),
{
    let t = chars_of(text);
    let mut p: usize = 0;
    while p < t.len()
        invariant
            p <= t@.len(),
            t@ == text@,
            apply_lines(fields@, lines_from(t@, p as int)) == apply_lines(old(fields)@, lines_from(t@, 0)),
        decreases t.len() - p,
    {
        let k = crate::text::find_in_from(&t, '\n', p);
        let end = if k > p && t[k - 1] == '\r' { k - 1 } else { k };
        let line = crate::text::sub_chars(&t, p, end);
        assert(line@ =~= strip_cr(t@.subrange(p as int, k as int)));
        let ghost before = fields@;
        apply_header_line(fields, &line);
        assert(lines_from(t@, p as int).drop_first() =~= lines_from(t@, k + 1));
        p = if k < t.len() { k + 1 } else { t.len() };
    }
}

/// Position of the first `\r\n` in `b` at or after `i`, or the length of `b`.
pub open spec fn find_crlf(b: Seq<u8>, i: int) -> int
    decreases b.len() - i,
{
    if i < 0 || i + 1 >= b.len() {
        b.len() as int
    } else if b[i] == 13 && b[i + 1] == 10 {
        i
    } else {
        find_crlf(b, i + 1)
    }
}

proof fn lemma_find_crlf_bounds(b: Seq<u8>, i: int)
    requires
        0 <= i <= b.len(),
    ensures
        i <= find_crlf(b, i) <= b.len(),
        find_crlf(b, i) < b.len() ==> find_crlf(b, i) + 2 <= b.len(),
    decreases b.len() - i,
{
    if i + 1 < b.len() && !(b[i] == 13 && b[i + 1] == 10) {
        lemma_find_crlf_bounds(b, i + 1);
    }
}

/// A status line whose first bytes are `HTTP/` or `ICY`, the two kinds
/// spoken here.
pub open spec fn status_known(line: Seq<u8>) -> bool {
    (line.len() >= 5 && line.subrange(0, 5) == seq![72u8, 84u8, 84u8, 80u8, 47u8])
        || (line.len() >= 3 && line.subrange(0, 3) == seq![73u8, 67u8, 89u8])
}

/// The head of a response from the bytes received: the status line runs
/// through the first `\r\n`, the header block follows it. A status line of
/// an unknown kind is refused from its bytes.
pub open spec fn head_of(b: Seq<u8>) -> Result<HeadView, Seq<char>> {
    let k = find_crlf(b, 0);
    let rest = if k + 2 <= b.len() { k + 2 } else { b.len() as int };
    if !status_known(b.subrange(0, k)) {
        Err("HTTP header missing"@)
    } else {
        match status_line(lossy_of(b.subrange(0, rest))) {
            Err(m) => Err(m),
            Ok((c, m, v)) => Ok(HeadView {
                code: c,
                message: m,
                version: v,
                headers: header_fields(lossy_of(b.subrange(rest, b.len() as int))),
            }),
        }
    }
}

/// A head is complete at the blank line that ends it, or as soon as its
/// status line has arrived and is of an unknown kind.
pub open spec fn head_complete(b: Seq<u8>) -> bool {
    (b.len() >= 4 && b.subrange(b.len() - 4, b.len() as int) == seq![13u8, 10u8, 13u8, 10u8])
        || (find_crlf(b, 0) < b.len() && !status_known(b.subrange(0, find_crlf(b, 0))))
}

proof fn lemma_find_crlf_push(b: Seq<u8>, x: u8, i: int)
    requires
        0 <= i <= b.len(),
    ensures
        find_crlf(b, i) < b.len() ==> find_crlf(b.push(x), i) == find_crlf(b, i),
        find_crlf(b, i) >= b.len() ==> find_crlf(b.push(x), i) == if i + 1 <= b.len() && b.len() >= 1 && b.last()
            == 13 && x == 10 {
            b.len() - 1
        } else {
            b.len() + 1int
        },
    decreases b.len() - i,
{
    let c = b.push(x);
    assert(c[b.len() as int] == x);
    if i + 1 < b.len() {
        assert(c[i] == b[i] && c[i + 1] == b[i + 1]);
        if !(b[i] == 13 && b[i + 1] == 10) {
            lemma_find_crlf_push(b, x, i + 1);
        }
    } else if i + 1 == b.len() {
        assert(c[i] == b.last());
        if !(c[i] == 13 && x == 10) {
            assert(find_crlf(c, i + 1) == c.len());
        }
    }
}

fn known_line(b: &Vec<u8>, k: usize) -> (r: bool)
    requires
        k <= b@.len(),
    ensures
        r == status_known(b@.subrange(0, k as int)),
{
    let ghost l = b@.subrange(0, k as int);
    let http = k >= 5 && b[0] == 72 && b[1] == 84 && b[2] == 84 && b[3] == 80 && b[4] == 47;
    let icy = k >= 3 && b[0] == 73 && b[1] == 67 && b[2] == 89;
    proof {
        if k >= 5 {
            if http {
                assert(l.subrange(0, 5) =~= seq![72u8, 84u8, 84u8, 80u8, 47u8]);
            } else {
                let p = l.subrange(0, 5);
                assert(p[0] == b@[0] && p[1] == b@[1] && p[2] == b@[2] && p[3] == b@[3] && p[4] == b@[4]);
                assert(seq![72u8, 84u8, 84u8, 80u8, 47u8][0] == 72u8);
                assert(p != seq![72u8, 84u8, 84u8, 80u8, 47u8]) by {
                    if p == seq![72u8, 84u8, 84u8, 80u8, 47u8] {
                        assert(p[1] == 84u8 && p[2] == 84u8 && p[3] == 80u8 && p[4] == 47u8);
                    }
                }
            }
        }
        if k >= 3 {
            if icy {
                assert(l.subrange(0, 3) =~= seq![73u8, 67u8, 89u8]);
            } else {
                let p = l.subrange(0, 3);
                assert(p[0] == b@[0] && p[1] == b@[1] && p[2] == b@[2]);
                assert(p != seq![73u8, 67u8, 89u8]) by {
                    if p == seq![73u8, 67u8, 89u8] {
                        assert(p[0] == 73u8 && p[1] == 67u8 && p[2] == 89u8);
                    }
                }
            }
        }
    }
    http || icy
}

fn blank_line_at_end(b: &Vec<u8>) -> (r: bool)
    ensures
        r == (b@.len() >= 4 && b@.subrange(b@.len() - 4, b@.len() as int) == seq![13u8, 10u8, 13u8, 10u8]),
{
    let n = b.len();
    let done = n >= 4 && b[n - 4] == 13 && b[n - 3] == 10 && b[n - 2] == 13 && b[n - 1] == 10;
    proof {
        if n >= 4 {
            let tail = b@.subrange(n - 4, n as int);
            assert(tail[0] == b@[n - 4] && tail[1] == b@[n - 3] && tail[2] == b@[n - 2] && tail[3] == b@[n - 1]);
            if done {
                assert(tail =~= seq![13u8, 10u8, 13u8, 10u8]);
            }
        }
    }
    done
}

/// Collects the bytes of a response head as they arrive, one at a time.
pub struct ResponseHeadReader {
    bytes: Vec<u8>,
    /// The length of the status line without its `\r\n`, once that arrived.
    line_len: Option<usize>,
}

impl View for ResponseHeadReader {
    type V = Seq<u8>;

    closed spec fn view(&self) -> Seq<u8> {
        self.bytes@
    }
}

impl ResponseHeadReader {
    /// The status line end is known exactly when it has arrived.
    pub closed spec fn wf(&self) -> bool {
        match self.line_len {
            Some(k) => k == find_crlf(self.bytes@, 0) && k < self.bytes@.len(),
            None => find_crlf(self.bytes@, 0) >= self.bytes@.len(),
        }
    }

    pub fn new() -> (r: ResponseHeadReader)
        ensures
            r.wf(),
            r@ == Seq::<u8>::empty(),
    {
        ResponseHeadReader { bytes: Vec::new(), line_len: None }
    }

    /// Takes one more byte; true once the head is complete.
    pub fn push(&mut self, byte: u8) -> (done: bool)
        requires
            old(self).wf(),
            !head_complete(old(self)@),
        ensures
            final(self).wf(),
            final(self)@ == old(self)@.push(byte),
            done == head_complete(final(self)@),
    {
        proof {
            lemma_find_crlf_push(self.bytes@, byte, 0);
            lemma_find_crlf_bounds(self.bytes@, 0);
        }
        let n = self.bytes.len();
        let ends_line = self.line_len.is_none() && n >= 1 && self.bytes[n - 1] == 13 && byte == 10;
        self.bytes.push(byte);
        if ends_line {
            self.line_len = Some(n - 1);
        }
        let unknown = match self.line_len {
            Some(k) => !known_line(&self.bytes, k),
            None => false,
        };
        blank_line_at_end(&self.bytes) || unknown
    }

    pub fn is_complete(&self) -> (r: bool)
        requires
            self.wf(),
        ensures
            r == head_complete(self@),
    {
        let unknown = match self.line_len {
            Some(k) => !known_line(&self.bytes, k),
            None => false,
        };
        blank_line_at_end(&self.bytes) || unknown
    }

    /// Parses what has arrived: a complete head, or whatever came before the
    /// connection closed.
    pub fn finish(&self) -> (r: Result<HttpHeaders, RequestError>)
        requires
            self.wf(),
        ensures
            match (r, head_of(self@)) {
                (Ok(h), Ok(v)) => h@ == v,
                (Err(e), Err(m)) => e.details@ == m,
                _ => false,
            },
    {
        let b = &self.bytes;
        let n = b.len();
        proof {
            lemma_find_crlf_bounds(b@, 0);
        }
        let (k, rest) = match self.line_len {
            Some(k) => (k, k + 2),
            None => (n, n),
        };
        if !known_line(b, k) {
            return Err(RequestError::new("HTTP header missing"));
        }
        let status = lossy_text(b, 0, rest);
        match decode_first_line(status.as_str()) {
            Err(e) => Err(e),
            Ok(mut h) => {
                let block = lossy_text(b, rest, n);
                read_header_block(&mut h.headers, block.as_str());
                Ok(h)
            },
        }
    }
}

} // verus!
