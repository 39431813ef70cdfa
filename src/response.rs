//! Outbound responses: status, headers and a body, and their wire form.
use vstd::prelude::*;
use crate::bytes::{append, decimal, decimal_of, lit, text};
use crate::fcgi_response::FcgiResponse;
use crate::headers::{key_index, key_position, pairs, HeaderPairs};

verus! {

/// A body held in memory, read front to back.
pub struct StringReader {
    content: Vec<u8>,
    idx: usize,
}

impl View for StringReader {
    type V = Seq<u8>;

    /// The bytes not read yet.
    closed spec fn view(&self) -> Seq<u8> {
        if self.idx <= self.content@.len() {
            self.content@.subrange(self.idx as int, self.content@.len() as int)
        } else {
            Seq::empty()
        }
    }
}

impl StringReader {
    pub fn new(content: Vec<u8>) -> (r: StringReader)
        ensures
            r@ == content@,
    {
        let r = StringReader { content, idx: 0 };
        assert(r@ =~= r.content@);
        r
    }

    /// Reads up to `max` bytes; an empty result means the end.
    pub fn read(&mut self, max: usize) -> (r: Vec<u8>)
        ensures
            ({
                let n = if max < old(self)@.len() {
                    max as int
                } else {
                    old(self)@.len() as int
                };
                &&& r@ == old(self)@.subrange(0, n)
                &&& final(self)@ == old(self)@.subrange(n, old(self)@.len() as int)
            }),
    {
        let len = self.content.len();
        if self.idx >= len {
            let r: Vec<u8> = Vec::new();
            assert(r@ =~= old(self)@.subrange(0, 0));
            assert(self@ =~= old(self)@.subrange(0, 0));
            return r;
        }
        let avail = len - self.idx;
        let n = if max < avail {
            max
        } else {
            avail
        };
        let out = crate::bytes::copy_range(self.content.as_slice(), self.idx, self.idx + n);
        self.idx = self.idx + n;
        assert(out@ =~= old(self)@.subrange(0, n as int));
        assert(self@ =~= old(self)@.subrange(n as int, old(self)@.len() as int));
        out
    }
}

/// Where the body of a response comes from.
pub enum Content {
    /// Held in memory.
    Inline(StringReader),
    /// Streamed by the caller from a file or a FastCGI responder.
    Streamed,
}

pub struct Response {
    status: u32,
    headers: Vec<(Vec<u8>, Vec<u8>)>,
    content: Content,
}

/// `HTTP/1.1 <status> OK` and CR LF; the reason phrase is always `OK`.
pub open spec fn status_line_of(status: u32) -> Seq<u8> {
    text("HTTP/1.1 ") + decimal(status as nat) + text(" OK\r\n")
}

pub open spec fn header_kv(p: (Seq<u8>, Seq<u8>)) -> Seq<u8> {
    p.0 + seq![58u8] + p.1
}

/// Headers as `name:value`, separated by line feeds, the last one without.
pub open spec fn joined_headers(m: HeaderPairs) -> Seq<u8>
    decreases m.len(),
{
    if m.len() == 0 {
        Seq::empty()
    } else if m.len() == 1 {
        header_kv(m[0])
    } else {
        joined_headers(m.drop_last()) + seq![10u8] + header_kv(m.last())
    }
}

/// The head written for a response: status line, headers, blank line.
pub open spec fn wire_head(status: u32, m: HeaderPairs) -> Seq<u8> {
    status_line_of(status) + joined_headers(m) + seq![13u8, 10u8, 13u8, 10u8]
}

pub open spec fn mime_table() -> HeaderPairs {
    seq![
        (text("html"), text("text/html")),
        (text("htm"), text("text/html")),
        (text("css"), text("text/css")),
        (text("js"), text("text/javascript")),
        (text("json"), text("application/json")),
        (text("txt"), text("text/plain")),
        (text("xml"), text("application/xml")),
        (text("csv"), text("text/csv")),
        (text("png"), text("image/png")),
        (text("jpg"), text("image/jpeg")),
        (text("jpeg"), text("image/jpeg")),
        (text("gif"), text("image/gif")),
        (text("svg"), text("image/svg+xml")),
        (text("ico"), text("image/x-icon")),
        (text("webp"), text("image/webp")),
        (text("pdf"), text("application/pdf")),
        (text("wasm"), text("application/wasm")),
        (text("zip"), text("application/zip")),
        (text("mp3"), text("audio/mpeg")),
        (text("mp4"), text("video/mp4")),
        (text("woff"), text("font/woff")),
        (text("woff2"), text("font/woff2")),
        (text("ttf"), text("font/ttf")),
    ]
}

/// Content type for a file extension; unknown ones are
/// `application/octet-stream`.
pub open spec fn mime_of(ext: Seq<u8>) -> Seq<u8> {
    let i = key_index(mime_table(), ext);
    if i >= 0 {
        mime_table()[i].1
    } else {
        text("application/octet-stream")
    }
}

pub open spec fn not_found_body(query_path: Seq<u8>) -> Seq<u8> {
    text(NOT_FOUND_HEAD) + query_path + text(NOT_FOUND_TAIL)
}

pub const NOT_FOUND_HEAD: &'static str = "<!DOCTYPE html><html><head><meta charset=\"utf-8\"><title>404 Not Found</title></head><body><h1>Not Found</h1><p>The requested path <code>";

pub const NOT_FOUND_TAIL: &'static str = "</code> was not found on this server.</p></body></html>";

fn mime_entries() -> (r: Vec<(Vec<u8>, Vec<u8>)>)
    ensures
        pairs(r@) == mime_table(),
{
    let mut t: Vec<(Vec<u8>, Vec<u8>)> = Vec::new();
    t.push((lit("html"), lit("text/html")));
    t.push((lit("htm"), lit("text/html")));
    t.push((lit("css"), lit("text/css")));
    t.push((lit("js"), lit("text/javascript")));
    t.push((lit("json"), lit("application/json")));
    t.push((lit("txt"), lit("text/plain")));
    t.push((lit("xml"), lit("application/xml")));
    t.push((lit("csv"), lit("text/csv")));
    t.push((lit("png"), lit("image/png")));
    t.push((lit("jpg"), lit("image/jpeg")));
    t.push((lit("jpeg"), lit("image/jpeg")));
    t.push((lit("gif"), lit("image/gif")));
    t.push((lit("svg"), lit("image/svg+xml")));
    t.push((lit("ico"), lit("image/x-icon")));
    t.push((lit("webp"), lit("image/webp")));
    t.push((lit("pdf"), lit("application/pdf")));
    t.push((lit("wasm"), lit("application/wasm")));
    t.push((lit("zip"), lit("application/zip")));
    t.push((lit("mp3"), lit("audio/mpeg")));
    t.push((lit("mp4"), lit("video/mp4")));
    t.push((lit("woff"), lit("font/woff")));
    t.push((lit("woff2"), lit("font/woff2")));
    t.push((lit("ttf"), lit("font/ttf")));
    assert(pairs(t@) =~= mime_table());
    t
}

/// Content type for a file extension.
pub fn get_mime(ext: &[u8]) -> (r: Vec<u8>)
    ensures
        r@ == mime_of(ext@),
{
    let table = mime_entries();
    match key_position(&table, ext, 0) {
        Some(i) => {
            let mut out: Vec<u8> = Vec::new();
            append(&mut out, table[i].1.as_slice());
            assert(out@ =~= mime_table()[i as int].1);
            out
        },
        None => lit("application/octet-stream"),
    }
}

pub open spec fn length_type_close(len: nat, content_type: Seq<u8>) -> HeaderPairs {
    seq![
        (text("Content-Length"), decimal(len)),
        (text("Content-Type"), content_type),
        (text("Connection"), text("close")),
    ]
}

pub fn length_type_close_exec(len: u64, content_type: Vec<u8>) -> (r: Vec<(Vec<u8>, Vec<u8>)>)
    ensures
        pairs(r@) == length_type_close(len as nat, content_type@),
{
    let mut h: Vec<(Vec<u8>, Vec<u8>)> = Vec::new();
    h.push((lit("Content-Length"), decimal_of(len)));
    h.push((lit("Content-Type"), content_type));
    h.push((lit("Connection"), lit("close")));
    assert(pairs(h@) =~= length_type_close(len as nat, content_type@));
    h
}

impl Response {
    pub closed spec fn spec_status(&self) -> u32 {
        self.status
    }

    pub closed spec fn spec_headers(&self) -> HeaderPairs {
        pairs(self.headers@)
    }

    /// The body bytes still to be read, for a body held in memory.
    pub closed spec fn spec_inline(&self) -> Option<Seq<u8>> {
        match &self.content {
            Content::Inline(r) => Some(r@),
            Content::Streamed => None,
        }
    }

    pub fn headers(&self) -> (r: &Vec<(Vec<u8>, Vec<u8>)>)
        ensures
            pairs(r@) == self.spec_headers(),
    {
        &self.headers
    }

    pub fn status(&self) -> (r: u32)
        ensures
            r == self.spec_status(),
    {
        self.status
    }

    pub fn status_line(&self) -> (r: Vec<u8>)
        ensures
            r@ == status_line_of(self.spec_status()),
    {
        let mut out = lit("HTTP/1.1 ");
        crate::bytes::push_decimal(&mut out, self.status as u64);
        append(&mut out, lit(" OK\r\n").as_slice());
        out
    }

    /// Whether the caller streams the body from elsewhere.
    pub fn is_streamed(&self) -> (r: bool)
        ensures
            r == (self.spec_inline() is None),
    {
        match &self.content {
            Content::Inline(_) => false,
            Content::Streamed => true,
        }
    }

    /// Reads up to `max` bytes of a body held in memory; empty at its end
    /// (and always, for a streamed body).
    pub fn read(&mut self, max: usize) -> (r: Vec<u8>)
        ensures
            final(self).spec_status() == old(self).spec_status(),
            final(self).spec_headers() == old(self).spec_headers(),
            old(self).spec_inline() is None ==> r@.len() == 0 && final(self).spec_inline() is None,
            old(self).spec_inline() matches Some(b) ==> ({
                let n = if max < b.len() {
                    max as int
                } else {
                    b.len() as int
                };
                &&& r@ == b.subrange(0, n)
                &&& final(self).spec_inline() == Some(b.subrange(n, b.len() as int))
            }),
    {
        match &mut self.content {
            Content::Inline(reader) => reader.read(max),
            Content::Streamed => Vec::new(),
        }
    }

    /// The head written for this response with the given headers (those
    /// left once the cache control headers are taken out).
    pub fn head_bytes(&self, headers: &Vec<(Vec<u8>, Vec<u8>)>) -> (r: Vec<u8>)
        ensures
            r@ == wire_head(self.spec_status(), pairs(headers@)),
    {
        let mut out = self.status_line();
        let ghost prefix = out@;
        let ghost m = pairs(headers@);
        let mut i: usize = 0;
        while i < headers.len()
            invariant
                i <= headers@.len(),
                m == pairs(headers@),
                out@ == prefix + joined_headers(m.subrange(0, i as int)),
            decreases headers@.len() - i,
        {
            if i > 0 {
                out.push(10u8);
            }
            append(&mut out, headers[i].0.as_slice());
            out.push(58u8);
            append(&mut out, headers[i].1.as_slice());
            proof {
                let sub = m.subrange(0, i + 1);
                assert(sub.drop_last() =~= m.subrange(0, i as int));
                assert(sub.last() == m[i as int]);
                if i == 0 {
                    assert(sub[0] == m[0]);
                }
                assert(out@ =~= prefix + joined_headers(sub));
            }
            i = i + 1;
        }
        assert(m.subrange(0, headers@.len() as int) =~= m);
        out.push(13u8);
        out.push(10u8);
        out.push(13u8);
        out.push(10u8);
        assert(out@ =~= wire_head(self.spec_status(), m));
        out
    }

    /// A response whose body is held in memory.
    pub fn with_body(status: u32, headers: Vec<(Vec<u8>, Vec<u8>)>, body: Vec<u8>) -> (r: Response)
        ensures
            r.spec_status() == status,
            r.spec_headers() == pairs(headers@),
            r.spec_inline() == Some(body@),
    {
        Response { status, headers, content: Content::Inline(StringReader::new(body)) }
    }

    /// 404 with an HTML page that names the requested path.
    pub fn not_found(query_path: &[u8]) -> (r: Response)
        ensures
            r.spec_status() == 404,
            r.spec_inline() == Some(not_found_body(query_path@)),
            r.spec_headers() == length_type_close(
                not_found_body(query_path@).len(),
                text("text/html"),
            ),
    {
        let mut body = lit(NOT_FOUND_HEAD);
        append(&mut body, query_path);
        append(&mut body, lit(NOT_FOUND_TAIL).as_slice());
        assert(body@ =~= not_found_body(query_path@));
        let headers = length_type_close_exec(body.len() as u64, lit("text/html"));
        Response { status: 404, headers, content: Content::Inline(StringReader::new(body)) }
    }

    /// 200 for a regular file of `size` bytes, its type from its extension;
    /// the caller streams the file.
    pub fn file(size: u64, ext: &[u8]) -> (r: Response)
        ensures
            r.spec_status() == 200,
            r.spec_inline() is None,
            r.spec_headers() == length_type_close(size as nat, mime_of(ext@)),
    {
        let headers = length_type_close_exec(size, get_mime(ext));
        Response { status: 200, headers, content: Content::Streamed }
    }

    /// 200 for a script served as plain text when no FastCGI responder is
    /// available; the caller streams the file.
    pub fn get_php_raw_file_response() -> (r: Response)
        ensures
            r.spec_status() == 200,
            r.spec_inline() is None,
            r.spec_headers() == seq![
                (text("Content-Type"), text("text/plain")),
                (text("Connection"), text("close")),
            ],
    {
        let mut h: Vec<(Vec<u8>, Vec<u8>)> = Vec::new();
        h.push((lit("Content-Type"), lit("text/plain")));
        h.push((lit("Connection"), lit("close")));
        let r = Response { status: 200, headers: h, content: Content::Streamed };
        assert(r.spec_headers() =~= seq![
            (text("Content-Type"), text("text/plain")),
            (text("Connection"), text("close")),
        ]);
        r
    }

    /// Status and headers from a responder's head; the caller streams the
    /// rest of its output.
    pub fn php(fcgi: &FcgiResponse) -> (r: Response)
        ensures
            r.spec_status() == fcgi@.status,
            r.spec_headers() == fcgi@.headers,
            r.spec_inline() is None,
    {
        Response { status: fcgi.status(), headers: fcgi.headers(), content: Content::Streamed }
    }
}

} // verus!
