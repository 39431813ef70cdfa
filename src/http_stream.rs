//! HTTP/1.1 request heads: framing the head out of the bytes read so far,
//! parsing it, and the bounded reading of the body that follows.
use vstd::prelude::*;
use crate::bytes::{
    append, contains, copy_range, find, index_of, index_of_byte,
    index_of_from, lemma_index_of_bounds, lit, parse_decimal, parse_unsigned, seq_index,
    text, to_ascii_upper, to_upper,
};
use crate::cache::{asks, plain_headers, Cache, CacheControl};
use crate::conf::Conf;
use crate::headers::{ci_index, ci_position, lemma_put_unique, pairs, put, put_header, unique_names, HeaderPairs};

verus! {

/// Largest head, in bytes, that is buffered while no terminator was seen.
pub const MAX_HEAD: usize = 8192;

/// Largest chunk read from the connection at a time.
pub const READ_CHUNK: usize = 4096;

pub open spec fn terminator() -> Seq<u8> {
    seq![13u8, 10u8, 13u8, 10u8]
}

pub open spec fn crlf() -> Seq<u8> {
    seq![13u8, 10u8]
}

/// What the bytes read so far say about the head.
#[derive(Debug, PartialEq, Eq, Structural, Clone, Copy)]
pub enum Framing {
    /// No terminator yet and still within the limit.
    NeedMore,
    /// The terminator has arrived.
    Complete,
    /// Over the limit without a terminator.
    TooLarge,
}

#[derive(Debug, PartialEq, Eq, Structural, Clone, Copy)]
pub enum HeadError {
    /// The peer closed before sending anything (a pre-connection probe).
    NoData,
    /// The peer closed before the head was complete.
    NoValidHeader,
    /// The request line does not have three space-separated tokens.
    MalformedRequestLine,
    /// The method is not one this server knows.
    InvalidMethod,
    /// POST and PUT must declare Content-Length.
    ContentLengthRequired,
}

pub open spec fn framing(b: Seq<u8>) -> Framing {
    if contains(b, terminator()) {
        Framing::Complete
    } else if b.len() > MAX_HEAD {
        Framing::TooLarge
    } else {
        Framing::NeedMore
    }
}

/// Decides, from everything read so far, whether the head is complete.
pub fn frame_head(buffer: &[u8]) -> (r: Framing)
    ensures
        r == framing(buffer@),
{
    let t = vec![13u8, 10u8, 13u8, 10u8];
    assert(t@ =~= terminator());
    match find(buffer, t.as_slice()) {
        Some(_) => Framing::Complete,
        None => {
            if buffer.len() > MAX_HEAD {
                Framing::TooLarge
            } else {
                Framing::NeedMore
            }
        },
    }
}

/// The error for a connection that closed while the head was incomplete.
pub fn closed_early(buffered: usize) -> (r: HeadError)
    ensures
        buffered == 0 ==> r == HeadError::NoData,
        buffered > 0 ==> r == HeadError::NoValidHeader,
{
    if buffered == 0 {
        HeadError::NoData
    } else {
        HeadError::NoValidHeader
    }
}

/// The bytes of a request read so far, while its head is incomplete.
pub struct HeadReader {
    buffer: Vec<u8>,
}

impl HeadReader {
    pub closed spec fn buffered(&self) -> Seq<u8> {
        self.buffer@
    }

    pub fn new() -> (r: HeadReader)
        ensures
            r.buffered() == Seq::<u8>::empty(),
            framing(r.buffered()) == Framing::NeedMore,
    {
        let r = HeadReader { buffer: Vec::new() };
        assert(!contains(r.buffer@, terminator()));
        r
    }

    /// Adds a chunk read from the connection and judges the head. The
    /// decision is reached before more than `MAX_HEAD + READ_CHUNK` bytes
    /// are buffered.
    pub fn feed(&mut self, chunk: &[u8]) -> (r: Framing)
        requires
            framing(old(self).buffered()) == Framing::NeedMore,
            chunk@.len() <= READ_CHUNK,
        ensures
            final(self).buffered() == old(self).buffered() + chunk@,
            r == framing(final(self).buffered()),
            final(self).buffered().len() <= MAX_HEAD + READ_CHUNK,
    {
        crate::bytes::append(&mut self.buffer, chunk);
        frame_head(self.buffer.as_slice())
    }

    /// The error for a connection that closed now.
    pub fn closed(&self) -> (r: HeadError)
        ensures
            self.buffered().len() == 0 ==> r == HeadError::NoData,
            self.buffered().len() > 0 ==> r == HeadError::NoValidHeader,
    {
        closed_early(self.buffer.len())
    }

    /// The bytes read, for `HttpStream::new`.
    pub fn take(self) -> (r: Vec<u8>)
        ensures
            r@ == self.buffered(),
    {
        self.buffer
    }
}

/// A head that fits within the limit is framed: no prefix of the bytes is
/// ever judged too large, and once the terminator is in, the head is
/// complete. Bytes over the limit without a terminator are judged too large.
pub proof fn lemma_head_framing(b: Seq<u8>, i: int)
    ensures
        has_at_end_within(b, i) ==> framing(b) == Framing::Complete,
        has_at_end_within(b, i) ==> forall|k: int|
            0 <= k <= b.len() ==> #[trigger] framing(b.subrange(0, k)) != Framing::TooLarge,
        b.len() > MAX_HEAD && !contains(b, terminator()) ==> framing(b) == Framing::TooLarge,
{
    if has_at_end_within(b, i) {
        assert(crate::bytes::has_at(b, terminator(), i));
        assert forall|k: int| 0 <= k <= b.len() implies #[trigger] framing(b.subrange(0, k))
            != Framing::TooLarge by {
            let p = b.subrange(0, k);
            if k >= i + 4 {
                assert(p.subrange(i, i + 4) =~= b.subrange(i, i + 4));
                assert(crate::bytes::has_at(p, terminator(), i));
            }
        }
    }
}

/// `b` holds the terminator at `i`, ending within the limit.
pub open spec fn has_at_end_within(b: Seq<u8>, i: int) -> bool {
    crate::bytes::has_at(b, terminator(), i) && i + 4 <= MAX_HEAD
}

pub open spec fn strip_cr(l: Seq<u8>) -> Seq<u8> {
    if l.len() > 0 && l.last() == 13 {
        l.drop_last()
    } else {
        l
    }
}

/// The line that starts at `pos`, without its line feed and carriage return.
pub open spec fn line_at(h: Seq<u8>, pos: int) -> Seq<u8> {
    strip_cr(h.subrange(pos, index_of_from(h, 10, pos)))
}

/// Adds the header that a line carries, if it holds `": "`.
pub open spec fn header_line(acc: HeaderPairs, line: Seq<u8>) -> HeaderPairs {
    let sep = seq_index(line, seq![58u8, 32u8]);
    if sep < 0 {
        acc
    } else {
        put(acc, line.subrange(0, sep), line.subrange(sep + 2, line.len() as int))
    }
}

/// Headers of the lines from `pos` on, added to `acc`.
pub open spec fn headers_from(h: Seq<u8>, pos: int, acc: HeaderPairs) -> HeaderPairs
    decreases h.len() + 1 - pos,
    via headers_from_decreases
{
    if pos < 0 || pos >= h.len() {
        acc
    } else {
        headers_from(h, index_of_from(h, 10, pos) + 1, header_line(acc, line_at(h, pos)))
    }
}

#[via_fn]
proof fn headers_from_decreases(h: Seq<u8>, pos: int, acc: HeaderPairs) {
    if pos >= 0 && pos < h.len() {
        lemma_index_of_bounds(h, 10, pos);
    }
}

/// A parsed request head.
pub struct HeadModel {
    /// Uppercased method.
    pub method: Seq<u8>,
    /// The raw request target.
    pub query_path: Seq<u8>,
    /// The target before the first `?`.
    pub path: Seq<u8>,
    /// The target after the first `?`.
    pub query: Seq<u8>,
    pub headers: HeaderPairs,
    pub content_length: Option<nat>,
}

pub open spec fn known_method(m: Seq<u8>) -> bool {
    ||| m == text("GET")
    ||| m == text("POST")
    ||| m == text("HEAD")
    ||| m == text("DELETE")
    ||| m == text("TRACE")
    ||| m == text("PUT")
    ||| m == text("PATCH")
    ||| m == text("OPTIONS")
}

pub open spec fn first_space(line: Seq<u8>) -> int {
    index_of(line, 32)
}

pub open spec fn second_space(line: Seq<u8>) -> int {
    index_of_from(line, 32, first_space(line) + 1)
}

pub open spec fn request_line_ok(line: Seq<u8>) -> bool {
    first_space(line) < line.len() && second_space(line) < line.len()
}

pub open spec fn path_of(target: Seq<u8>) -> Seq<u8> {
    target.subrange(0, index_of(target, 63))
}

pub open spec fn query_of(target: Seq<u8>) -> Seq<u8> {
    let q = index_of(target, 63);
    if q < target.len() {
        target.subrange(q + 1, target.len() as int)
    } else {
        Seq::empty()
    }
}

/// Content-Length of a header map: the first header of that name in any
/// case; a value that is no number counts as 0.
pub open spec fn content_length_of(m: HeaderPairs) -> Option<nat> {
    let i = ci_index(m, text("content-length"));
    if i < 0 {
        None
    } else {
        match parse_unsigned(m[i].1, usize::MAX as nat) {
            Some(v) => Some(v),
            None => Some(0),
        }
    }
}

pub open spec fn head_headers(h: Seq<u8>) -> HeaderPairs {
    headers_from(h, index_of(h, 10) + 1, Seq::empty())
}

pub open spec fn needs_length(method: Seq<u8>) -> bool {
    method == text("POST") || method == text("PUT")
}

/// The meaning of a complete head (the bytes up to and including the
/// terminator).
pub open spec fn parse_head(h: Seq<u8>) -> Result<HeadModel, HeadError> {
    let line = line_at(h, 0);
    if !request_line_ok(line) {
        Err(HeadError::MalformedRequestLine)
    } else {
        let method = to_upper(line.subrange(0, first_space(line)));
        let target = line.subrange(first_space(line) + 1, second_space(line));
        if !known_method(method) {
            Err(HeadError::InvalidMethod)
        } else {
            let headers = head_headers(h);
            let len = content_length_of(headers);
            if needs_length(method) && len is None {
                Err(HeadError::ContentLengthRequired)
            } else {
                Ok(
                    HeadModel {
                        method,
                        query_path: target,
                        path: path_of(target),
                        query: query_of(target),
                        headers,
                        content_length: len,
                    },
                )
            }
        }
    }
}

/// Where the head ends in the bytes read: just past the first terminator.
pub open spec fn head_end(b: Seq<u8>) -> int {
    seq_index(b, terminator()) + 4
}

/// POST and PUT heads without a Content-Length header never parse.
pub proof fn lemma_length_required(h: Seq<u8>)
    requires
        request_line_ok(line_at(h, 0)),
        needs_length(to_upper(line_at(h, 0).subrange(0, first_space(line_at(h, 0))))),
        ci_index(head_headers(h), text("content-length")) < 0,
    ensures
        parse_head(h) is Err,
{
}

pub fn strip_cr_range(h: &[u8], lo: usize, hi: usize) -> (r: Vec<u8>)
    requires
        lo <= hi <= h@.len(),
    ensures
        r@ == strip_cr(h@.subrange(lo as int, hi as int)),
{
    if hi > lo && h[hi - 1] == 13 {
        let r = copy_range(h, lo, hi - 1);
        assert(r@ =~= strip_cr(h@.subrange(lo as int, hi as int)));
        r
    } else {
        copy_range(h, lo, hi)
    }
}

fn add_header_line(m: &mut Vec<(Vec<u8>, Vec<u8>)>, line: &[u8])
    ensures
        pairs(final(m)@) == header_line(pairs(old(m)@), line@),
{
    let sep = vec![58u8, 32u8];
    assert(sep@ =~= seq![58u8, 32u8]);
    let n = line.len();
    match find(line, sep.as_slice()) {
        Some(i) => {
            assert(i + 2 <= n);
            let name = copy_range(line, 0, i);
            let value = copy_range(line, i + 2, line.len());
            put_header(m, name, value);
        },
        None => {},
    }
}

fn parse_headers(h: &[u8], start: usize) -> (r: Vec<(Vec<u8>, Vec<u8>)>)
    requires
        start <= h@.len(),
    ensures
        pairs(r@) == headers_from(h@, start as int, Seq::empty()),
        unique_names(pairs(r@)),
{
    let mut m: Vec<(Vec<u8>, Vec<u8>)> = Vec::new();
    let mut pos: usize = start;
    assert(pairs(m@) =~= Seq::<(Seq<u8>, Seq<u8>)>::empty());
    while pos < h.len()
        invariant
            pos <= h@.len(),
            unique_names(pairs(m@)),
            headers_from(h@, pos as int, pairs(m@)) == headers_from(h@, start as int, Seq::empty()),
        decreases h@.len() + 1 - pos,
    {
        let e = index_of_byte(h, 10, pos);
        let line = strip_cr_range(h, pos, e);
        let ghost before = pairs(m@);
        add_header_line(&mut m, line.as_slice());
        proof {
            let sep = crate::bytes::seq_index(line@, seq![58u8, 32u8]);
            if sep >= 0 {
                lemma_put_unique(before, line@.subrange(0, sep), line@.subrange(sep + 2, line@.len() as int));
            }
        }
        assert(headers_from(h@, pos as int, before) == headers_from(h@, e + 1, pairs(m@)));
        pos = if e < h.len() { e + 1 } else { h.len() };
        assert(headers_from(h@, pos as int, pairs(m@)) == headers_from(h@, e + 1, pairs(m@)));
    }
    m
}

fn is_known_method(m: &[u8]) -> (r: bool)
    ensures
        r == known_method(m@),
{
    crate::bytes::bytes_eq(m, lit("GET").as_slice()) || crate::bytes::bytes_eq(m, lit("POST").as_slice())
        || crate::bytes::bytes_eq(m, lit("HEAD").as_slice()) || crate::bytes::bytes_eq(
        m,
        lit("DELETE").as_slice(),
    ) || crate::bytes::bytes_eq(m, lit("TRACE").as_slice()) || crate::bytes::bytes_eq(
        m,
        lit("PUT").as_slice(),
    ) || crate::bytes::bytes_eq(m, lit("PATCH").as_slice()) || crate::bytes::bytes_eq(
        m,
        lit("OPTIONS").as_slice(),
    )
}

/// The header lines of a map, each `name: value` and CR LF.
pub open spec fn header_text(m: HeaderPairs) -> Seq<u8>
    decreases m.len(),
{
    if m.len() == 0 {
        Seq::empty()
    } else {
        header_text(m.drop_last()) + m.last().0 + seq![58u8, 32u8] + m.last().1 + crlf()
    }
}

/// The head forwarded upstream: request line, headers, blank line.
pub open spec fn request_block(h: HeadModel) -> Seq<u8> {
    h.method + seq![32u8] + h.query_path + text(" HTTP/1.1\r\n") + header_text(h.headers) + crlf()
}

pub open spec fn min_nat(a: nat, b: nat) -> nat {
    if a < b {
        a
    } else {
        b
    }
}

/// One step of reading the body, from `old` to `new` with at most `max`
/// bytes: nothing once the declared body is read (or when none was
/// declared); else the next bytes that arrived with the head; else a bounded
/// read from the connection. Never past the declared length.
pub open spec fn body_step(old: HttpStream, new: HttpStream, max: usize, r: BodyRead) -> bool {
    &&& new.head() == old.head()
    &&& new.body_read() <= old.body_read() + old.body_remaining()
    &&& old.body_remaining() == 0 ==> r is Done && new == old
    &&& old.body_remaining() > 0 && old.carry().len() > 0 ==> ({
        let n = min_nat(min_nat(max as nat, old.body_remaining()), old.carry().len());
        &&& r matches BodyRead::Buffered(v)
        &&& v@ == old.carry().subrange(0, n as int)
        &&& new.carry() == old.carry().subrange(n as int, old.carry().len() as int)
        &&& new.body_read() == old.body_read() + n
    })
    &&& old.body_remaining() > 0 && old.carry().len() == 0 ==> r == BodyRead::Transport(
        min_nat(max as nat, old.body_remaining()) as usize,
    ) && new == old
}

/// Reading never hands out more than the declared length: a step keeps
/// the bytes read within it and hands out exactly what it counts.
pub proof fn lemma_body_bounded(old: HttpStream, new: HttpStream, max: usize, r: BodyRead, l: nat)
    requires
        body_step(old, new, max, r),
        old.head().content_length == Some(l),
        old.body_read() <= l,
    ensures
        new.body_read() <= l,
        r matches BodyRead::Buffered(v) ==> new.body_read() == old.body_read() + v@.len(),
        r matches BodyRead::Transport(k) ==> old.body_read() + k <= l,
        r is Done ==> old.body_read() == l,
{
}

/// A request whose head has been read, with the body bytes that arrived
/// with it.
pub struct HttpStream {
    buffer: Vec<u8>,
    len: Option<usize>,
    read: usize,
    method: Vec<u8>,
    query_path: Vec<u8>,
    path: Vec<u8>,
    query: Vec<u8>,
    headers: Vec<(Vec<u8>, Vec<u8>)>,
}

/// Body bytes still owed: declared length minus what was read.
pub open spec fn remaining(len: Option<nat>, read: nat) -> nat {
    match len {
        Some(l) => if read < l {
            (l - read) as nat
        } else {
            0
        },
        None => 0,
    }
}

/// One step of reading the body.
#[derive(Debug)]
pub enum BodyRead {
    /// The declared body has been read, or none was declared.
    Done,
    /// Bytes that arrived together with the head.
    Buffered(Vec<u8>),
    /// Read at most this many bytes from the connection, then report them
    /// with `note_read`.
    Transport(usize),
}

impl HttpStream {
    pub closed spec fn head(&self) -> HeadModel {
        HeadModel {
            method: self.method@,
            query_path: self.query_path@,
            path: self.path@,
            query: self.query@,
            headers: pairs(self.headers@),
            content_length: match self.len {
                Some(l) => Some(l as nat),
                None => None,
            },
        }
    }

    /// Body bytes that arrived with the head and are not read yet.
    pub closed spec fn carry(&self) -> Seq<u8> {
        self.buffer@
    }

    /// Body bytes handed out so far.
    pub closed spec fn body_read(&self) -> nat {
        self.read as nat
    }

    /// Body bytes still owed: the declared length minus what was read, 0
    /// without a declared length.
    pub open spec fn body_remaining(&self) -> nat {
        remaining(self.head().content_length, self.body_read())
    }

    /// Parses the head out of the bytes read so far; what follows the head
    /// is kept as the start of the body.
    pub fn new(bytes: Vec<u8>) -> (r: Result<HttpStream, HeadError>)
        ensures
            !contains(bytes@, terminator()) ==> r == Err::<HttpStream, HeadError>(
                HeadError::NoValidHeader,
            ),
            contains(bytes@, terminator()) ==> match r {
                Ok(s) => parse_head(bytes@.subrange(0, head_end(bytes@))) == Ok::<
                    HeadModel,
                    HeadError,
                >(s.head()) && s.carry() == bytes@.subrange(
                    head_end(bytes@),
                    bytes@.len() as int,
                ) && s.body_read() == 0 && unique_names(s.head().headers) && s.body_remaining()
                    == match s.head().content_length {
                    Some(l) => l,
                    None => 0nat,
                },
                Err(e) => parse_head(bytes@.subrange(0, head_end(bytes@))) == Err::<
                    HeadModel,
                    HeadError,
                >(e),
            },
    {
        let t = vec![13u8, 10u8, 13u8, 10u8];
        assert(t@ =~= terminator());
        let total = bytes.len();
        let pos = match find(bytes.as_slice(), t.as_slice()) {
            Some(p) => p,
            None => {
                return Err(HeadError::NoValidHeader);
            },
        };
        assert(pos + 4 <= total);
        let end = pos + 4;
        let head = copy_range(bytes.as_slice(), 0, end);
        let rest = copy_range(bytes.as_slice(), end, bytes.len());
        let h = head.as_slice();
        proof {
            assert(h@ == bytes@.subrange(0, head_end(bytes@)));
            lemma_index_of_bounds(h@, 10, 0);
        }
        let first_end = index_of_byte(h, 10, 0);
        let line = strip_cr_range(h, 0, first_end);
        assert(line@ == line_at(h@, 0));
        let l = line.as_slice();
        let sp1 = index_of_byte(l, 32, 0);
        if sp1 >= l.len() {
            return Err(HeadError::MalformedRequestLine);
        }
        let sp2 = index_of_byte(l, 32, sp1 + 1);
        if sp2 >= l.len() {
            return Err(HeadError::MalformedRequestLine);
        }
        let raw_method = copy_range(l, 0, sp1);
        let method = to_ascii_upper(raw_method.as_slice());
        if !is_known_method(method.as_slice()) {
            return Err(HeadError::InvalidMethod);
        }
        let query_path = copy_range(l, sp1 + 1, sp2);
        let q = index_of_byte(query_path.as_slice(), 63, 0);
        let path = copy_range(query_path.as_slice(), 0, q);
        let query = if q < query_path.len() {
            copy_range(query_path.as_slice(), q + 1, query_path.len())
        } else {
            Vec::new()
        };
        assert(query@ =~= query_of(query_path@));
        let start = if first_end < h.len() { first_end + 1 } else { h.len() };
        let headers = parse_headers(h, start);
        let len: Option<usize> = match ci_position(&headers, lit("content-length").as_slice(), 0) {
            Some(i) => match parse_decimal(headers[i].1.as_slice(), usize::MAX as u64) {
                Some(v) => Some(v as usize),
                None => Some(0),
            },
            None => None,
        };
        let needs = crate::bytes::bytes_eq(method.as_slice(), lit("POST").as_slice())
            || crate::bytes::bytes_eq(method.as_slice(), lit("PUT").as_slice());
        if needs && len.is_none() {
            return Err(HeadError::ContentLengthRequired);
        }
        let s = HttpStream { buffer: rest, len, read: 0, method, query_path, path, query, headers };
        assert(s.head() == parse_head(h@)->Ok_0);
        Ok(s)
    }

    pub fn path(&self) -> (r: &[u8])
        ensures
            r@ == self.head().path,
    {
        self.path.as_slice()
    }

    pub fn query(&self) -> (r: &[u8])
        ensures
            r@ == self.head().query,
    {
        self.query.as_slice()
    }

    pub fn query_path(&self) -> (r: &[u8])
        ensures
            r@ == self.head().query_path,
    {
        self.query_path.as_slice()
    }

    pub fn method(&self) -> (r: &[u8])
        ensures
            r@ == self.head().method,
    {
        self.method.as_slice()
    }

    pub fn headers(&self) -> (r: &Vec<(Vec<u8>, Vec<u8>)>)
        ensures
            pairs(r@) == self.head().headers,
    {
        &self.headers
    }

    pub fn content_length(&self) -> (r: Option<usize>)
        ensures
            r matches Some(l) ==> self.head().content_length == Some(l as nat),
            r is None ==> self.head().content_length is None,
    {
        self.len
    }

    /// Reconstructs the request line and headers for forwarding upstream.
    pub fn header_block(&self) -> (r: Vec<u8>)
        ensures
            r@ == request_block(self.head()),
    {
        let mut out: Vec<u8> = Vec::new();
        append(&mut out, self.method.as_slice());
        out.push(32u8);
        append(&mut out, self.query_path.as_slice());
        append(&mut out, lit(" HTTP/1.1\r\n").as_slice());
        let ghost prefix = out@;
        let mut i: usize = 0;
        while i < self.headers.len()
            invariant
                i <= self.headers@.len(),
                out@ == prefix + header_text(pairs(self.headers@).subrange(0, i as int)),
            decreases self.headers@.len() - i,
        {
            let ghost before = out@;
            append(&mut out, self.headers[i].0.as_slice());
            out.push(58u8);
            out.push(32u8);
            append(&mut out, self.headers[i].1.as_slice());
            out.push(13u8);
            out.push(10u8);
            proof {
                let m = pairs(self.headers@).subrange(0, i + 1);
                assert(m.drop_last() =~= pairs(self.headers@).subrange(0, i as int));
                assert(out@ =~= prefix + header_text(m));
            }
            i = i + 1;
        }
        assert(pairs(self.headers@).subrange(0, self.headers@.len() as int) =~= pairs(self.headers@));
        out.push(13u8);
        out.push(10u8);
        assert(out@ =~= request_block(self.head()));
        out
    }

    /// Takes the next piece of the body: bytes that came with the head
    /// first, then a bounded read from the connection. Never goes past the
    /// declared length.
    pub fn read_body(&mut self, max: usize) -> (r: BodyRead)
        requires
            max > 0,
        ensures
            body_step(*old(self), *final(self), max, r),
    {
        let rem: usize = match self.len {
            Some(l) => if self.read < l {
                l - self.read
            } else {
                0
            },
            None => 0,
        };
        if rem == 0 {
            return BodyRead::Done;
        }
        let cap = if max < rem { max } else { rem };
        if self.buffer.len() > 0 {
            let n = if cap < self.buffer.len() { cap } else { self.buffer.len() };
            let taken = copy_range(self.buffer.as_slice(), 0, n);
            let rest = copy_range(self.buffer.as_slice(), n, self.buffer.len());
            self.buffer = rest;
            self.read = self.read + n;
            BodyRead::Buffered(taken)
        } else {
            BodyRead::Transport(cap)
        }
    }

    /// Records `n` body bytes read from the connection.
    pub fn note_read(&mut self, n: usize)
        requires
            n <= old(self).body_remaining(),
        ensures
            final(self).head() == old(self).head(),
            final(self).carry() == old(self).carry(),
            final(self).body_read() == old(self).body_read() + n,
            final(self).body_remaining() == old(self).body_remaining() - n,
    {
        if n > 0 {
            self.read = self.read + n;
        }
    }

    /// Takes the cache control headers out of the request, so that they
    /// are not forwarded, and reports what they ask for. With the cache off
    /// nothing changes.
    pub fn strip_cache_headers(&mut self, conf: &Conf) -> (r: CacheControl)
        ensures
            final(self).carry() == old(self).carry(),
            final(self).body_read() == old(self).body_read(),
            !conf.cache_enabled ==> final(self).head() == old(self).head() && r.store is None
                && r.delete is None && r.delete_like is None,
            conf.cache_enabled ==> final(self).head() == (HeadModel {
                headers: plain_headers(old(self).head().headers),
                ..old(self).head()
            }) && asks(r, old(self).head().headers, conf),
            unique_names(old(self).head().headers) ==> unique_names(final(self).head().headers),
    {
        proof {
            if unique_names(pairs(self.headers@)) {
                crate::cache::lemma_plain_unique(pairs(self.headers@));
            }
        }
        Cache::process_headers(&mut self.headers, conf)
    }
}

} // verus!
