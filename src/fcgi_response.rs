//! Reassembly of a FastCGI responder's output: STDOUT records are gathered
//! until the CGI head is complete, the head gives status and headers, and
//! the rest is handed out as the body as records arrive.
use vstd::prelude::*;
use crate::bytes::{
    contains, copy_range, eq_ignore_case, find, index_of_byte, index_of_from,
    lemma_index_of_bounds, lit, parse_decimal, parse_unsigned, seq_index, text,
};
use crate::fcgi::{FCGI_END_REQUEST, FCGI_STDOUT};
use crate::headers::{pairs, put, put_header, HeaderPairs};
use crate::http_stream::{line_at, strip_cr_range, terminator};

verus! {

/// The fields of a record header.
#[derive(Debug, Clone, Copy, PartialEq, Eq, Structural)]
pub struct RecordHeader {
    pub record_type: u8,
    pub request_id: u16,
    pub content_length: u16,
    pub padding_length: u8,
}

/// Reads the eight header bytes of a record.
pub fn decode_record_header(h: &[u8]) -> (r: RecordHeader)
    requires
        h@.len() == 8,
    ensures
        r.record_type == h@[1],
        r.request_id == h@[2] * 256 + h@[3],
        r.content_length == h@[4] * 256 + h@[5],
        r.padding_length == h@[6],
{
    RecordHeader {
        record_type: h[1],
        request_id: h[2] as u16 * 256 + h[3] as u16,
        content_length: h[4] as u16 * 256 + h[5] as u16,
        padding_length: h[6],
    }
}

pub open spec fn is_ws(c: u8) -> bool {
    c == 32 || (9 <= c <= 13)
}

/// First index at or after `i` whose byte is (or, with `want == false`, is
/// not) white space; `s.len()` if none.
pub open spec fn scan(s: Seq<u8>, i: int, want: bool) -> int
    decreases s.len() - i,
{
    if i < 0 || i >= s.len() {
        s.len() as int
    } else if is_ws(s[i]) == want {
        i
    } else {
        scan(s, i + 1, want)
    }
}

/// The second white-space-separated token of a line.
pub open spec fn second_token(s: Seq<u8>) -> Seq<u8> {
    let a = scan(s, 0, false);
    let b = scan(s, a, true);
    let c = scan(s, b, false);
    let d = scan(s, c, true);
    s.subrange(c, d)
}

pub open spec fn trim(s: Seq<u8>) -> Seq<u8>
    decreases s.len(),
{
    if s.len() > 0 && is_ws(s[0]) {
        trim(s.skip(1))
    } else if s.len() > 0 && is_ws(s.last()) {
        trim(s.drop_last())
    } else {
        s
    }
}

pub open spec fn is_status_line(line: Seq<u8>) -> bool {
    line.len() >= 7 && eq_ignore_case(line.subrange(0, 7), text("status:"))
}

/// The status a status line gives: its second token as a number, else 200.
pub open spec fn status_of(line: Seq<u8>) -> u32 {
    match parse_unsigned(second_token(line), u32::MAX as nat) {
        Some(v) => v as u32,
        None => 200,
    }
}

/// State while reading CGI head lines: whether the status line was seen,
/// the status, and the headers so far.
pub type CgiHead = (bool, u32, HeaderPairs);

/// One CGI head line: the first status line sets the status; any other
/// line with a `:` adds a header (trimmed, split at the first `:`).
pub open spec fn cgi_line(st: CgiHead, line: Seq<u8>) -> CgiHead {
    if !st.0 && is_status_line(line) {
        (true, status_of(line), st.2)
    } else {
        let t = trim(line);
        let c = crate::bytes::index_of(t, 58);
        if c < t.len() {
            (st.0, st.1, put(st.2, t.subrange(0, c), t.subrange(c + 1, t.len() as int)))
        } else {
            st
        }
    }
}

pub open spec fn cgi_lines_from(h: Seq<u8>, pos: int, st: CgiHead) -> CgiHead
    decreases h.len() + 1 - pos,
    via cgi_lines_from_decreases
{
    if pos < 0 || pos >= h.len() {
        st
    } else {
        cgi_lines_from(h, index_of_from(h, 10, pos) + 1, cgi_line(st, line_at(h, pos)))
    }
}

#[via_fn]
proof fn cgi_lines_from_decreases(h: Seq<u8>, pos: int, st: CgiHead) {
    if pos >= 0 && pos < h.len() {
        lemma_index_of_bounds(h, 10, pos);
    }
}

pub open spec fn connection_close() -> (Seq<u8>, Seq<u8>) {
    (text("Connection"), text("close"))
}

/// Status and headers of a CGI head (the bytes before its blank line).
/// Without a status line the status is 200; `Connection: close` is always
/// set.
pub open spec fn cgi_head(h: Seq<u8>) -> (u32, HeaderPairs) {
    let st = cgi_lines_from(h, 0, (false, 200, seq![connection_close()]));
    (st.1, put(st.2, connection_close().0, connection_close().1))
}

/// What a response has gathered so far.
pub struct FcgiModel {
    pub status: u32,
    pub headers: HeaderPairs,
    /// Body bytes received and not yet read (before the head is complete:
    /// everything received).
    pub pending: Seq<u8>,
    pub head_done: bool,
    pub ended: bool,
}

/// Completes the head once its terminator has arrived, or once the
/// responder is done without one (then the defaults stand and all bytes
/// are body).
pub open spec fn settle(m: FcgiModel) -> FcgiModel {
    if !m.head_done && contains(m.pending, terminator()) {
        let i = seq_index(m.pending, terminator());
        let h = cgi_head(m.pending.subrange(0, i));
        FcgiModel {
            status: h.0,
            headers: h.1,
            pending: m.pending.subrange(i + 4, m.pending.len() as int),
            head_done: true,
            ended: m.ended,
        }
    } else if !m.head_done && m.ended {
        FcgiModel { head_done: true, ..m }
    } else {
        m
    }
}

/// The effect of one record: STDOUT content is gathered, END_REQUEST ends
/// the response, other records (STDERR among them) are dropped.
pub open spec fn step(m: FcgiModel, record_type: u8, content: Seq<u8>) -> FcgiModel {
    if m.ended {
        m
    } else if record_type == FCGI_STDOUT {
        settle(FcgiModel { pending: m.pending + content, ..m })
    } else if record_type == FCGI_END_REQUEST {
        settle(FcgiModel { ended: true, ..m })
    } else {
        m
    }
}

fn scan_exec(s: &[u8], i: usize, want: bool) -> (r: usize)
    requires
        i <= s@.len(),
    ensures
        r == scan(s@, i as int, want),
        i <= r <= s@.len(),
    decreases s@.len() - i,
{
    if i >= s.len() {
        s.len()
    } else {
        let c = s[i];
        let ws = c == 32 || (9 <= c && c <= 13);
        if ws == want {
            i
        } else {
            scan_exec(s, i + 1, want)
        }
    }
}

pub fn trim_exec(s: &[u8], lo: usize, hi: usize) -> (r: Vec<u8>)
    requires
        lo <= hi <= s@.len(),
    ensures
        r@ == trim(s@.subrange(lo as int, hi as int)),
    decreases hi - lo,
{
    let ghost t = s@.subrange(lo as int, hi as int);
    if lo < hi && (s[lo] == 32 || (9 <= s[lo] && s[lo] <= 13)) {
        assert(t.skip(1) =~= s@.subrange(lo + 1, hi as int));
        trim_exec(s, lo + 1, hi)
    } else if lo < hi && (s[hi - 1] == 32 || (9 <= s[hi - 1] && s[hi - 1] <= 13)) {
        assert(t.drop_last() =~= s@.subrange(lo as int, hi - 1));
        trim_exec(s, lo, hi - 1)
    } else {
        copy_range(s, lo, hi)
    }
}

fn status_from_line(line: &[u8]) -> (r: u32)
    ensures
        r == status_of(line@),
{
    let a = scan_exec(line, 0, false);
    let b = scan_exec(line, a, true);
    let c = scan_exec(line, b, false);
    let d = scan_exec(line, c, true);
    let tok = copy_range(line, c, d);
    match parse_decimal(tok.as_slice(), u32::MAX as u64) {
        Some(v) => v as u32,
        None => 200,
    }
}

fn apply_cgi_line(found: &mut bool, status: &mut u32, hs: &mut Vec<(Vec<u8>, Vec<u8>)>, line: &[u8])
    ensures
        (*final(found), *final(status), pairs(final(hs)@)) == cgi_line(
            (*old(found), *old(status), pairs(old(hs)@)),
            line@,
        ),
{
    let is_status = line.len() >= 7 && crate::bytes::eq_ignore_ascii_case(
        copy_range(line, 0, 7).as_slice(),
        lit("status:").as_slice(),
    );
    if !*found && is_status {
        *found = true;
        *status = status_from_line(line);
    } else {
        let t = trim_exec(line, 0, line.len());
        assert(line@.subrange(0, line@.len() as int) =~= line@);
        let c = index_of_byte(t.as_slice(), 58, 0);
        if c < t.len() {
            let name = copy_range(t.as_slice(), 0, c);
            let value = copy_range(t.as_slice(), c + 1, t.len());
            put_header(hs, name, value);
        }
    }
}

/// Status and headers of a CGI head.
pub fn parse_cgi_head(h: &[u8]) -> (r: (u32, Vec<(Vec<u8>, Vec<u8>)>))
    ensures
        (r.0, pairs(r.1@)) == cgi_head(h@),
{
    let mut found = false;
    let mut status: u32 = 200;
    let mut hs: Vec<(Vec<u8>, Vec<u8>)> = Vec::new();
    hs.push((lit("Connection"), lit("close")));
    assert(pairs(hs@) =~= seq![connection_close()]);
    let ghost start: CgiHead = (false, 200, seq![connection_close()]);
    let mut pos: usize = 0;
    while pos < h.len()
        invariant
            pos <= h@.len(),
            cgi_lines_from(h@, pos as int, (found, status, pairs(hs@))) == cgi_lines_from(
                h@,
                0,
                start,
            ),
        decreases h@.len() + 1 - pos,
    {
        let e = index_of_byte(h, 10, pos);
        let line = strip_cr_range(h, pos, e);
        let ghost before: CgiHead = (found, status, pairs(hs@));
        apply_cgi_line(&mut found, &mut status, &mut hs, line.as_slice());
        assert(cgi_lines_from(h@, pos as int, before) == cgi_lines_from(
            h@,
            e + 1,
            (found, status, pairs(hs@)),
        ));
        pos = if e < h.len() {
            e + 1
        } else {
            h.len()
        };
        assert(cgi_lines_from(h@, pos as int, (found, status, pairs(hs@))) == cgi_lines_from(
            h@,
            e + 1,
            (found, status, pairs(hs@)),
        ));
    }
    put_header(&mut hs, lit("Connection"), lit("close"));
    (status, hs)
}

/// A responder's output as it is being received.
pub struct FcgiResponse {
    status: u32,
    buf: Vec<u8>,
    headers: Vec<(Vec<u8>, Vec<u8>)>,
    head_done: bool,
    ended: bool,
}

impl View for FcgiResponse {
    type V = FcgiModel;

    closed spec fn view(&self) -> FcgiModel {
        FcgiModel {
            status: self.status,
            headers: pairs(self.headers@),
            pending: self.buf@,
            head_done: self.head_done,
            ended: self.ended,
        }
    }
}

impl FcgiResponse {
    /// Nothing received yet: status 200 and `Connection: close` until the
    /// head says otherwise.
    pub fn new() -> (r: FcgiResponse)
        ensures
            r@ == (FcgiModel {
                status: 200,
                headers: seq![connection_close()],
                pending: Seq::empty(),
                head_done: false,
                ended: false,
            }),
    {
        let mut headers: Vec<(Vec<u8>, Vec<u8>)> = Vec::new();
        headers.push((lit("Connection"), lit("close")));
        let r = FcgiResponse { status: 200, buf: Vec::new(), headers, head_done: false, ended: false };
        assert(r@.headers =~= seq![connection_close()]);
        assert(r@.pending =~= Seq::<u8>::empty());
        r
    }

    pub fn status(&self) -> (r: u32)
        ensures
            r == self@.status,
    {
        self.status
    }

    pub fn headers(&self) -> (r: Vec<(Vec<u8>, Vec<u8>)>)
        ensures
            pairs(r@) == self@.headers,
    {
        let mut out: Vec<(Vec<u8>, Vec<u8>)> = Vec::new();
        let mut i: usize = 0;
        while i < self.headers.len()
            invariant
                i <= self.headers@.len(),
                pairs(out@) == pairs(self.headers@).subrange(0, i as int),
            decreases self.headers@.len() - i,
        {
            let mut k: Vec<u8> = Vec::new();
            crate::bytes::append(&mut k, self.headers[i].0.as_slice());
            let mut v: Vec<u8> = Vec::new();
            crate::bytes::append(&mut v, self.headers[i].1.as_slice());
            assert(k@ =~= self.headers@[i as int].0@);
            assert(v@ =~= self.headers@[i as int].1@);
            let ghost before = pairs(out@);
            let ghost kv = (k@, v@);
            out.push((k, v));
            assert(pairs(out@) =~= before.push(kv));
            assert(pairs(self.headers@)[i as int] == kv);
            assert(pairs(self.headers@).subrange(0, i + 1) =~= pairs(self.headers@).subrange(
                0,
                i as int,
            ).push(kv));
            i = i + 1;
        }
        assert(pairs(self.headers@).subrange(0, self.headers@.len() as int) =~= pairs(self.headers@));
        out
    }

    /// Whether status and headers are final.
    pub fn head_ready(&self) -> (r: bool)
        ensures
            r == self@.head_done,
    {
        self.head_done
    }

    /// Whether another record should be fetched before reading on: the head
    /// is incomplete, or all received body bytes were read, and the
    /// responder is not done.
    pub fn wants_record(&self) -> (r: bool)
        ensures
            r == (!self@.ended && (!self@.head_done || self@.pending.len() == 0)),
    {
        !self.ended && (!self.head_done || self.buf.len() == 0)
    }

    /// The body is exhausted.
    pub fn at_end(&self) -> (r: bool)
        ensures
            r == (self@.ended && self@.head_done && self@.pending.len() == 0),
    {
        self.ended && self.head_done && self.buf.len() == 0
    }

    fn settle_head(&mut self)
        ensures
            final(self)@ == settle(old(self)@),
    {
        if self.head_done {
            return;
        }
        let t = vec![13u8, 10u8, 13u8, 10u8];
        assert(t@ =~= terminator());
        let len = self.buf.len();
        match find(self.buf.as_slice(), t.as_slice()) {
            Some(i) => {
                assert(i + 4 <= len);
                let head = copy_range(self.buf.as_slice(), 0, i);
                let rest = copy_range(self.buf.as_slice(), i + 4, self.buf.len());
                let (status, headers) = parse_cgi_head(head.as_slice());
                self.status = status;
                self.headers = headers;
                self.buf = rest;
                self.head_done = true;
            },
            None => {
                if self.ended {
                    self.head_done = true;
                }
            },
        }
    }

    /// Takes in one record received from the responder.
    pub fn accept_record(&mut self, record_type: u8, content: &[u8])
        ensures
            final(self)@ == step(old(self)@, record_type, content@),
    {
        if self.ended {
            return;
        }
        if record_type == FCGI_STDOUT {
            crate::bytes::append(&mut self.buf, content);
            self.settle_head();
        } else if record_type == FCGI_END_REQUEST {
            self.ended = true;
            self.settle_head();
        }
    }

    /// The responder's connection ended or failed: no more records.
    pub fn close(&mut self)
        ensures
            final(self)@ == settle(FcgiModel { ended: true, ..old(self)@ }),
    {
        self.ended = true;
        self.settle_head();
    }

    /// Hands out up to `max` received body bytes.
    pub fn read(&mut self, max: usize) -> (r: Vec<u8>)
        requires
            old(self)@.head_done,
        ensures
            ({
                let n = if max < old(self)@.pending.len() {
                    max as int
                } else {
                    old(self)@.pending.len() as int
                };
                &&& r@ == old(self)@.pending.subrange(0, n)
                &&& final(self)@ == FcgiModel {
                    pending: old(self)@.pending.subrange(n, old(self)@.pending.len() as int),
                    ..old(self)@
                }
            }),
    {
        let n = if max < self.buf.len() {
            max
        } else {
            self.buf.len()
        };
        let out = copy_range(self.buf.as_slice(), 0, n);
        let rest = copy_range(self.buf.as_slice(), n, self.buf.len());
        self.buf = rest;
        out
    }
}

} // verus!
