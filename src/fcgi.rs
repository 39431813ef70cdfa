//! The FastCGI client side: record framing, name-value encoding, the
//! request sent to a responder, and reassembly of its response.
use vstd::prelude::*;
use vstd::arithmetic::div_mod::{lemma_div_denominator, lemma_fundamental_div_mod};
use crate::bytes::{append, decimal, lit, text};
use crate::headers::{ci_index, ci_position, pairs, HeaderPairs};
use crate::request::Request;

verus! {

pub const FCGI_VERSION: u8 = 1;
pub const FCGI_BEGIN_REQUEST: u8 = 1;
pub const FCGI_END_REQUEST: u8 = 3;
pub const FCGI_PARAMS: u8 = 4;
pub const FCGI_STDIN: u8 = 5;
pub const FCGI_STDOUT: u8 = 6;
pub const FCGI_STDERR: u8 = 7;
pub const FCGI_RESPONDER: u8 = 1;

/// Largest content of one record.
pub const MAX_CONTENT: usize = 65535;

/// Largest name or value length that the four-byte form can carry.
pub const MAX_NAME_VALUE_LEN: usize = 0x7fff_ffff;

/// Zero bytes after a record's content, to a multiple of eight.
pub open spec fn padding(len: nat) -> nat {
    ((8 - len % 8) % 8) as nat
}

/// A whole record: header, content, padding.
pub open spec fn record(record_type: u8, request_id: u16, content: Seq<u8>) -> Seq<u8> {
    let len = content.len();
    seq![
        FCGI_VERSION,
        record_type,
        (request_id / 256) as u8,
        (request_id % 256) as u8,
        (len / 256) as u8,
        (len % 256) as u8,
        padding(len) as u8,
        0u8,
    ] + content + Seq::new(padding(len), |i: int| 0u8)
}

/// Length prefix of a name or value: one byte below 128, else four bytes
/// big-endian with the top bit set.
pub open spec fn length_bytes(n: nat) -> Seq<u8> {
    if n < 128 {
        seq![n as u8]
    } else {
        seq![
            (n / 16777216 + 128) as u8,
            ((n / 65536) % 256) as u8,
            ((n / 256) % 256) as u8,
            (n % 256) as u8,
        ]
    }
}

pub open spec fn name_value(name: Seq<u8>, value: Seq<u8>) -> Seq<u8> {
    length_bytes(name.len()) + length_bytes(value.len()) + name + value
}

/// Reads a length prefix: its value and how many bytes it took.
pub open spec fn read_length(b: Seq<u8>) -> Option<(nat, nat)> {
    if b.len() >= 1 && b[0] < 128 {
        Some((b[0] as nat, 1))
    } else if b.len() >= 4 {
        Some(
            (
                ((b[0] - 128) * 16777216 + b[1] * 65536 + b[2] * 256 + b[3]) as nat,
                4,
            ),
        )
    } else {
        None
    }
}

/// Decodes one name-value pair, as a responder reads it.
pub open spec fn decode_name_value(b: Seq<u8>) -> Option<(Seq<u8>, Seq<u8>)> {
    match read_length(b) {
        Some((nl, k1)) => match read_length(b.skip(k1 as int)) {
            Some((vl, k2)) => {
                let rest = b.skip((k1 + k2) as int);
                if rest.len() >= nl + vl {
                    Some((rest.take(nl as int), rest.subrange(nl as int, (nl + vl) as int)))
                } else {
                    None
                }
            },
            None => None,
        },
        None => None,
    }
}

/// A record is eight header bytes, its content and its padding, and its
/// total length is a multiple of eight.
pub proof fn lemma_record_length(record_type: u8, request_id: u16, content: Seq<u8>)
    ensures
        record(record_type, request_id, content).len() == 8 + content.len() + padding(
            content.len(),
        ),
        (8 + content.len() + padding(content.len())) % 8 == 0,
        padding(content.len()) < 8,
{
}

proof fn lemma_length_round_trip(n: nat, rest: Seq<u8>)
    requires
        n <= MAX_NAME_VALUE_LEN,
    ensures
        read_length(length_bytes(n) + rest) == Some((n, length_bytes(n).len())),
{
    let b = length_bytes(n) + rest;
    if n >= 128 {
        let x = n as int;
        lemma_fundamental_div_mod(x, 256);
        lemma_fundamental_div_mod(x / 256, 256);
        lemma_fundamental_div_mod(x / 65536, 256);
        lemma_div_denominator(x, 256, 256);
        lemma_div_denominator(x, 65536, 256);
        assert(x / 16777216 < 128);
        assert(b[0] == x / 16777216 + 128);
        assert(b[1] == (x / 65536) % 256);
        assert(b[2] == (x / 256) % 256);
        assert(b[3] == x % 256);
        assert((x / 16777216) * 16777216 + ((x / 65536) % 256) * 65536 + ((x / 256) % 256) * 256
            + x % 256 == x) by (nonlinear_arith)
            requires
                x == 256 * (x / 256) + x % 256,
                x / 256 == 256 * (x / 256 / 256) + (x / 256) % 256,
                x / 65536 == 256 * (x / 65536 / 256) + (x / 65536) % 256,
                x / 256 / 256 == x / 65536,
                x / 65536 / 256 == x / 16777216,
        {
        }
    }
}

/// Decoding the bytes of an encoded pair gives back the name and value.
pub proof fn lemma_name_value_round_trip(name: Seq<u8>, value: Seq<u8>)
    requires
        name.len() <= MAX_NAME_VALUE_LEN,
        value.len() <= MAX_NAME_VALUE_LEN,
    ensures
        decode_name_value(name_value(name, value)) == Some((name, value)),
{
    let ln = length_bytes(name.len());
    let lv = length_bytes(value.len());
    let b = name_value(name, value);
    assert(b =~= ln + (lv + name + value));
    lemma_length_round_trip(name.len(), lv + name + value);
    assert(b.skip(ln.len() as int) =~= lv + (name + value));
    lemma_length_round_trip(value.len(), name + value);
    let rest = b.skip((ln.len() + lv.len()) as int);
    assert(rest =~= name + value);
    assert(rest.take(name.len() as int) =~= name);
    assert(rest.subrange(name.len() as int, (name.len() + value.len()) as int) =~= value);
}

/// The parameters sent for a request: the fixed CGI set, then one
/// `HTTP_<name>` per request header, then the content type, length and
/// cookie again under their CGI names when present.
pub open spec fn base_params(
    r: &Request,
    server_port: u16,
    server_name: Seq<u8>,
) -> HeaderPairs {
    seq![
        (text("GATEWAY_INTERFACE"), text("CGI/1.1")),
        (text("SCRIPT_FILENAME"), r.spec_file_path()),
        (text("SCRIPT_NAME"), r.head().path),
        (text("DOCUMENT_ROOT"), r.spec_doc_root()),
        (text("REQUEST_METHOD"), r.head().method),
        (text("QUERY_STRING"), r.head().query),
        (text("REQUEST_URI"), r.head().query_path),
        (text("REMOTE_ADDR"), r.spec_peer_ip()),
        (text("REMOTE_PORT"), decimal(r.spec_peer_port() as nat)),
        (text("SERVER_ADDR"), text("127.0.0.1")),
        (text("SERVER_PROTOCOL"), text("HTTP/1.1")),
        (text("SERVER_PORT"), decimal(server_port as nat)),
        (text("SERVER_NAME"), server_name),
        (text("PATH_INFO"), Seq::empty()),
    ]
}

pub open spec fn header_params(h: HeaderPairs) -> HeaderPairs {
    h.map_values(|p: (Seq<u8>, Seq<u8>)| (text("HTTP_") + p.0, p.1))
}

/// `name: value` of the first header named `header` in any case, if any.
pub open spec fn also_as(h: HeaderPairs, header: Seq<u8>, name: Seq<u8>) -> HeaderPairs {
    let i = ci_index(h, header);
    if i >= 0 {
        seq![(name, h[i].1)]
    } else {
        Seq::empty()
    }
}

pub open spec fn cgi_params(r: &Request, server_port: u16, server_name: Seq<u8>) -> HeaderPairs {
    let h = r.head().headers;
    base_params(r, server_port, server_name) + header_params(h) + also_as(
        h,
        text("content-type"),
        text("CONTENT_TYPE"),
    ) + also_as(h, text("content-length"), text("CONTENT_LENGTH")) + also_as(
        h,
        text("cookie"),
        text("HTTP_COOKIE"),
    )
}

/// One PARAMS record per parameter.
pub open spec fn params_records(ps: HeaderPairs) -> Seq<u8>
    decreases ps.len(),
{
    if ps.len() == 0 {
        Seq::empty()
    } else {
        params_records(ps.drop_last()) + record(
            FCGI_PARAMS,
            1,
            name_value(ps.last().0, ps.last().1),
        )
    }
}

pub open spec fn begin_body() -> Seq<u8> {
    seq![0u8, FCGI_RESPONDER, 0u8, 0u8, 0u8, 0u8, 0u8, 0u8]
}

/// Everything sent before the body: BEGIN_REQUEST, the parameters, and the
/// empty PARAMS record that ends them.
pub open spec fn request_bytes(ps: HeaderPairs) -> Seq<u8> {
    record(FCGI_BEGIN_REQUEST, 1, begin_body()) + params_records(ps) + record(
        FCGI_PARAMS,
        1,
        Seq::empty(),
    )
}

/// A parameter fits in one record.
pub open spec fn param_fits(p: (Seq<u8>, Seq<u8>)) -> bool {
    name_value(p.0, p.1).len() <= MAX_CONTENT
}

#[derive(Debug, PartialEq, Eq, Structural, Clone, Copy)]
pub enum FcgiError {
    /// A parameter does not fit in one record.
    ParamTooLong,
}

/// Where the responder listens, and what the server reports about itself.
pub struct FcgiClient {
    port: Option<u16>,
    socket: Option<Vec<u8>>,
    server_port: u16,
    server_name: Vec<u8>,
}

impl FcgiClient {
    pub closed spec fn spec_server_port(&self) -> u16 {
        self.server_port
    }

    pub closed spec fn spec_server_name(&self) -> Seq<u8> {
        self.server_name@
    }

    pub closed spec fn spec_port(&self) -> Option<u16> {
        self.port
    }

    pub closed spec fn spec_socket(&self) -> Option<Seq<u8>> {
        match self.socket {
            Some(s) => Some(s@),
            None => None,
        }
    }

    pub fn new(port: Option<u16>, socket: Option<Vec<u8>>, server_port: u16, server_name: Vec<u8>) -> (r:
        FcgiClient)
        ensures
            r.spec_port() == port,
            r.spec_socket() == (match socket {
                Some(s) => Some(s@),
                None => None::<Seq<u8>>,
            }),
            r.spec_server_port() == server_port,
            r.spec_server_name() == server_name@,
    {
        FcgiClient { port, socket, server_port, server_name }
    }

    /// TCP port of the responder on the loopback address.
    pub fn port(&self) -> (r: Option<u16>)
        ensures
            r == self.spec_port(),
    {
        self.port
    }

    /// Path of the responder's Unix socket; preferred over the port.
    pub fn socket(&self) -> (r: Option<&Vec<u8>>)
        ensures
            r matches Some(s) ==> self.spec_socket() == Some(s@),
            r is None ==> self.spec_socket() is None,
    {
        match &self.socket {
            Some(s) => Some(s),
            None => None,
        }
    }

    /// Appends one record.
    pub fn write_record(&self, out: &mut Vec<u8>, record_type: u8, request_id: u16, content: &[u8])
        requires
            content@.len() <= MAX_CONTENT,
        ensures
            final(out)@ == old(out)@ + record(record_type, request_id, content@),
    {
        let len = content.len();
        let pad = (8 - len % 8) % 8;
        out.push(FCGI_VERSION);
        out.push(record_type);
        out.push((request_id / 256) as u8);
        out.push((request_id % 256) as u8);
        out.push((len / 256) as u8);
        out.push((len % 256) as u8);
        out.push(pad as u8);
        out.push(0u8);
        append(out, content);
        let ghost before_pad = out@;
        assert(out@ =~= before_pad + Seq::new(0 as nat, |k: int| 0u8));
        let mut i: usize = 0;
        while i < pad
            invariant
                i <= pad,
                pad == padding(content@.len()),
                out@ == before_pad + Seq::new(i as nat, |k: int| 0u8),
            decreases pad - i,
        {
            out.push(0u8);
            i = i + 1;
            assert(out@ =~= before_pad + Seq::new(i as nat, |k: int| 0u8));
        }
        assert(out@ =~= old(out)@ + record(record_type, request_id, content@));
    }

    /// Appends a name or value length.
    fn write_len(&self, len: usize, out: &mut Vec<u8>)
        requires
            len <= MAX_NAME_VALUE_LEN,
        ensures
            final(out)@ == old(out)@ + length_bytes(len as nat),
    {
        if len < 128 {
            out.push(len as u8);
        } else {
            out.push((len / 16777216 + 128) as u8);
            out.push(((len / 65536) % 256) as u8);
            out.push(((len / 256) % 256) as u8);
            out.push((len % 256) as u8);
        }
        assert(out@ =~= old(out)@ + length_bytes(len as nat));
    }

    /// Encodes one parameter as a name-value pair.
    pub fn encode_name_value(&self, name: &[u8], value: &[u8]) -> (r: Vec<u8>)
        requires
            name@.len() <= MAX_NAME_VALUE_LEN,
            value@.len() <= MAX_NAME_VALUE_LEN,
        ensures
            r@ == name_value(name@, value@),
    {
        let mut out: Vec<u8> = Vec::new();
        self.write_len(name.len(), &mut out);
        self.write_len(value.len(), &mut out);
        append(&mut out, name);
        append(&mut out, value);
        assert(out@ =~= name_value(name@, value@));
        out
    }

    /// The parameters for a request, in the order they are sent.
    pub fn params(&self, request: &Request) -> (r: Vec<(Vec<u8>, Vec<u8>)>)
        ensures
            pairs(r@) == cgi_params(request, self.spec_server_port(), self.spec_server_name()),
    {
        let mut ps: Vec<(Vec<u8>, Vec<u8>)> = Vec::new();
        ps.push((lit("GATEWAY_INTERFACE"), lit("CGI/1.1")));
        ps.push((lit("SCRIPT_FILENAME"), to_vec(request.file_path())));
        ps.push((lit("SCRIPT_NAME"), to_vec(request.path())));
        ps.push((lit("DOCUMENT_ROOT"), to_vec(request.doc_root())));
        ps.push((lit("REQUEST_METHOD"), to_vec(request.method())));
        ps.push((lit("QUERY_STRING"), to_vec(request.query())));
        ps.push((lit("REQUEST_URI"), to_vec(request.query_path())));
        ps.push((lit("REMOTE_ADDR"), to_vec(request.peer_addr().ip.as_slice())));
        ps.push((lit("REMOTE_PORT"), crate::bytes::decimal_of(request.peer_addr().port as u64)));
        ps.push((lit("SERVER_ADDR"), lit("127.0.0.1")));
        ps.push((lit("SERVER_PROTOCOL"), lit("HTTP/1.1")));
        ps.push((lit("SERVER_PORT"), crate::bytes::decimal_of(self.server_port as u64)));
        ps.push((lit("SERVER_NAME"), to_vec(self.server_name.as_slice())));
        ps.push((lit("PATH_INFO"), Vec::new()));
        assert(pairs(ps@) =~= base_params(request, self.server_port, self.server_name@));
        let headers = request.headers();
        let ghost h = pairs(headers@);
        let ghost base = pairs(ps@);
        let mut i: usize = 0;
        while i < headers.len()
            invariant
                i <= headers@.len(),
                h == pairs(headers@),
                h == request.head().headers,
                pairs(ps@) == base + header_params(h.subrange(0, i as int)),
            decreases headers@.len() - i,
        {
            let mut name = lit("HTTP_");
            append(&mut name, headers[i].0.as_slice());
            let value = to_vec(headers[i].1.as_slice());
            let ghost before = pairs(ps@);
            assert(h[i as int] == (headers@[i as int].0@, headers@[i as int].1@));
            ps.push((name, value));
            assert(pairs(ps@) =~= before.push((text("HTTP_") + h[i as int].0, h[i as int].1)));
            assert(header_params(h.subrange(0, i + 1)) =~= header_params(h.subrange(0, i as int)).push(
                (text("HTTP_") + h[i as int].0, h[i as int].1),
            ));
            assert(pairs(ps@) =~= base + header_params(h.subrange(0, i + 1)));
            i = i + 1;
        }
        assert(h.subrange(0, headers@.len() as int) =~= h);
        self.push_also(&mut ps, headers, lit("content-type"), lit("CONTENT_TYPE"));
        self.push_also(&mut ps, headers, lit("content-length"), lit("CONTENT_LENGTH"));
        self.push_also(&mut ps, headers, lit("cookie"), lit("HTTP_COOKIE"));
        ps
    }

    fn push_also(
        &self,
        ps: &mut Vec<(Vec<u8>, Vec<u8>)>,
        headers: &Vec<(Vec<u8>, Vec<u8>)>,
        header: Vec<u8>,
        name: Vec<u8>,
    )
        ensures
            pairs(final(ps)@) == pairs(old(ps)@) + also_as(pairs(headers@), header@, name@),
    {
        match ci_position(headers, header.as_slice(), 0) {
            Some(i) => {
                ps.push((name, to_vec(headers[i].1.as_slice())));
            },
            None => {},
        }
        assert(pairs(ps@) =~= pairs(old(ps)@) + also_as(pairs(headers@), header@, name@));
    }

    /// The bytes sent before the body: BEGIN_REQUEST, one PARAMS record per
    /// parameter, and the empty PARAMS record. Fails when a parameter does
    /// not fit in one record.
    pub fn handle(&self, request: &Request) -> (r: Result<Vec<u8>, FcgiError>)
        ensures
            ({
                let ps = cgi_params(request, self.spec_server_port(), self.spec_server_name());
                &&& r matches Ok(v) ==> v@ == request_bytes(ps) && forall|i: int|
                    0 <= i < ps.len() ==> param_fits(#[trigger] ps[i])
                &&& r is Err ==> exists|i: int| 0 <= i < ps.len() && !param_fits(#[trigger] ps[i])
            }),
    {
        let ps = self.params(request);
        let ghost pv = pairs(ps@);
        let mut out: Vec<u8> = Vec::new();
        let begin = vec![0u8, FCGI_RESPONDER, 0u8, 0u8, 0u8, 0u8, 0u8, 0u8];
        assert(begin@ =~= begin_body());
        self.write_record(&mut out, FCGI_BEGIN_REQUEST, 1, begin.as_slice());
        let ghost prefix = out@;
        let mut i: usize = 0;
        while i < ps.len()
            invariant
                i <= ps@.len(),
                pv == pairs(ps@),
                pv == cgi_params(request, self.spec_server_port(), self.spec_server_name()),
                out@ == prefix + params_records(pv.subrange(0, i as int)),
                forall|j: int| 0 <= j < i ==> param_fits(#[trigger] pv[j]),
            decreases ps@.len() - i,
        {
            let name = ps[i].0.as_slice();
            let value = ps[i].1.as_slice();
            if name.len() > MAX_CONTENT || value.len() > MAX_CONTENT {
                assert(!param_fits(pv[i as int]));
                return Err(FcgiError::ParamTooLong);
            }
            let content = self.encode_name_value(name, value);
            if content.len() > MAX_CONTENT {
                assert(!param_fits(pv[i as int]));
                return Err(FcgiError::ParamTooLong);
            }
            let ghost before = out@;
            self.write_record(&mut out, FCGI_PARAMS, 1, content.as_slice());
            proof {
                let sub = pv.subrange(0, i + 1);
                assert(sub.drop_last() =~= pv.subrange(0, i as int));
                assert(sub.last() == pv[i as int]);
                assert(pv[i as int] == (name@, value@));
                assert(params_records(sub) == params_records(pv.subrange(0, i as int)) + record(
                    FCGI_PARAMS,
                    1,
                    name_value(name@, value@),
                ));
                assert(out@ =~= prefix + params_records(sub));
            }
            i = i + 1;
        }
        assert(pv.subrange(0, ps@.len() as int) =~= pv);
        let empty: Vec<u8> = Vec::new();
        self.write_record(&mut out, FCGI_PARAMS, 1, empty.as_slice());
        assert(empty@ =~= Seq::<u8>::empty());
        assert(out@ =~= request_bytes(pv));
        Ok(out)
    }
}

fn to_vec(s: &[u8]) -> (r: Vec<u8>)
    ensures
        r@ == s@,
{
    let mut v: Vec<u8> = Vec::new();
    append(&mut v, s);
    v
}

} // verus!
