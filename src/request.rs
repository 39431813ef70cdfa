//! A parsed request bound to a host: document root, peer, and the local
//! file it names.
use vstd::prelude::*;
use crate::bytes::{append, contains, find, text};
use crate::conf::Conf;
use crate::headers::pairs;
use crate::http_stream::{body_step, BodyRead, HeadModel, HttpStream};
use crate::percent::{percent_decode, url_decoded};

verus! {

pub open spec fn dotdot() -> Seq<u8> {
    seq![47u8, 46u8, 46u8]
}

/// The local path for a request path: the document root followed by the
/// percent-decoded path, or the bare root when the path holds `/..`.
pub open spec fn local_path(root: Seq<u8>, path: Seq<u8>) -> Seq<u8> {
    if contains(path, dotdot()) {
        root
    } else {
        root + url_decoded(path)
    }
}

/// Resolves the local file path of a request path under a document root.
pub fn resolve_local_path(root: &[u8], path: &[u8]) -> (r: Vec<u8>)
    ensures
        r@ == local_path(root@, path@),
        contains(path@, dotdot()) ==> r@ == root@,
{
    let mut out: Vec<u8> = Vec::new();
    append(&mut out, root);
    let guard = vec![47u8, 46u8, 46u8];
    assert(guard@ =~= dotdot());
    if find(path, guard.as_slice()).is_none() {
        let decoded = percent_decode(path);
        append(&mut out, decoded.as_slice());
    }
    assert(out@ =~= local_path(root@, path@));
    out
}

/// The peer of a connection: its IP address as text, and its port.
#[derive(Debug)]
pub struct PeerAddr {
    pub ip: Vec<u8>,
    pub port: u16,
}

pub struct Request {
    stream: HttpStream,
    dir_path: Vec<u8>,
    peer_addr: PeerAddr,
    file_path: Vec<u8>,
}

pub open spec fn body_method(m: Seq<u8>) -> bool {
    m == text("POST") || m == text("PUT") || m == text("PATCH") || m == text("DELETE")
}

impl Request {
    pub open spec fn head(&self) -> HeadModel {
        self.spec_stream().head()
    }

    pub closed spec fn spec_doc_root(&self) -> Seq<u8> {
        self.dir_path@
    }

    pub closed spec fn spec_file_path(&self) -> Seq<u8> {
        self.file_path@
    }

    pub closed spec fn spec_peer_ip(&self) -> Seq<u8> {
        self.peer_addr.ip@
    }

    pub closed spec fn spec_peer_port(&self) -> u16 {
        self.peer_addr.port
    }

    pub fn new(stream: HttpStream, addr: PeerAddr, config: &Conf) -> (r: Request)
        ensures
            r.spec_stream() == stream,
            r.spec_doc_root() == config.dir@,
            r.spec_file_path() == local_path(config.dir@, stream.head().path),
            r.spec_peer_ip() == addr.ip@,
            r.spec_peer_port() == addr.port,
    {
        let file_path = resolve_local_path(config.dir.as_slice(), stream.path());
        let mut dir_path: Vec<u8> = Vec::new();
        append(&mut dir_path, config.dir.as_slice());
        Request { stream, dir_path, peer_addr: addr, file_path }
    }

    pub fn headers(&self) -> (r: &Vec<(Vec<u8>, Vec<u8>)>)
        ensures
            pairs(r@) == self.head().headers,
    {
        self.stream.headers()
    }

    pub fn query(&self) -> (r: &[u8])
        ensures
            r@ == self.head().query,
    {
        self.stream.query()
    }

    pub fn method(&self) -> (r: &[u8])
        ensures
            r@ == self.head().method,
    {
        self.stream.method()
    }

    pub fn path(&self) -> (r: &[u8])
        ensures
            r@ == self.head().path,
    {
        self.stream.path()
    }

    pub fn query_path(&self) -> (r: &[u8])
        ensures
            r@ == self.head().query_path,
    {
        self.stream.query_path()
    }

    pub fn doc_root(&self) -> (r: &[u8])
        ensures
            r@ == self.spec_doc_root(),
    {
        self.dir_path.as_slice()
    }

    pub fn peer_addr(&self) -> (r: &PeerAddr)
        ensures
            r.ip@ == self.spec_peer_ip(),
            r.port == self.spec_peer_port(),
    {
        &self.peer_addr
    }

    pub fn file_path(&self) -> (r: &[u8])
        ensures
            r@ == self.spec_file_path(),
    {
        self.file_path.as_slice()
    }

    /// Whether the method carries a body to pass on.
    pub fn has_body(&self) -> (r: bool)
        ensures
            r == body_method(self.head().method),
    {
        let m = self.stream.method();
        crate::bytes::bytes_eq(m, crate::bytes::lit("POST").as_slice())
            || crate::bytes::bytes_eq(m, crate::bytes::lit("PUT").as_slice())
            || crate::bytes::bytes_eq(m, crate::bytes::lit("PATCH").as_slice())
            || crate::bytes::bytes_eq(m, crate::bytes::lit("DELETE").as_slice())
    }

    /// Points the request at another local file.
    pub fn rewrite(&mut self, file_path: Vec<u8>)
        ensures
            final(self).spec_file_path() == file_path@,
            final(self).head() == old(self).head(),
            final(self).spec_doc_root() == old(self).spec_doc_root(),
            final(self).spec_peer_ip() == old(self).spec_peer_ip(),
            final(self).spec_peer_port() == old(self).spec_peer_port(),
    {
        self.file_path = file_path;
    }

    pub closed spec fn spec_stream(&self) -> HttpStream {
        self.stream
    }

    /// The request's stream, to read its body.
    pub fn stream_mut(&mut self) -> (r: &mut HttpStream)
        ensures
            *r == old(self).spec_stream(),
            final(self).spec_stream() == *final(r),
            final(self).spec_file_path() == old(self).spec_file_path(),
            final(self).spec_doc_root() == old(self).spec_doc_root(),
            final(self).spec_peer_ip() == old(self).spec_peer_ip(),
            final(self).spec_peer_port() == old(self).spec_peer_port(),
    {
        &mut self.stream
    }

    pub fn stream(&self) -> (r: &HttpStream)
        ensures
            r.head() == self.head(),
    {
        &self.stream
    }

    /// Body bytes still owed.
    pub open spec fn body_remaining(&self) -> nat {
        self.spec_stream().body_remaining()
    }

    /// The next piece of the body; see `HttpStream::read_body`.
    pub fn read_body(&mut self, max: usize) -> (r: BodyRead)
        requires
            max > 0,
        ensures
            body_step(old(self).spec_stream(), final(self).spec_stream(), max, r),
            final(self).spec_file_path() == old(self).spec_file_path(),
            final(self).spec_doc_root() == old(self).spec_doc_root(),
            final(self).spec_peer_ip() == old(self).spec_peer_ip(),
            final(self).spec_peer_port() == old(self).spec_peer_port(),
    {
        self.stream.read_body(max)
    }

    /// Records `n` body bytes read from the connection.
    pub fn note_read(&mut self, n: usize)
        requires
            n <= old(self).body_remaining(),
        ensures
            final(self).head() == old(self).head(),
            final(self).spec_file_path() == old(self).spec_file_path(),
            final(self).spec_doc_root() == old(self).spec_doc_root(),
            final(self).body_remaining() == old(self).body_remaining() - n,
            final(self).spec_stream().carry() == old(self).spec_stream().carry(),
            final(self).spec_stream().body_read() == old(self).spec_stream().body_read() + n,
            final(self).spec_peer_ip() == old(self).spec_peer_ip(),
            final(self).spec_peer_port() == old(self).spec_peer_port(),
    {
        self.stream.note_read(n);
    }
}

} // verus!
