//! Per-connection decisions: which host configuration serves a request,
//! how a local request is routed, and how an upstream response head is
//! rewritten on its way downstream.
use vstd::prelude::*;
use crate::bytes::{append, index_of, index_of_byte, index_of_from, lemma_index_of_bounds, lit, text};
use crate::cache::{asks, plain_headers, Cache, CacheControl};
use crate::conf::Conf;
use crate::dir_response::last_index_of;
use crate::fcgi_response::{trim, trim_exec};
use crate::headers::{ci_index, ci_position, pairs, HeaderPairs};
use crate::http_stream::{crlf, header_text, line_at, strip_cr_range};

verus! {

#[derive(Debug, PartialEq, Eq, Structural, Clone, Copy)]
pub enum ServerError {
    NoHosts,
    /// All hosts on one listener must use the same port.
    PortMismatch,
    /// All hosts on one listener must agree on TLS.
    TlsMismatch,
}

/// Index of the first host whose port (`port == true`) or TLS flag differs
/// from the first host's, or -1.
pub open spec fn first_mismatch(confs: Seq<Conf>, i: int) -> int
    decreases confs.len() - i,
{
    if i < 0 || i >= confs.len() {
        -1
    } else if confs[i].port != confs[0].port || confs[i].https_enabled != confs[0].https_enabled {
        i
    } else {
        first_mismatch(confs, i + 1)
    }
}

/// The port and TLS flag of a listener shared by `confs`: all must agree on
/// both. The first host that disagrees decides the error, its port checked
/// before its TLS flag.
pub fn check_listener(confs: &Vec<Conf>) -> (r: Result<(u16, bool), ServerError>)
    ensures
        confs@.len() == 0 ==> r == Err::<(u16, bool), ServerError>(ServerError::NoHosts),
        confs@.len() > 0 && first_mismatch(confs@, 0) < 0 ==> r == Ok::<(u16, bool), ServerError>(
            (confs@[0].port, confs@[0].https_enabled),
        ),
        confs@.len() > 0 && first_mismatch(confs@, 0) >= 0 ==> r == Err::<(u16, bool), ServerError>(
            if confs@[first_mismatch(confs@, 0)].port != confs@[0].port {
                ServerError::PortMismatch
            } else {
                ServerError::TlsMismatch
            },
        ),
{
    if confs.len() == 0 {
        return Err(ServerError::NoHosts);
    }
    let port = confs[0].port;
    let tls = confs[0].https_enabled;
    let mut i: usize = 0;
    while i < confs.len()
        invariant
            0 < confs@.len(),
            i <= confs@.len(),
            port == confs@[0].port,
            tls == confs@[0].https_enabled,
            first_mismatch(confs@, 0) == first_mismatch(confs@, i as int),
        decreases confs@.len() - i,
    {
        if confs[i].port != port {
            return Err(ServerError::PortMismatch);
        }
        if confs[i].https_enabled != tls {
            return Err(ServerError::TlsMismatch);
        }
        i = i + 1;
    }
    Ok((port, tls))
}

/// Index of the first host whose domain is exactly `host`, or -1.
pub open spec fn domain_index(confs: Seq<Conf>, host: Seq<u8>, i: int) -> int
    decreases confs.len() - i,
{
    if i < 0 || i >= confs.len() {
        -1
    } else if confs[i].domain@ == host {
        i
    } else {
        domain_index(confs, host, i + 1)
    }
}

/// The host configuration for a request: the only one when there is one;
/// else the first whose domain is the Host header, which must be present.
pub open spec fn host_choice(confs: Seq<Conf>, host: Option<Seq<u8>>) -> Option<int> {
    if confs.len() == 1 {
        Some(0)
    } else {
        match host {
            Some(h) => {
                let i = domain_index(confs, h, 0);
                if i >= 0 {
                    Some(i)
                } else {
                    None
                }
            },
            None => None,
        }
    }
}

/// Value of the Host header, looked up in any case.
pub open spec fn host_of(h: HeaderPairs) -> Option<Seq<u8>> {
    let i = ci_index(h, text("host"));
    if i >= 0 {
        Some(h[i].1)
    } else {
        None
    }
}

pub fn select_host(headers: &Vec<(Vec<u8>, Vec<u8>)>, confs: &Vec<Conf>) -> (r: Option<usize>)
    ensures
        r matches Some(i) ==> host_choice(confs@, host_of(pairs(headers@))) == Some(i as int),
        r is None ==> host_choice(confs@, host_of(pairs(headers@))) is None,
{
    if confs.len() == 1 {
        return Some(0);
    }
    let host = match ci_position(headers, lit("host").as_slice(), 0) {
        Some(i) => headers[i].1.as_slice(),
        None => {
            return None;
        },
    };
    let mut i: usize = 0;
    while i < confs.len()
        invariant
            i <= confs@.len(),
            confs@.len() != 1,
            host_of(pairs(headers@)) == Some(host@),
            domain_index(confs@, host@, 0) == domain_index(confs@, host@, i as int),
        decreases confs@.len() - i,
    {
        if crate::bytes::bytes_eq(confs[i].domain.as_slice(), host) {
            return Some(i);
        }
        i = i + 1;
    }
    None
}

/// The extension of a path's last component: what follows its last `.`,
/// unless that dot starts the name or the name is `..`.
pub open spec fn extension_of(path: Seq<u8>) -> Option<Seq<u8>> {
    let name = path.subrange(last_index_of(path, 47) + 1, path.len() as int);
    let dot = last_index_of(name, 46);
    if name == seq![46u8, 46u8] || dot <= 0 {
        None
    } else {
        Some(name.subrange(dot + 1, name.len() as int))
    }
}

proof fn lemma_last_index_bounds(s: Seq<u8>, c: u8)
    ensures
        -1 <= last_index_of(s, c) < s.len(),
        last_index_of(s, c) >= 0 ==> s[last_index_of(s, c)] == c,
    decreases s.len(),
{
    if s.len() > 0 && s.last() != c {
        lemma_last_index_bounds(s.drop_last(), c);
    }
}

pub fn last_index_exec(s: &[u8], c: u8) -> (r: Option<usize>)
    ensures
        r matches Some(i) ==> last_index_of(s@, c) == i && i < s@.len(),
        r is None ==> last_index_of(s@, c) == -1,
{
    let mut i: usize = s.len();
    assert(s@.subrange(0, i as int) =~= s@);
    while i > 0 && s[i - 1] != c
        invariant
            i <= s@.len(),
            last_index_of(s@, c) == last_index_of(s@.subrange(0, i as int), c),
        decreases i,
    {
        assert(s@.subrange(0, i as int).drop_last() =~= s@.subrange(0, i - 1));
        i = i - 1;
    }
    if i == 0 {
        assert(s@.subrange(0, 0) =~= Seq::<u8>::empty());
        None
    } else {
        assert(s@.subrange(0, i as int).last() == s@[i - 1]);
        Some(i - 1)
    }
}

pub fn extension(path: &[u8]) -> (r: Option<Vec<u8>>)
    ensures
        r matches Some(e) ==> extension_of(path@) == Some(e@),
        r is None ==> extension_of(path@) is None,
{
    proof {
        lemma_last_index_bounds(path@, 47);
    }
    let n = path.len();
    let start = match last_index_exec(path, 47) {
        Some(i) => i + 1,
        None => 0,
    };
    let name = crate::bytes::copy_range(path, start, path.len());
    proof {
        lemma_last_index_bounds(name@, 46);
    }
    let dots = vec![46u8, 46u8];
    assert(dots@ =~= seq![46u8, 46u8]);
    if crate::bytes::bytes_eq(name.as_slice(), dots.as_slice()) {
        return None;
    }
    match last_index_exec(name.as_slice(), 46) {
        Some(d) => {
            if d == 0 {
                None
            } else {
                Some(crate::bytes::copy_range(name.as_slice(), d + 1, name.len()))
            }
        },
        None => None,
    }
}

pub fn is_php(path: &[u8]) -> (r: bool)
    ensures
        r == (extension_of(path@) == Some(text("php"))),
{
    match extension(path) {
        Some(e) => crate::bytes::bytes_eq(e.as_slice(), lit("php").as_slice()),
        None => false,
    }
}

/// What the file system says about a request's local path.
#[derive(Debug, Clone, Copy)]
pub struct PathFacts {
    pub is_file: bool,
    pub is_dir: bool,
    /// The host's PHP index exists as a file under the document root.
    pub index_is_file: bool,
}

/// How a local request is served.
#[derive(Debug, PartialEq, Eq, Structural, Clone, Copy)]
pub enum Route {
    /// Run the script through FastCGI.
    Php,
    /// Send the file.
    File,
    /// Point the request at the PHP index and run it.
    IndexPhp,
    /// Point the request at the PHP index and send it.
    IndexFile,
    /// List the directory.
    Dir,
    NotFound,
}

pub open spec fn route_of(
    path_is_php: bool,
    facts: PathFacts,
    has_index: bool,
    index_is_php: bool,
    browsing: bool,
) -> Route {
    if facts.is_file {
        if path_is_php {
            Route::Php
        } else {
            Route::File
        }
    } else if has_index && facts.index_is_file {
        if index_is_php {
            Route::IndexPhp
        } else {
            Route::IndexFile
        }
    } else if browsing && facts.is_dir {
        Route::Dir
    } else {
        Route::NotFound
    }
}

/// Routes a local request: a regular file is run (`.php`) or sent; else
/// the host's PHP index, when it exists; else a directory listing when
/// browsing is on; else 404.
pub fn route(file_path: &[u8], facts: PathFacts, conf: &Conf) -> (r: Route)
    ensures
        r == route_of(
            extension_of(file_path@) == Some(text("php")),
            facts,
            conf.php_index is Some,
            conf.php_index is Some && extension_of(conf.php_index->0@) == Some(text("php")),
            conf.browsing_enabled,
        ),
{
    if facts.is_file {
        return if is_php(file_path) {
            Route::Php
        } else {
            Route::File
        };
    }
    match &conf.php_index {
        Some(index) => {
            if facts.index_is_file {
                return if is_php(index.as_slice()) {
                    Route::IndexPhp
                } else {
                    Route::IndexFile
                };
            }
        },
        None => {},
    }
    if conf.browsing_enabled && facts.is_dir {
        Route::Dir
    } else {
        Route::NotFound
    }
}

/// Path of the host's PHP index under its document root.
pub fn index_path(conf: &Conf) -> (r: Option<Vec<u8>>)
    ensures
        r matches Some(p) ==> conf.php_index matches Some(i) && p@ == crate::cache::join(
            conf.dir@,
            i@,
        ),
        r is None ==> conf.php_index is None,
{
    match &conf.php_index {
        Some(i) => {
            let mut out: Vec<u8> = Vec::new();
            append(&mut out, conf.dir.as_slice());
            if conf.dir.len() > 0 && conf.dir[conf.dir.len() - 1] != 47 {
                out.push(47u8);
            }
            append(&mut out, i.as_slice());
            assert(out@ =~= crate::cache::join(conf.dir@, i@));
            Some(out)
        },
        None => None,
    }
}

/// A header line of an upstream response: a non-empty line with a `:`
/// gives the name before it and the trimmed value after it.
pub open spec fn upstream_line(acc: HeaderPairs, line: Seq<u8>) -> HeaderPairs {
    let c = index_of(line, 58);
    if line.len() > 0 && c < line.len() {
        acc.push((line.subrange(0, c), trim(line.subrange(c + 1, line.len() as int))))
    } else {
        acc
    }
}

pub open spec fn upstream_lines_from(h: Seq<u8>, pos: int, acc: HeaderPairs) -> HeaderPairs
    decreases h.len() + 1 - pos,
    via upstream_lines_decreases
{
    if pos < 0 || pos >= h.len() {
        acc
    } else {
        upstream_lines_from(h, index_of_from(h, 10, pos) + 1, upstream_line(acc, line_at(h, pos)))
    }
}

#[via_fn]
proof fn upstream_lines_decreases(h: Seq<u8>, pos: int, acc: HeaderPairs) {
    if pos >= 0 && pos < h.len() {
        lemma_index_of_bounds(h, 10, pos);
    }
}

/// The headers of an upstream response head, in order, repeats kept.
pub open spec fn upstream_headers(h: Seq<u8>) -> HeaderPairs {
    upstream_lines_from(h, index_of(h, 10) + 1, Seq::empty())
}

/// The headers passed downstream: without the control headers when the
/// cache is on.
pub open spec fn kept_upstream_headers(h: Seq<u8>, cache_enabled: bool) -> HeaderPairs {
    if cache_enabled {
        plain_headers(upstream_headers(h))
    } else {
        upstream_headers(h)
    }
}

/// The head sent downstream: the status line, the headers as
/// `name: value`, each line ended by CR LF, and a blank line.
pub open spec fn downstream_head(h: Seq<u8>, headers: HeaderPairs) -> Seq<u8> {
    line_at(h, 0) + crlf() + header_text(headers) + crlf()
}

fn upstream_headers_exec(h: &[u8], start: usize) -> (r: Vec<(Vec<u8>, Vec<u8>)>)
    requires
        start <= h@.len(),
    ensures
        pairs(r@) == upstream_lines_from(h@, start as int, Seq::empty()),
{
    let mut m: Vec<(Vec<u8>, Vec<u8>)> = Vec::new();
    let mut pos: usize = start;
    assert(pairs(m@) =~= Seq::<(Seq<u8>, Seq<u8>)>::empty());
    while pos < h.len()
        invariant
            pos <= h@.len(),
            upstream_lines_from(h@, pos as int, pairs(m@)) == upstream_lines_from(
                h@,
                start as int,
                Seq::empty(),
            ),
        decreases h@.len() + 1 - pos,
    {
        let e = index_of_byte(h, 10, pos);
        let line = strip_cr_range(h, pos, e);
        let ghost before = pairs(m@);
        let c = index_of_byte(line.as_slice(), 58, 0);
        if line.len() > 0 && c < line.len() {
            let name = crate::bytes::copy_range(line.as_slice(), 0, c);
            let value = trim_exec(line.as_slice(), c + 1, line.len());
            let ghost kv = (name@, value@);
            m.push((name, value));
            assert(pairs(m@) =~= before.push(kv));
        }
        assert(pairs(m@) == upstream_line(before, line@));
        assert(upstream_lines_from(h@, pos as int, before) == upstream_lines_from(
            h@,
            e + 1,
            pairs(m@),
        ));
        pos = if e < h.len() {
            e + 1
        } else {
            h.len()
        };
        assert(upstream_lines_from(h@, pos as int, pairs(m@)) == upstream_lines_from(
            h@,
            e + 1,
            pairs(m@),
        ));
    }
    m
}

/// Rewrites an upstream response head (the bytes up to and including its
/// blank line): the cache control headers are taken out and reported, the
/// rest is written back in order.
pub fn rewrite_upstream_head(head: &[u8], conf: &Conf) -> (r: (Vec<u8>, CacheControl))
    ensures
        r.0@ == downstream_head(head@, kept_upstream_headers(head@, conf.cache_enabled)),
        conf.cache_enabled ==> asks(r.1, upstream_headers(head@), conf),
        !conf.cache_enabled ==> r.1.store is None && r.1.delete is None && r.1.delete_like is None,
{
    proof {
        lemma_index_of_bounds(head@, 10, 0);
    }
    let first_end = index_of_byte(head, 10, 0);
    let status_line = strip_cr_range(head, 0, first_end);
    let start = if first_end < head.len() {
        first_end + 1
    } else {
        head.len()
    };
    let mut headers = upstream_headers_exec(head, start);
    assert(pairs(headers@) == upstream_headers(head@));
    let control = Cache::process_headers(&mut headers, conf);
    let mut out: Vec<u8> = Vec::new();
    append(&mut out, status_line.as_slice());
    out.push(13u8);
    out.push(10u8);
    let ghost prefix = out@;
    let ghost m = pairs(headers@);
    let mut i: usize = 0;
    while i < headers.len()
        invariant
            i <= headers@.len(),
            m == pairs(headers@),
            out@ == prefix + header_text(m.subrange(0, i as int)),
        decreases headers@.len() - i,
    {
        append(&mut out, headers[i].0.as_slice());
        out.push(58u8);
        out.push(32u8);
        append(&mut out, headers[i].1.as_slice());
        out.push(13u8);
        out.push(10u8);
        proof {
            let sub = m.subrange(0, i + 1);
            assert(sub.drop_last() =~= m.subrange(0, i as int));
            assert(out@ =~= prefix + header_text(sub));
        }
        i = i + 1;
    }
    assert(m.subrange(0, headers@.len() as int) =~= m);
    out.push(13u8);
    out.push(10u8);
    assert(out@ =~= downstream_head(head@, m));
    (out, control)
}

} // verus!
