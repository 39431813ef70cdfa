//! The configuration file: `key = value` lines, `;` comments.
use vstd::prelude::*;
use crate::bytes::{
    all_digits, append, digits_value, index_of, index_of_byte, index_of_from, lemma_index_of_bounds,
    lit, parse_decimal, parse_unsigned, text,
};
use crate::cache::{opt_view, views};
use crate::args::{arg_views, defs_view, parse_from, store_view, ArgKind, ArgsParser, DefView};
use vstd::utf8::encode_utf8;
use crate::conf::{Conf, ConfBuilder, ConfError, Endpoint};
use crate::dir_response::last_index_of;
use crate::fcgi_response::{trim, trim_exec};
use crate::http_stream::{line_at, strip_cr_range};

verus! {

/// The settings of a host, as values.
pub struct ConfModel {
    pub dir: Seq<u8>,
    pub port: u16,
    pub domain: Seq<u8>,
    pub browsing_enabled: bool,
    pub workers: usize,
    pub timeout_secs: u64,
    pub php_enabled: bool,
    pub php_index: Option<Seq<u8>>,
    pub php_port: Option<u16>,
    pub php_socket: Option<Seq<u8>>,
    pub https_enabled: bool,
    pub https_pub_cert: Seq<u8>,
    pub https_private_key: Seq<u8>,
    pub logs_enabled: bool,
    pub logs_min_level: Seq<u8>,
    pub logs_dir: Option<Seq<u8>>,
    pub load_balancing_enabled: bool,
    pub load_balancing_servers: Seq<Endpoint>,
    pub cache_enabled: bool,
    pub cache_dir: Option<Seq<u8>>,
    pub cache_patterns: Seq<Seq<u8>>,
}

pub open spec fn model(c: &Conf) -> ConfModel {
    ConfModel {
        dir: c.dir@,
        port: c.port,
        domain: c.domain@,
        browsing_enabled: c.browsing_enabled,
        workers: c.workers,
        timeout_secs: c.timeout_secs,
        php_enabled: c.php_enabled,
        php_index: opt_view(c.php_index),
        php_port: c.php_port,
        php_socket: opt_view(c.php_socket),
        https_enabled: c.https_enabled,
        https_pub_cert: c.https_pub_cert@,
        https_private_key: c.https_private_key@,
        logs_enabled: c.logs_enabled,
        logs_min_level: c.logs_min_level@,
        logs_dir: opt_view(c.logs_dir),
        load_balancing_enabled: c.load_balancing_enabled,
        load_balancing_servers: c.load_balancing_servers@,
        cache_enabled: c.cache_enabled,
        cache_dir: opt_view(c.cache_dir),
        cache_patterns: views(c.cache_patterns@),
    }
}

/// A path that a setting names and that must exist, as a directory or as
/// a regular file, for the configuration to stand. The caller looks.
#[derive(Debug)]
pub struct PathCheck {
    pub path: Vec<u8>,
    pub want_dir: bool,
    pub line_no: usize,
    pub message: String,
}

pub type CheckView = (Seq<u8>, bool, usize, Seq<char>);

pub open spec fn check_views(v: Seq<PathCheck>) -> Seq<CheckView> {
    v.map_values(|c: PathCheck| (c.path@, c.want_dir, c.line_no, c.message@))
}

pub open spec fn lower_all(s: Seq<u8>) -> Seq<u8> {
    s.map_values(|c: u8| crate::bytes::lower(c))
}

/// The words that switch a setting on.
pub open spec fn enabled_word(v: Seq<u8>) -> bool {
    v == text("1") || v == text("true") || v == text("t") || v == text("enabled") || v == text("y")
        || v == text("yes")
}

pub open spec fn octet_ok(o: Seq<u8>) -> bool {
    1 <= o.len() <= 3 && all_digits(o) && (o.len() == 1 || o[0] != 48) && digits_value(o) <= 255
}

/// A dotted-quad IPv4 address, as one number.
pub open spec fn ipv4_of(s: Seq<u8>) -> Option<u32> {
    let dot_a = index_of(s, 46);
    let dot_b = index_of_from(s, 46, dot_a + 1);
    let dot_c = index_of_from(s, 46, dot_b + 1);
    let a = s.subrange(0, dot_a);
    let b = s.subrange(dot_a + 1, dot_b);
    let c = s.subrange(dot_b + 1, dot_c);
    let d = s.subrange(dot_c + 1, s.len() as int);
    if dot_a < s.len() && dot_b < s.len() && dot_c < s.len() && index_of_from(s, 46, dot_c + 1) == s.len()
        && octet_ok(a) && octet_ok(b) && octet_ok(c) && octet_ok(d) {
        Some(
            (digits_value(a) * 16777216 + digits_value(b) * 65536 + digits_value(c) * 256
                + digits_value(d)) as u32,
        )
    } else {
        None
    }
}

/// `ip:port`, with exactly one colon; the port may be padded with blanks.
pub open spec fn server_addr_of(s: Seq<u8>) -> Result<Endpoint, Seq<char>> {
    let c = index_of(s, 58);
    if c >= s.len() || index_of_from(s, 58, c + 1) < s.len() {
        Err("Invalid load balancer server address"@)
    } else {
        match ipv4_of(s.subrange(0, c)) {
            None => Err("Invalid load balancer server IP address"@),
            Some(ip) => match parse_unsigned(trim(s.subrange(c + 1, s.len() as int)), 65535) {
                None => Err("Invalid load balancer port"@),
                Some(p) => Ok(Endpoint { ip, port: p as u16 }),
            },
        }
    }
}

pub open spec fn key_of(line: Seq<u8>) -> Seq<u8> {
    trim(line.subrange(0, index_of(line, 61)))
}

pub open spec fn value_of(line: Seq<u8>) -> Seq<u8> {
    trim(line.subrange(last_index_of(line, 61) + 1, line.len() as int))
}

pub open spec fn is_comment(line: Seq<u8>) -> bool {
    trim(line).len() > 0 && trim(line)[0] == 59
}

/// The settings from the lines at and after `pos`, the next counted line
/// being number `n`; comment lines are skipped and not counted.
pub open spec fn file_from(h: Seq<u8>, pos: int, m: ConfModel, cs: Seq<CheckView>, n: usize) -> LineResult
    decreases h.len() + 1 - pos,
    via file_from_decreases
{
    if pos < 0 || pos >= h.len() {
        Ok((m, cs))
    } else {
        let line = line_at(h, pos);
        let next = index_of_from(h, 10, pos) + 1;
        if is_comment(line) {
            file_from(h, next, m, cs, n)
        } else {
            match apply_line(m, line, n) {
                Ok((m2, c2)) => file_from(h, next, m2, cs + c2, (n + 1) as usize),
                Err(e) => Err(e),
            }
        }
    }
}

#[via_fn]
proof fn file_from_decreases(h: Seq<u8>, pos: int, m: ConfModel, cs: Seq<CheckView>, n: usize) {
    if pos >= 0 && pos < h.len() {
        lemma_index_of_bounds(h, 10, pos);
    }
}

pub type LineResult = Result<(ConfModel, Seq<CheckView>), (Seq<char>, usize)>;

pub open spec fn int_setting(v: Seq<u8>, max: nat, msg: Seq<char>, n: usize) -> Result<nat, (Seq<char>, usize)> {
    match parse_unsigned(v, max) {
        Some(x) => Ok(x),
        None => Err((msg, n)),
    }
}

/// `server.*` settings.
pub open spec fn apply_server(m: ConfModel, k: Seq<u8>, v: Seq<u8>, n: usize) -> Option<LineResult> {
    let none = Seq::<CheckView>::empty();
    if k == text("server.port") {
        Some(match int_setting(v, 65535, "Port is not valid integer"@, n) {
            Ok(p) => Ok((ConfModel { port: p as u16, ..m }, none)),
            Err(e) => Err(e),
        })
    } else if k == text("server.dir") {
        Some(Ok((ConfModel { dir: v, ..m }, none)))
    } else if k == text("server.workers") {
        Some(match int_setting(v, usize::MAX as nat, "Workers is not valid integer"@, n) {
            Ok(w) => Ok((ConfModel { workers: w as usize, ..m }, none)),
            Err(e) => Err(e),
        })
    } else if k == text("server.timeout") {
        Some(match int_setting(v, 65535, "Timeout is not valid integer"@, n) {
            Ok(t) => Ok((ConfModel { timeout_secs: t as u64, ..m }, none)),
            Err(e) => Err(e),
        })
    } else if k == text("server.domain") {
        Some(Ok((ConfModel { domain: v, ..m }, none)))
    } else if k == text("server.browsing_enabled") {
        Some(Ok((ConfModel { browsing_enabled: enabled_word(v), ..m }, none)))
    } else {
        None
    }
}

/// `logs.*` settings.
pub open spec fn apply_logs(m: ConfModel, k: Seq<u8>, v: Seq<u8>, n: usize) -> Option<LineResult> {
    let none = Seq::<CheckView>::empty();
    if k == text("logs.enabled") {
        Some(Ok((ConfModel { logs_enabled: enabled_word(v), ..m }, none)))
    } else if k == text("logs.min_level") {
        Some(
            if v == text("debug") || v == text("info") || v == text("error") {
                Ok((ConfModel { logs_min_level: v, ..m }, none))
            } else {
                Err(("Invalid min log level value"@, n))
            },
        )
    } else if k == text("logs.dir") {
        Some(Ok((ConfModel { logs_dir: Some(v), ..m }, seq![(v, true, n, "Invalid log dir"@)])))
    } else {
        None
    }
}

/// `load_balancer.*` and `https.*` settings.
pub open spec fn apply_net(m: ConfModel, k: Seq<u8>, v: Seq<u8>, n: usize) -> Option<LineResult> {
    let none = Seq::<CheckView>::empty();
    if k == text("load_balancer.enabled") {
        Some(Ok((ConfModel { load_balancing_enabled: enabled_word(lower_all(v)), ..m }, none)))
    } else if k == text("load_balancer.servers") {
        Some(match server_addr_of(v) {
            Ok(e) => Ok(
                (ConfModel { load_balancing_servers: m.load_balancing_servers.push(e), ..m }, none),
            ),
            Err(msg) => Err((msg, n)),
        })
    } else if k == text("https.enabled") {
        Some(Ok((ConfModel { https_enabled: enabled_word(v), ..m }, none)))
    } else if k == text("https.public_key") {
        Some(
            Ok((ConfModel { https_pub_cert: v, ..m }, seq![(v, false, n, "Public key doesn't exist"@)])),
        )
    } else if k == text("https.private_key") {
        Some(
            Ok(
                (
                    ConfModel { https_private_key: v, ..m },
                    seq![(v, false, n, "Private key doesn't exist"@)],
                ),
            ),
        )
    } else {
        None
    }
}

/// `php.*` and `cache.*` settings.
pub open spec fn apply_php_cache(m: ConfModel, k: Seq<u8>, v: Seq<u8>, n: usize) -> Option<LineResult> {
    let none = Seq::<CheckView>::empty();
    if k == text("php.enabled") {
        Some(Ok((ConfModel { php_enabled: enabled_word(v), ..m }, none)))
    } else if k == text("php.index") {
        Some(Ok((ConfModel { php_index: Some(v), ..m }, none)))
    } else if k == text("php.port") {
        Some(match int_setting(v, 65535, "PHP FPM/FastCGI port is not valid integer"@, n) {
            Ok(p) => Ok((ConfModel { php_port: Some(p as u16), ..m }, none)),
            Err(e) => Err(e),
        })
    } else if k == text("php.socket") {
        Some(Ok((ConfModel { php_socket: Some(v), ..m }, none)))
    } else if k == text("cache.enabled") {
        Some(Ok((ConfModel { cache_enabled: enabled_word(lower_all(v)), ..m }, none)))
    } else if k == text("cache.dir") {
        Some(Ok((ConfModel { cache_dir: Some(v), ..m }, seq![(v, true, n, "Invalid cache dir"@)])))
    } else if k == text("cache.pattern") {
        Some(Ok((ConfModel { cache_patterns: m.cache_patterns.push(v), ..m }, none)))
    } else {
        None
    }
}

/// The effect of one setting line, numbered `n`: `key = value`, both
/// trimmed (the value after the last `=`). Unknown keys change nothing; a
/// line without `=` is its own key and value.
#[verifier::opaque]
pub open spec fn apply_line(m: ConfModel, line: Seq<u8>, n: usize) -> LineResult {
    let k = key_of(line);
    let v = value_of(line);
    match apply_server(m, k, v, n) {
        Some(r) => r,
        None => match apply_logs(m, k, v, n) {
            Some(r) => r,
            None => match apply_net(m, k, v, n) {
                Some(r) => r,
                None => match apply_php_cache(m, k, v, n) {
                    Some(r) => r,
                    None => Ok((m, Seq::empty())),
                },
            },
        },
    }
}

fn enabled_exec(v: &[u8]) -> (r: bool)
    ensures
        r == enabled_word(v@),
{
    crate::bytes::bytes_eq(v, lit("1").as_slice()) || crate::bytes::bytes_eq(v, lit("true").as_slice())
        || crate::bytes::bytes_eq(v, lit("t").as_slice()) || crate::bytes::bytes_eq(
        v,
        lit("enabled").as_slice(),
    ) || crate::bytes::bytes_eq(v, lit("y").as_slice()) || crate::bytes::bytes_eq(
        v,
        lit("yes").as_slice(),
    )
}

fn lower_exec(s: &[u8]) -> (r: Vec<u8>)
    ensures
        r@ == lower_all(s@),
{
    let mut v: Vec<u8> = Vec::new();
    let mut i: usize = 0;
    while i < s.len()
        invariant
            i <= s@.len(),
            v@ == lower_all(s@.subrange(0, i as int)),
        decreases s@.len() - i,
    {
        let c = s[i];
        v.push(if 65 <= c && c <= 90 { c + 32 } else { c });
        i = i + 1;
        assert(v@ =~= lower_all(s@.subrange(0, i as int)));
    }
    assert(s@.subrange(0, s@.len() as int) =~= s@);
    v
}

fn octet_exec(s: &[u8], lo: usize, hi: usize) -> (r: Option<u64>)
    requires
        lo <= hi <= s@.len(),
    ensures
        r matches Some(v) ==> octet_ok(s@.subrange(lo as int, hi as int)) && v == digits_value(
            s@.subrange(lo as int, hi as int),
        ),
        r is None ==> !octet_ok(s@.subrange(lo as int, hi as int)),
{
    let o = crate::bytes::copy_range(s, lo, hi);
    if o.len() < 1 || o.len() > 3 {
        return None;
    }
    if o.len() > 1 && o[0] == 48 {
        return None;
    }
    if o[0] == 43 {
        assert(!crate::bytes::is_digit(o@[0]));
        return None;
    }
    match parse_decimal(o.as_slice(), 255) {
        Some(v) => {
            assert(crate::bytes::unsigned_digits(o@) == o@);
            Some(v)
        },
        None => {
            assert(crate::bytes::unsigned_digits(o@) == o@);
            None
        },
    }
}

fn value_of_vec(line: &[u8], vstart: usize) -> (r: Vec<u8>)
    requires
        vstart <= line@.len(),
    ensures
        r@ == trim(line@.subrange(vstart as int, line@.len() as int)),
{
    trim_exec(line, vstart, line.len())
}

impl ConfBuilder {
    pub fn parse_u16(value: &[u8], msg: &str) -> (r: Result<u16, ConfError>)
        ensures
            parse_unsigned(value@, 65535) matches Some(v) ==> r == Ok::<u16, ConfError>(v as u16),
            parse_unsigned(value@, 65535) is None ==> (r matches Err(e) && e.spec_message() == msg@),
    {
        match parse_decimal(value, 65535) {
            Some(v) => Ok(v as u16),
            None => Err(ConfError::new(msg)),
        }
    }

    pub fn parse_usize(value: &[u8], msg: &str) -> (r: Result<usize, ConfError>)
        ensures
            parse_unsigned(value@, usize::MAX as nat) matches Some(v) ==> r == Ok::<usize, ConfError>(
                v as usize,
            ),
            parse_unsigned(value@, usize::MAX as nat) is None ==> (r matches Err(e)
                && e.spec_message() == msg@),
    {
        match parse_decimal(value, usize::MAX as u64) {
            Some(v) => Ok(v as usize),
            None => Err(ConfError::new(msg)),
        }
    }

    /// A signed 16-bit number, with an optional sign.
    pub fn parse_i16(value: &[u8], msg: &str) -> (r: Result<i16, ConfError>)
        ensures
            value@.len() > 0 && value@[0] == 45 ==> match parse_unsigned(value@.skip(1), 32768) {
                Some(v) => (value@.len() > 1 && value@[1] != 43) ==> r == Ok::<i16, ConfError>(
                    (0 - v) as i16,
                ),
                None => r is Err,
            },
            !(value@.len() > 0 && value@[0] == 45) ==> match parse_unsigned(value@, 32767) {
                Some(v) => r == Ok::<i16, ConfError>(v as i16),
                None => r is Err,
            },
    {
        if value.len() > 0 && value[0] == 45 {
            let rest = crate::bytes::copy_range(value, 1, value.len());
            assert(rest@ =~= value@.skip(1));
            if rest.len() > 0 && rest[0] == 43 {
                return Err(ConfError::new(msg));
            }
            match parse_decimal(rest.as_slice(), 32768) {
                Some(v) => Ok((0 - (v as i32)) as i16),
                None => Err(ConfError::new(msg)),
            }
        } else {
            match parse_decimal(value, 32767) {
                Some(v) => Ok(v as i16),
                None => Err(ConfError::new(msg)),
            }
        }
    }

    /// A load balancer upstream, `ip:port`.
    pub fn parse_server_addr(value: &[u8], line_no: usize) -> (r: Result<Endpoint, ConfError>)
        ensures
            server_addr_of(value@) matches Ok(e) ==> r == Ok::<Endpoint, ConfError>(e),
            server_addr_of(value@) matches Err(m) ==> (r matches Err(e) && e.spec_message() == m
                && e.spec_line() == Some(line_no)),
    {
        proof {
            lemma_index_of_bounds(value@, 58, 0);
        }
        let c = index_of_byte(value, 58, 0);
        if c >= value.len() || index_of_byte(value, 58, c + 1) < value.len() {
            return Err(ConfError::at_line("Invalid load balancer server address", line_no));
        }
        let ip = crate::bytes::copy_range(value, 0, c);
        let ipb = ip.as_slice();
        proof {
            lemma_index_of_bounds(ip@, 46, 0);
        }
        let dot_a = index_of_byte(ipb, 46, 0);
        if dot_a >= ipb.len() {
            return Err(ConfError::at_line("Invalid load balancer server IP address", line_no));
        }
        let dot_b = index_of_byte(ipb, 46, dot_a + 1);
        if dot_b >= ipb.len() {
            return Err(ConfError::at_line("Invalid load balancer server IP address", line_no));
        }
        let dot_c = index_of_byte(ipb, 46, dot_b + 1);
        if dot_c >= ipb.len() || index_of_byte(ipb, 46, dot_c + 1) < ipb.len() {
            return Err(ConfError::at_line("Invalid load balancer server IP address", line_no));
        }
        let a = octet_exec(ipb, 0, dot_a);
        let b = octet_exec(ipb, dot_a + 1, dot_b);
        let cc = octet_exec(ipb, dot_b + 1, dot_c);
        let d = octet_exec(ipb, dot_c + 1, ipb.len());
        let addr: u32 = match (a, b, cc, d) {
            (Some(a), Some(b), Some(cc), Some(d)) => {
                (a * 16777216 + b * 65536 + cc * 256 + d) as u32
            },
            _ => {
                return Err(ConfError::at_line("Invalid load balancer server IP address", line_no));
            },
        };
        assert(ipv4_of(ip@) == Some(addr));
        let port_text = trim_exec(value, c + 1, value.len());
        match parse_decimal(port_text.as_slice(), 65535) {
            Some(p) => Ok(Endpoint { ip: addr, port: p as u16 }),
            None => Err(ConfError::at_line("Invalid load balancer port", line_no)),
        }
    }

    fn check(path: &[u8], want_dir: bool, line_no: usize, message: &str) -> (r: PathCheck)
        ensures
            (r.path@, r.want_dir, r.line_no, r.message@) == (path@, want_dir, line_no, message@),
    {
        let mut p: Vec<u8> = Vec::new();
        append(&mut p, path);
        assert(p@ =~= path@);
        PathCheck { path: p, want_dir, line_no, message: message.to_owned() }
    }

    /// Applies one setting line, numbered `line_no`; paths that must exist
    /// are added to `checks`. On error nothing is changed.
    pub fn parse_line(conf: &mut Conf, line: &[u8], line_no: usize, checks: &mut Vec<PathCheck>) -> (r:
        Result<(), ConfError>)
        ensures
            match apply_line(model(old(conf)), line@, line_no) {
                Ok((m, cs)) => r is Ok && model(final(conf)) == m && check_views(final(checks)@)
                    == check_views(old(checks)@) + cs,
                Err((msg, n)) => (r matches Err(e) && e.spec_message() == msg && e.spec_line() == Some(
                    n,
                )),
            },
    {
        let len = line.len();
        let eq = index_of_byte(line, 61, 0);
        let key = trim_exec(line, 0, eq);
        let last = crate::server::last_index_exec(line, 61);
        let vstart = match last {
            Some(i) => i + 1,
            None => 0,
        };
        let value = trim_exec(line, vstart, line.len());
        assert(key@ == key_of(line@));
        assert(value@ == value_of(line@));
        proof {
            reveal(apply_line);
        }
        match ConfBuilder::set_server(conf, key.as_slice(), value, line_no) {
            Some(r) => {
                assert(check_views(checks@) =~= check_views(old(checks)@) + Seq::empty());
                return r;
            },
            None => {},
        }
        match ConfBuilder::set_logs(conf, key.as_slice(), value_of_vec(line, vstart), line_no, checks) {
            Some(r) => {
                return r;
            },
            None => {},
        }
        match ConfBuilder::set_net(conf, key.as_slice(), value_of_vec(line, vstart), line_no, checks) {
            Some(r) => {
                return r;
            },
            None => {},
        }
        match ConfBuilder::set_php_cache(conf, key.as_slice(), value_of_vec(line, vstart), line_no, checks) {
            Some(r) => {
                return r;
            },
            None => {},
        }
        assert(check_views(checks@) =~= check_views(old(checks)@) + Seq::empty());
        Ok(())
    }

    fn set_server(conf: &mut Conf, k: &[u8], value: Vec<u8>, line_no: usize) -> (r: Option<
        Result<(), ConfError>,
    >)
        ensures
            match apply_server(model(old(conf)), k@, value@, line_no) {
                None => r is None && model(final(conf)) == model(old(conf)),
                Some(Ok((m, cs))) => r == Some(Ok::<(), ConfError>(())) && model(final(conf)) == m,
                Some(Err((msg, n))) => (r matches Some(Err(e)) && e.spec_message() == msg
                    && e.spec_line() == Some(n) && model(final(conf)) == model(old(conf))),
            },
    {
        let v = value.as_slice();
        if crate::bytes::bytes_eq(k, lit("server.port").as_slice()) {
            match parse_decimal(v, 65535) {
                Some(p) => {
                    conf.port = p as u16;
                },
                None => {
                    return Some(Err(ConfError::at_line("Port is not valid integer", line_no)));
                },
            }
        } else if crate::bytes::bytes_eq(k, lit("server.dir").as_slice()) {
            conf.dir = value;
        } else if crate::bytes::bytes_eq(k, lit("server.workers").as_slice()) {
            match parse_decimal(v, usize::MAX as u64) {
                Some(w) => {
                    conf.workers = w as usize;
                },
                None => {
                    return Some(Err(ConfError::at_line("Workers is not valid integer", line_no)));
                },
            }
        } else if crate::bytes::bytes_eq(k, lit("server.timeout").as_slice()) {
            match parse_decimal(v, 65535) {
                Some(t) => {
                    conf.timeout_secs = t;
                },
                None => {
                    return Some(Err(ConfError::at_line("Timeout is not valid integer", line_no)));
                },
            }
        } else if crate::bytes::bytes_eq(k, lit("server.domain").as_slice()) {
            conf.domain = value;
        } else if crate::bytes::bytes_eq(k, lit("server.browsing_enabled").as_slice()) {
            conf.browsing_enabled = enabled_exec(v);
        } else {
            return None;
        }
        Some(Ok(()))
    }

    fn set_logs(conf: &mut Conf, k: &[u8], value: Vec<u8>, line_no: usize, checks: &mut Vec<PathCheck>) -> (r:
        Option<Result<(), ConfError>>)
        ensures
            match apply_logs(model(old(conf)), k@, value@, line_no) {
                None => r is None && model(final(conf)) == model(old(conf)) && final(checks)@ == old(
                    checks,
                )@,
                Some(Ok((m, cs))) => r == Some(Ok::<(), ConfError>(())) && model(final(conf)) == m
                    && check_views(final(checks)@) == check_views(old(checks)@) + cs,
                Some(Err((msg, n))) => (r matches Some(Err(e)) && e.spec_message() == msg
                    && e.spec_line() == Some(n)),
            },
    {
        let v = value.as_slice();
        if crate::bytes::bytes_eq(k, lit("logs.enabled").as_slice()) {
            conf.logs_enabled = enabled_exec(v);
        } else if crate::bytes::bytes_eq(k, lit("logs.min_level").as_slice()) {
            if crate::bytes::bytes_eq(v, lit("debug").as_slice()) || crate::bytes::bytes_eq(
                v,
                lit("info").as_slice(),
            ) || crate::bytes::bytes_eq(v, lit("error").as_slice()) {
                conf.logs_min_level = value;
            } else {
                return Some(Err(ConfError::at_line("Invalid min log level value", line_no)));
            }
        } else if crate::bytes::bytes_eq(k, lit("logs.dir").as_slice()) {
            let ghost before = check_views(checks@);
            checks.push(ConfBuilder::check(v, true, line_no, "Invalid log dir"));
            assert(check_views(checks@) =~= before + seq![(value@, true, line_no, "Invalid log dir"@)]);
            conf.logs_dir = Some(value);
            return Some(Ok(()));
        } else {
            return None;
        }
        assert(check_views(checks@) =~= check_views(old(checks)@) + Seq::empty());
        Some(Ok(()))
    }

    fn set_net(conf: &mut Conf, k: &[u8], value: Vec<u8>, line_no: usize, checks: &mut Vec<PathCheck>) -> (r:
        Option<Result<(), ConfError>>)
        ensures
            match apply_net(model(old(conf)), k@, value@, line_no) {
                None => r is None && model(final(conf)) == model(old(conf)) && final(checks)@ == old(
                    checks,
                )@,
                Some(Ok((m, cs))) => r == Some(Ok::<(), ConfError>(())) && model(final(conf)) == m
                    && check_views(final(checks)@) == check_views(old(checks)@) + cs,
                Some(Err((msg, n))) => (r matches Some(Err(e)) && e.spec_message() == msg
                    && e.spec_line() == Some(n)),
            },
    {
        let v = value.as_slice();
        if crate::bytes::bytes_eq(k, lit("load_balancer.enabled").as_slice()) {
            conf.load_balancing_enabled = enabled_exec(lower_exec(v).as_slice());
        } else if crate::bytes::bytes_eq(k, lit("load_balancer.servers").as_slice()) {
            match ConfBuilder::parse_server_addr(v, line_no) {
                Ok(e) => {
                    conf.load_balancing_servers.push(e);
                },
                Err(e) => {
                    return Some(Err(e));
                },
            }
        } else if crate::bytes::bytes_eq(k, lit("https.enabled").as_slice()) {
            conf.https_enabled = enabled_exec(v);
        } else if crate::bytes::bytes_eq(k, lit("https.public_key").as_slice()) {
            let ghost before = check_views(checks@);
            checks.push(ConfBuilder::check(v, false, line_no, "Public key doesn't exist"));
            assert(check_views(checks@) =~= before + seq![
                (value@, false, line_no, "Public key doesn't exist"@),
            ]);
            conf.https_pub_cert = value;
            return Some(Ok(()));
        } else if crate::bytes::bytes_eq(k, lit("https.private_key").as_slice()) {
            let ghost before = check_views(checks@);
            checks.push(ConfBuilder::check(v, false, line_no, "Private key doesn't exist"));
            assert(check_views(checks@) =~= before + seq![
                (value@, false, line_no, "Private key doesn't exist"@),
            ]);
            conf.https_private_key = value;
            return Some(Ok(()));
        } else {
            return None;
        }
        assert(check_views(checks@) =~= check_views(old(checks)@) + Seq::empty());
        Some(Ok(()))
    }

    fn set_php_cache(conf: &mut Conf, k: &[u8], value: Vec<u8>, line_no: usize, checks: &mut Vec<PathCheck>) -> (r:
        Option<Result<(), ConfError>>)
        ensures
            match apply_php_cache(model(old(conf)), k@, value@, line_no) {
                None => r is None && model(final(conf)) == model(old(conf)) && final(checks)@ == old(
                    checks,
                )@,
                Some(Ok((m, cs))) => r == Some(Ok::<(), ConfError>(())) && model(final(conf)) == m
                    && check_views(final(checks)@) == check_views(old(checks)@) + cs,
                Some(Err((msg, n))) => (r matches Some(Err(e)) && e.spec_message() == msg
                    && e.spec_line() == Some(n)),
            },
    {
        let v = value.as_slice();
        if crate::bytes::bytes_eq(k, lit("php.enabled").as_slice()) {
            conf.php_enabled = enabled_exec(v);
        } else if crate::bytes::bytes_eq(k, lit("php.index").as_slice()) {
            conf.php_index = Some(value);
        } else if crate::bytes::bytes_eq(k, lit("php.port").as_slice()) {
            match parse_decimal(v, 65535) {
                Some(p) => {
                    conf.php_port = Some(p as u16);
                },
                None => {
                    return Some(
                        Err(ConfError::at_line("PHP FPM/FastCGI port is not valid integer", line_no)),
                    );
                },
            }
        } else if crate::bytes::bytes_eq(k, lit("php.socket").as_slice()) {
            conf.php_socket = Some(value);
        } else if crate::bytes::bytes_eq(k, lit("cache.enabled").as_slice()) {
            conf.cache_enabled = enabled_exec(lower_exec(v).as_slice());
        } else if crate::bytes::bytes_eq(k, lit("cache.dir").as_slice()) {
            let ghost before = check_views(checks@);
            checks.push(ConfBuilder::check(v, true, line_no, "Invalid cache dir"));
            assert(check_views(checks@) =~= before + seq![(value@, true, line_no, "Invalid cache dir"@)]);
            conf.cache_dir = Some(value);
            return Some(Ok(()));
        } else if crate::bytes::bytes_eq(k, lit("cache.pattern").as_slice()) {
            let ghost before = views(conf.cache_patterns@);
            let ghost vv = value@;
            conf.cache_patterns.push(value);
            assert(views(conf.cache_patterns@) =~= before.push(vv));
        } else {
            return None;
        }
        assert(check_views(checks@) =~= check_views(old(checks)@) + Seq::empty());
        Some(Ok(()))
    }

    /// Applies the settings of a configuration file. Lines whose first
    /// non-blank byte is `;` are comments and are not counted. Returns the
    /// paths that must exist for the configuration to stand.
    pub fn parse_file(conf: &mut Conf, contents: &[u8]) -> (r: Result<Vec<PathCheck>, ConfError>)
        requires
            contents@.len() < usize::MAX,
        ensures
            match file_from(contents@, 0, model(old(conf)), Seq::empty(), 1) {
                Ok((m, cs)) => (r matches Ok(v) && model(final(conf)) == m && check_views(v@) == cs),
                Err((msg, n)) => (r matches Err(e) && e.spec_message() == msg && e.spec_line() == Some(
                    n,
                )),
            },
    {
        let mut checks: Vec<PathCheck> = Vec::new();
        let ghost target = file_from(contents@, 0, model(conf), Seq::empty(), 1);
        assert(check_views(checks@) =~= Seq::<CheckView>::empty());
        let mut pos: usize = 0;
        let mut line_no: usize = 1;
        while pos < contents.len()
            invariant
                pos <= contents@.len() < usize::MAX,
                1 <= line_no <= pos + 1,
                file_from(contents@, pos as int, model(conf), check_views(checks@), line_no) == target,
                target == file_from(contents@, 0, model(old(conf)), Seq::empty(), 1),
            decreases contents@.len() + 1 - pos,
        {
            let e = index_of_byte(contents, 10, pos);
            let line = strip_cr_range(contents, pos, e);
            assert(line@ == line_at(contents@, pos as int));
            let t = trim_exec(line.as_slice(), 0, line.len());
            assert(line@.subrange(0, line@.len() as int) =~= line@);
            let ghost m0 = model(conf);
            let ghost c0 = check_views(checks@);
            let ghost old_line_no = line_no;
            let ghost next = index_of_from(contents@, 10, pos as int) + 1;
            if t.len() > 0 && t[0] == 59 {
                assert(is_comment(line@));
                assert(file_from(contents@, pos as int, m0, c0, line_no) == file_from(
                    contents@,
                    next,
                    m0,
                    c0,
                    line_no,
                ));
            } else {
                assert(!is_comment(line@));
                assert(file_from(contents@, pos as int, m0, c0, line_no) == match apply_line(
                    m0,
                    line@,
                    line_no,
                ) {
                    Ok((m2, c2)) => file_from(contents@, next, m2, c0 + c2, (line_no + 1) as usize),
                    Err(e) => Err(e),
                });
                match ConfBuilder::parse_line(conf, line.as_slice(), line_no, &mut checks) {
                    Ok(()) => {},
                    Err(err) => {
                        return Err(err);
                    },
                }
                line_no = line_no + 1;
            }
            assert(file_from(contents@, pos as int, m0, c0, old_line_no) == file_from(
                contents@,
                next,
                model(conf),
                check_views(checks@),
                line_no,
            ));
            pos = if e < contents.len() {
                e + 1
            } else {
                contents.len()
            };
        }
        Ok(checks)
    }

    /// Reads the command line: `-f <file>`, `-p <port>`, `-d <dir>`.
    /// Reading the file and checking the directory are for the caller.
    pub fn parse_args(args: &Vec<String>) -> (r: Result<ArgSettings, ConfError>)
        ensures
            ({
                let res = parse_from(option_defs(), arg_views(args@), 1, Seq::empty());
                &&& res matches Err(name) ==> (r matches Err(e) && e.spec_message() == "Unknown argument '"@
                    + name + "'"@)
                &&& res matches Ok(m) ==> match ArgsParser::lookup(m, "-p"@) {
                    Some(p) if parse_unsigned(encode_utf8(p), 65535) is None => (r matches Err(e)
                        && e.spec_message() == "Port is not valid integer"@),
                    _ => (r matches Ok(s) && opt_chars(s.file) == ArgsParser::lookup(m, "-f"@)
                        && opt_chars(s.dir) == ArgsParser::lookup(m, "-d"@) && s.port == match ArgsParser::lookup(
                        m,
                        "-p"@,
                    ) {
                        Some(p) => Some(parse_unsigned(encode_utf8(p), 65535)->0 as u16),
                        None => None,
                    }),
                }
            }),
    {
        let mut parser = ArgsParser::new();
        parser.add(ArgKind::Value("-f".to_owned()));
        parser.add(ArgKind::Value("-p".to_owned()));
        parser.add(ArgKind::Value("-d".to_owned()));
        assert(defs_view(parser.spec_defs()) =~= option_defs());
        let stored = match parser.parse(args) {
            Ok(s) => s,
            Err(e) => {
                return Err(e);
            },
        };
        let file = stored_value(&stored, "-f");
        let dir = stored_value(&stored, "-d");
        let port = match stored_value(&stored, "-p") {
            Some(p) => match parse_decimal(p.as_str().as_bytes(), 65535) {
                Some(v) => Some(v as u16),
                None => {
                    return Err(ConfError::new("Port is not valid integer"));
                },
            },
            None => None,
        };
        Ok(ArgSettings { file, port, dir })
    }
}

pub open spec fn option_defs() -> Seq<DefView> {
    seq![(1u8, "-f"@), (1u8, "-p"@), (1u8, "-d"@)]
}

pub open spec fn opt_chars(o: Option<String>) -> Option<Seq<char>> {
    match o {
        Some(s) => Some(s@),
        None => None,
    }
}

fn stored_value(stored: &Vec<(String, String)>, key: &str) -> (r: Option<String>)
    ensures
        opt_chars(r) == ArgsParser::lookup(store_view(stored@), key@),
{
    let k = key.to_owned();
    match crate::args::store_position(stored, &k) {
        Some(i) => Some(stored[i].1.clone()),
        None => None,
    }
}

/// What the command line asks for.
#[derive(Debug)]
pub struct ArgSettings {
    /// Configuration file to read.
    pub file: Option<String>,
    pub port: Option<u16>,
    /// Document root.
    pub dir: Option<String>,
}

} // verus!
