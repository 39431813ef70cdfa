//! Where the FastCGI responder of a host is reached.
use vstd::prelude::*;
use crate::bytes::append;
use crate::conf::Conf;
use crate::fcgi::FcgiClient;

verus! {

/// Port of the responder that the server starts itself.
pub const FCGI_PORT: u16 = 7077;

/// Port of a responder that may already be running (PHP-FPM's default).
pub const FPM_PORT: u16 = 9000;

/// Relies on `port_check::is_local_port_free`: whether the port could be
/// bound on the loopback address at the moment of the call. Nothing is
/// promised about the answer.
#[verifier::external_body]
fn local_port_free(port: u16) -> bool {
    port_check::is_local_port_free(port)
}

/// The responder port: none when PHP is off or a socket is set; else the
/// configured port; else 9000 when something already listens there, and
/// the server's own 7077 otherwise.
pub open spec fn php_port(conf: &Conf, fpm_port_free: bool) -> Option<u16> {
    if conf.php_enabled && conf.php_socket is None {
        match conf.php_port {
            Some(p) => Some(p),
            None => if fpm_port_free {
                Some(FCGI_PORT)
            } else {
                Some(FPM_PORT)
            },
        }
    } else {
        None
    }
}

pub struct Php {
    enabled: bool,
    port: Option<u16>,
    sock: Option<Vec<u8>>,
    server_name: Vec<u8>,
    server_port: u16,
}

fn copy_opt(o: &Option<Vec<u8>>) -> (r: Option<Vec<u8>>)
    ensures
        crate::cache::opt_view(r) == crate::cache::opt_view(*o),
{
    match o {
        Some(v) => {
            let mut c: Vec<u8> = Vec::new();
            append(&mut c, v.as_slice());
            assert(c@ =~= v@);
            Some(c)
        },
        None => None,
    }
}

impl Php {
    pub closed spec fn spec_enabled(&self) -> bool {
        self.enabled
    }

    pub closed spec fn spec_port(&self) -> Option<u16> {
        self.port
    }

    pub closed spec fn spec_server_name(&self) -> Seq<u8> {
        self.server_name@
    }

    pub closed spec fn spec_server_port(&self) -> u16 {
        self.server_port
    }

    pub fn server_name(&self) -> (r: &[u8])
        ensures
            r@ == self.spec_server_name(),
    {
        self.server_name.as_slice()
    }

    pub fn server_port(&self) -> (r: u16)
        ensures
            r == self.spec_server_port(),
    {
        self.server_port
    }

    pub closed spec fn spec_sock(&self) -> Option<Seq<u8>> {
        crate::cache::opt_view(self.sock)
    }

    /// Settles the responder for a host, probing port 9000 when no port or
    /// socket is configured.
    pub fn new(conf: &Conf) -> (r: Php)
        ensures
            r.spec_port() == php_port(conf, true) || r.spec_port() == php_port(conf, false),
            r.spec_enabled() == conf.php_enabled,
            r.spec_sock() == crate::cache::opt_view(conf.php_socket),
            r.spec_server_name() == conf.domain@,
            r.spec_server_port() == conf.port,
    {
        let free = if conf.php_enabled && conf.php_socket.is_none() && conf.php_port.is_none() {
            local_port_free(FPM_PORT)
        } else {
            true
        };
        Php::with_probe(conf, free)
    }

    /// As `new`, with the answer of the probe of port 9000 given.
    pub fn with_probe(conf: &Conf, fpm_port_free: bool) -> (r: Php)
        ensures
            r.spec_port() == php_port(conf, fpm_port_free),
            r.spec_enabled() == conf.php_enabled,
            r.spec_sock() == crate::cache::opt_view(conf.php_socket),
            r.spec_server_name() == conf.domain@,
            r.spec_server_port() == conf.port,
    {
        let port = if conf.php_enabled && conf.php_socket.is_none() {
            match conf.php_port {
                Some(p) => Some(p),
                None => if fpm_port_free {
                    Some(FCGI_PORT)
                } else {
                    Some(FPM_PORT)
                },
            }
        } else {
            None
        };
        let mut server_name: Vec<u8> = Vec::new();
        append(&mut server_name, conf.domain.as_slice());
        assert(server_name@ =~= conf.domain@);
        Php { enabled: conf.php_enabled, port, sock: copy_opt(&conf.php_socket), server_name, server_port: conf.port }
    }

    /// A client for the responder, when PHP is on and a port or socket is
    /// known.
    pub fn get_client(&self) -> (r: Option<FcgiClient>)
        ensures
            r is Some <==> self.spec_enabled() && (self.spec_port() is Some || self.spec_sock() is Some),
            r matches Some(c) ==> c.spec_port() == self.spec_port() && c.spec_socket() == self.spec_sock()
                && c.spec_server_port() == self.spec_server_port() && c.spec_server_name() == self.spec_server_name(),
    {
        if self.enabled && (self.port.is_some() || self.sock.is_some()) {
            let mut name: Vec<u8> = Vec::new();
            append(&mut name, self.server_name.as_slice());
            assert(name@ =~= self.server_name@);
            return Some(FcgiClient::new(self.port, copy_opt(&self.sock), self.server_port, name));
        }
        None
    }
}

} // verus!
