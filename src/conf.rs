//! Host configuration, as the server core reads it.
use vstd::prelude::*;
use crate::bytes::{lit, text};

verus! {

/// An upstream origin: IPv4 address (its four octets, most significant
/// first, as one number) and port.
#[derive(Debug, Clone, Copy, PartialEq, Eq, Structural)]
pub struct Endpoint {
    pub ip: u32,
    pub port: u16,
}

/// Settings of one virtual host. Text settings are kept as bytes.
#[derive(Debug)]
pub struct Conf {
    pub dir: Vec<u8>,
    pub port: u16,
    pub domain: Vec<u8>,
    pub browsing_enabled: bool,
    pub workers: usize,
    pub timeout_secs: u64,
    pub php_enabled: bool,
    pub php_index: Option<Vec<u8>>,
    pub php_port: Option<u16>,
    pub php_socket: Option<Vec<u8>>,
    pub https_enabled: bool,
    pub https_pub_cert: Vec<u8>,
    pub https_private_key: Vec<u8>,
    pub logs_enabled: bool,
    pub logs_min_level: Vec<u8>,
    pub logs_dir: Option<Vec<u8>>,
    pub load_balancing_enabled: bool,
    pub load_balancing_servers: Vec<Endpoint>,
    pub cache_enabled: bool,
    pub cache_dir: Option<Vec<u8>>,
    pub cache_patterns: Vec<Vec<u8>>,
}

/// A configuration error: its message, and the line of the configuration
/// file it concerns, if any.
#[derive(Debug)]
pub struct ConfError {
    message: String,
    line: Option<usize>,
}

impl ConfError {
    pub closed spec fn spec_message(&self) -> Seq<char> {
        self.message@
    }

    pub closed spec fn spec_line(&self) -> Option<usize> {
        self.line
    }

    pub fn new(message: &str) -> (r: ConfError)
        ensures
            r.spec_message() == message@,
            r.spec_line() is None,
    {
        ConfError { message: message.to_owned(), line: None }
    }

    pub fn at_line(message: &str, line: usize) -> (r: ConfError)
        ensures
            r.spec_message() == message@,
            r.spec_line() == Some(line),
    {
        ConfError { message: message.to_owned(), line: Some(line) }
    }

    pub fn from_string(message: String) -> (r: ConfError)
        ensures
            r.spec_message() == message@,
            r.spec_line() is None,
    {
        ConfError { message, line: None }
    }

    pub fn line(&self) -> (r: Option<usize>)
        ensures
            r == self.spec_line(),
    {
        self.line
    }

    pub fn message(&self) -> (r: &str)
        ensures
            r@ == self.spec_message(),
    {
        self.message.as_str()
    }
}

/// Builds host configurations.
pub struct ConfBuilder {}

impl ConfBuilder {
    /// The settings of a host before any option or file is read: port 80,
    /// domain `localhost`, browsing and PHP on, 64 workers, 30 s timeout,
    /// logs on at `info`, no TLS, load balancing or cache.
    pub fn defaults(dir: Vec<u8>) -> (r: Conf)
        ensures
            r.dir@ == dir@,
            r.port == 80,
            r.domain@ == text("localhost"),
            r.browsing_enabled,
            r.workers == 64,
            r.timeout_secs == 30,
            r.php_enabled,
            r.php_index is None,
            r.php_port is None,
            r.php_socket is None,
            !r.https_enabled,
            r.https_pub_cert@.len() == 0,
            r.https_private_key@.len() == 0,
            r.logs_enabled,
            r.logs_min_level@ == text("info"),
            r.logs_dir is None,
            !r.load_balancing_enabled,
            r.load_balancing_servers@.len() == 0,
            !r.cache_enabled,
            r.cache_dir is None,
            r.cache_patterns@.len() == 0,
    {
        Conf {
            dir,
            port: 80,
            domain: lit("localhost"),
            browsing_enabled: true,
            workers: 64,
            timeout_secs: 30,
            php_enabled: true,
            php_index: None,
            php_port: None,
            php_socket: None,
            https_enabled: false,
            https_pub_cert: Vec::new(),
            https_private_key: Vec::new(),
            logs_enabled: true,
            logs_min_level: lit("info"),
            logs_dir: None,
            load_balancing_enabled: false,
            load_balancing_servers: Vec::new(),
            cache_enabled: false,
            cache_dir: None,
            cache_patterns: Vec::new(),
        }
    }
}

} // verus!
