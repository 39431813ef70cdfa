//! Log lines: which levels pass, and how a line reads.
use vstd::prelude::*;
use crate::bytes::{append, lit, text};

verus! {

/// Relies on `chrono::Local::now` and its `format`: the local time as
/// `YYYY-MM-DD HH:MM:SS`. Nothing is promised about the value.
#[verifier::external_body]
fn timestamp() -> Vec<u8> {
    chrono::Local::now().format("%Y-%m-%d %H:%M:%S").to_string().into_bytes()
}

/// Relies on `chrono::Local::now` and its `format`: the local date as
/// `YYYY-MM-DD`. Nothing is promised about the value.
#[verifier::external_body]
fn today() -> Vec<u8> {
    chrono::Local::now().format("%Y-%m-%d").to_string().into_bytes()
}

/// `LEVEL| message| time`
pub open spec fn line_of(level: Seq<u8>, msg: Seq<u8>, stamp: Seq<u8>) -> Seq<u8> {
    level + text("| ") + msg + text("| ") + stamp
}

pub struct Logger {
    min: usize,
    enabled: bool,
    path: Option<Vec<u8>>,
}

impl Logger {
    pub closed spec fn spec_min(&self) -> usize {
        self.min
    }

    pub closed spec fn spec_enabled(&self) -> bool {
        self.enabled
    }

    pub closed spec fn spec_path(&self) -> Option<Seq<u8>> {
        crate::cache::opt_view(self.path)
    }

    /// A logger that writes every level, to standard output and, with a
    /// directory, to a file per day in it.
    pub fn new(path: Option<Vec<u8>>) -> (r: Logger)
        ensures
            r.spec_min() == 0,
            r.spec_enabled(),
            r.spec_path() == crate::cache::opt_view(path),
    {
        Logger { min: 0, enabled: true, path }
    }

    pub fn clone(&self) -> (r: Logger)
        ensures
            r.spec_min() == self.spec_min(),
            r.spec_enabled() == self.spec_enabled(),
            r.spec_path() == self.spec_path(),
    {
        let path = match &self.path {
            Some(p) => {
                let mut c: Vec<u8> = Vec::new();
                append(&mut c, p.as_slice());
                assert(c@ =~= p@);
                Some(c)
            },
            None => None,
        };
        Logger { min: self.min, enabled: self.enabled, path }
    }

    /// The log directory.
    pub fn path(&self) -> (r: Option<&Vec<u8>>)
        ensures
            r matches Some(p) ==> self.spec_path() == Some(p@),
            r is None ==> self.spec_path() is None,
    {
        match &self.path {
            Some(p) => Some(p),
            None => None,
        }
    }

    /// A log line.
    pub fn format_line(level: &[u8], msg: &[u8], stamp: &[u8]) -> (r: Vec<u8>)
        ensures
            r@ == line_of(level@, msg@, stamp@),
    {
        let mut out: Vec<u8> = Vec::new();
        append(&mut out, level);
        append(&mut out, lit("| ").as_slice());
        append(&mut out, msg);
        append(&mut out, lit("| ").as_slice());
        append(&mut out, stamp);
        assert(out@ =~= line_of(level@, msg@, stamp@));
        out
    }

    fn log(&self, level: &str, msg: &[u8]) -> (r: Option<Vec<u8>>)
        ensures
            !self.spec_enabled() ==> r is None,
            self.spec_enabled() ==> (r matches Some(l) && exists|t: Seq<u8>| l@ == line_of(text(level), msg@, t)),
    {
        if !self.enabled {
            return None;
        }
        let stamp = timestamp();
        Some(Logger::format_line(lit(level).as_slice(), msg, stamp.as_slice()))
    }

    /// The line to log at debug level, if that level passes.
    pub fn log_d(&self, msg: &[u8]) -> (r: Option<Vec<u8>>)
        ensures
            r is Some <==> self.spec_enabled() && self.spec_min() == 0,
            r matches Some(l) ==> exists|t: Seq<u8>| l@ == line_of(text("DEBUG"), msg@, t),
    {
        if self.min == 0 {
            self.log("DEBUG", msg)
        } else {
            None
        }
    }

    /// The line to log at info level, if that level passes.
    pub fn log_i(&self, msg: &[u8]) -> (r: Option<Vec<u8>>)
        ensures
            r is Some <==> self.spec_enabled() && self.spec_min() <= 1,
            r matches Some(l) ==> exists|t: Seq<u8>| l@ == line_of(text("INFO"), msg@, t),
    {
        if self.min <= 1 {
            self.log("INFO", msg)
        } else {
            None
        }
    }

    /// The line to log at error level, if that level passes.
    pub fn log_e(&self, msg: &[u8]) -> (r: Option<Vec<u8>>)
        ensures
            r is Some <==> self.spec_enabled() && self.spec_min() <= 2,
            r matches Some(l) ==> exists|t: Seq<u8>| l@ == line_of(text("ERROR"), msg@, t),
    {
        if self.min <= 2 {
            self.log("ERROR", msg)
        } else {
            None
        }
    }

    /// The file of today's log under the log directory, if there is one.
    pub fn log_file(&self) -> (r: Option<Vec<u8>>)
        ensures
            r is Some <==> self.spec_path() is Some,
            r matches Some(f) ==> exists|d: Seq<u8>| f@ == crate::cache::join(
                self.spec_path()->0,
                d + text(".log"),
            ),
    {
        match &self.path {
            Some(p) => {
                let mut name = today();
                append(&mut name, lit(".log").as_slice());
                let mut out: Vec<u8> = Vec::new();
                append(&mut out, p.as_slice());
                if p.len() > 0 && p[p.len() - 1] != 47 {
                    out.push(47u8);
                }
                append(&mut out, name.as_slice());
                Some(out)
            },
            None => None,
        }
    }
}

} // verus!
