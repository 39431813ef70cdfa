//! The response cache's rules: entry names, which paths qualify, the
//! control headers, and how an entry is published. The files themselves are
//! read and written by the caller.
use vstd::prelude::*;
use crate::bytes::{append, ends_with, eq_ignore_ascii_case, eq_ignore_case, lit, starts_with, starts_with_bytes, text};
use crate::conf::Conf;
use crate::headers::{pairs, HeaderPairs};

verus! {

/// Bytes that cannot stand in an entry name: `/ ? & | < > * " \ :`.
pub open spec fn reserved(c: u8) -> bool {
    c == 47 || c == 63 || c == 38 || c == 124 || c == 60 || c == 62 || c == 42 || c == 34 || c
        == 92 || c == 58
}

pub open spec fn strip_slash(k: Seq<u8>) -> Seq<u8> {
    if k.len() > 0 && k[0] == 47 {
        k.skip(1)
    } else {
        k
    }
}

/// The entry name of a key: one leading `/` dropped, every reserved byte
/// replaced by `_`.
pub open spec fn sanitize(k: Seq<u8>) -> Seq<u8> {
    strip_slash(k).map_values(|c: u8| if reserved(c) { 95u8 } else { c })
}

/// `name` under directory `dir`.
pub open spec fn join(dir: Seq<u8>, name: Seq<u8>) -> Seq<u8> {
    if dir.len() == 0 || dir.last() == 47 {
        dir + name
    } else {
        dir + seq![47u8] + name
    }
}

/// `.lock`
pub open spec fn lock_suffix() -> Seq<u8> {
    seq![46u8, 108u8, 111u8, 99u8, 107u8]
}

/// The sibling file an entry is built in before it is published.
pub open spec fn lock_path(entry: Seq<u8>) -> Seq<u8> {
    entry + lock_suffix()
}

/// Names ending in `.lock` are build files: never served, never admitted.
pub open spec fn servable(name: Seq<u8>) -> bool {
    !ends_with(name, lock_suffix())
}

pub open spec fn qualifies_spec(path: Seq<u8>, enabled: bool, patterns: Seq<Vec<u8>>) -> bool {
    enabled && exists|i: int| 0 <= i < patterns.len() && starts_with(path, #[trigger] patterns[i]@)
}

pub open spec fn entry_path(dir: Option<Vec<u8>>, key: Seq<u8>) -> Option<Seq<u8>> {
    match dir {
        Some(d) => Some(join(d@, sanitize(key))),
        None => None,
    }
}

pub open spec fn is_control(name: Seq<u8>) -> bool {
    eq_ignore_case(name, text("x-cache-request")) || eq_ignore_case(name, text("x-cache-delete"))
        || eq_ignore_case(name, text("x-cache-delete-like"))
}

/// The headers that are not cache control headers, in order.
pub open spec fn plain_headers(h: HeaderPairs) -> HeaderPairs
    decreases h.len(),
{
    if h.len() == 0 {
        Seq::empty()
    } else if is_control(h.last().0) {
        plain_headers(h.drop_last())
    } else {
        plain_headers(h.drop_last()).push(h.last())
    }
}

/// Taking out the control headers keeps header names unique.
pub proof fn lemma_plain_unique(h: HeaderPairs)
    requires
        crate::headers::unique_names(h),
    ensures
        crate::headers::unique_names(plain_headers(h)),
        forall|i: int|
            0 <= i < plain_headers(h).len() ==> exists|j: int|
                0 <= j < h.len() && #[trigger] plain_headers(h)[i] == h[j],
    decreases h.len(),
{
    if h.len() > 0 {
        let t = h.drop_last();
        assert(crate::headers::unique_names(t));
        lemma_plain_unique(t);
        let p = plain_headers(h);
        let q = plain_headers(t);
        if !is_control(h.last().0) {
            assert forall|i: int| 0 <= i < q.len() implies #[trigger] q[i].0 != h.last().0 by {
                let j = choose|j: int| 0 <= j < t.len() && q[i] == t[j];
                assert(h[j] == t[j]);
            }
            assert forall|i: int| 0 <= i < p.len() implies exists|j: int|
                0 <= j < h.len() && #[trigger] p[i] == h[j] by {
                if i < q.len() {
                    let j = choose|j: int| 0 <= j < t.len() && q[i] == t[j];
                    assert(p[i] == h[j]);
                } else {
                    assert(p[i] == h[h.len() - 1]);
                }
            }
        } else {
            assert forall|i: int| 0 <= i < p.len() implies exists|j: int|
                0 <= j < h.len() && #[trigger] p[i] == h[j] by {
                let j = choose|j: int| 0 <= j < t.len() && q[i] == t[j];
                assert(p[i] == h[j]);
            }
        }
    }
}

/// Value of the last header named `name` in any case.
pub open spec fn last_value(h: HeaderPairs, name: Seq<u8>) -> Option<Seq<u8>>
    decreases h.len(),
{
    if h.len() == 0 {
        None
    } else if eq_ignore_case(h.last().0, name) {
        Some(h.last().1)
    } else {
        last_value(h.drop_last(), name)
    }
}

pub open spec fn views(v: Seq<Vec<u8>>) -> Seq<Seq<u8>> {
    v.map_values(|x: Vec<u8>| x@)
}

/// The paths, under `dir`, of the names that start with `prefix`.
pub open spec fn like_paths(dir: Seq<u8>, names: Seq<Seq<u8>>, prefix: Seq<u8>) -> Seq<Seq<u8>>
    decreases names.len(),
{
    if names.len() == 0 {
        Seq::empty()
    } else if starts_with(names.last(), prefix) {
        like_paths(dir, names.drop_last(), prefix).push(join(dir, names.last()))
    } else {
        like_paths(dir, names.drop_last(), prefix)
    }
}

pub open spec fn opt_view(o: Option<Vec<u8>>) -> Option<Seq<u8>> {
    match o {
        Some(v) => Some(v@),
        None => None,
    }
}

/// What the control headers of a response ask for.
#[derive(Debug)]
pub struct CacheControl {
    /// Path of the entry to store the response in, from `X-Cache-Request`.
    pub store: Option<Vec<u8>>,
    /// Key to delete, from `X-Cache-Delete`.
    pub delete: Option<Vec<u8>>,
    /// Key prefix to delete, from `X-Cache-Delete-Like`.
    pub delete_like: Option<Vec<u8>>,
}

/// What the control headers among `h` ask for, with the cache on: the
/// last value of each control header; a store only for an admissible key
/// and with a cache directory.
pub open spec fn asks(c: CacheControl, h: HeaderPairs, conf: &Conf) -> bool {
    &&& opt_view(c.delete) == last_value(h, text("x-cache-delete"))
    &&& opt_view(c.delete_like) == last_value(h, text("x-cache-delete-like"))
    &&& opt_view(c.store) == match last_value(h, text("x-cache-request")) {
        Some(k) => if servable(sanitize(k)) {
            entry_path(conf.cache_dir, k)
        } else {
            None
        },
        None => None,
    }
}

/// What publishing an entry takes.
#[derive(Debug)]
pub enum WritePlan {
    /// The entry exists: the first writer won, nothing is written.
    Skip,
    /// Create `lock` exclusively, write the bytes into it under an
    /// exclusive lock, then rename it to `target`; on failure remove `lock`.
    Publish { lock: Vec<u8>, target: Vec<u8> },
}

pub struct Cache;

fn is_reserved(c: u8) -> (r: bool)
    ensures
        r == reserved(c),
{
    c == 47 || c == 63 || c == 38 || c == 124 || c == 60 || c == 62 || c == 42 || c == 34 || c
        == 92 || c == 58
}

fn join_exec(dir: &[u8], name: &[u8]) -> (r: Vec<u8>)
    ensures
        r@ == join(dir@, name@),
{
    let mut out: Vec<u8> = Vec::new();
    append(&mut out, dir);
    if dir.len() > 0 && dir[dir.len() - 1] != 47 {
        out.push(47u8);
    }
    append(&mut out, name);
    assert(out@ =~= join(dir@, name@));
    out
}

fn last_control(headers: &Vec<(Vec<u8>, Vec<u8>)>, name: &[u8]) -> (r: Option<Vec<u8>>)
    ensures
        opt_view(r) == last_value(pairs(headers@), name@),
{
    let ghost h = pairs(headers@);
    let mut found: Option<Vec<u8>> = None;
    let mut i: usize = 0;
    while i < headers.len()
        invariant
            i <= headers@.len(),
            h == pairs(headers@),
            opt_view(found) == last_value(h.subrange(0, i as int), name@),
        decreases headers@.len() - i,
    {
        proof {
            assert(h.subrange(0, i + 1).drop_last() =~= h.subrange(0, i as int));
        }
        if eq_ignore_ascii_case(headers[i].0.as_slice(), name) {
            let mut v: Vec<u8> = Vec::new();
            append(&mut v, headers[i].1.as_slice());
            assert(v@ =~= h[i as int].1);
            found = Some(v);
        }
        i = i + 1;
    }
    assert(h.subrange(0, headers@.len() as int) =~= h);
    found
}

impl Cache {
    /// The entry name of a key.
    pub fn key_to_filename(key: &[u8]) -> (r: Vec<u8>)
        ensures
            r@ == sanitize(key@),
    {
        let start: usize = if key.len() > 0 && key[0] == 47 { 1 } else { 0 };
        let ghost k = strip_slash(key@);
        assert(k =~= key@.subrange(start as int, key@.len() as int));
        let mut out: Vec<u8> = Vec::new();
        let mut i: usize = start;
        while i < key.len()
            invariant
                start <= i <= key@.len(),
                k == key@.subrange(start as int, key@.len() as int),
                out@ == k.subrange(0, i - start).map_values(
                    |c: u8| if reserved(c) { 95u8 } else { c },
                ),
            decreases key@.len() - i,
        {
            let c = key[i];
            out.push(if is_reserved(c) { 95u8 } else { c });
            assert(out@ =~= k.subrange(0, i + 1 - start).map_values(
                |c: u8| if reserved(c) { 95u8 } else { c },
            ));
            i = i + 1;
        }
        assert(k.subrange(0, key@.len() - start) =~= k);
        out
    }

    /// Whether a request path may be served from or stored in the cache:
    /// the cache is on and the path starts with one of the patterns.
    pub fn qualifies(path: &[u8], conf: &Conf) -> (r: bool)
        ensures
            r == qualifies_spec(path@, conf.cache_enabled, conf.cache_patterns@),
    {
        if !conf.cache_enabled {
            return false;
        }
        let mut i: usize = 0;
        while i < conf.cache_patterns.len()
            invariant
                conf.cache_enabled,
                i <= conf.cache_patterns@.len(),
                forall|j: int| 0 <= j < i ==> !starts_with(path@, #[trigger] conf.cache_patterns@[j]@),
            decreases conf.cache_patterns@.len() - i,
        {
            if starts_with_bytes(path, conf.cache_patterns[i].as_slice()) {
                assert(starts_with(path@, conf.cache_patterns@[i as int]@));
                return true;
            }
            i = i + 1;
        }
        false
    }

    /// Path of the entry for a key, when a cache directory is set.
    pub fn file_path(conf: &Conf, key: &[u8]) -> (r: Option<Vec<u8>>)
        ensures
            opt_view(r) == entry_path(conf.cache_dir, key@),
    {
        match &conf.cache_dir {
            Some(dir) => {
                let name = Cache::key_to_filename(key);
                Some(join_exec(dir.as_slice(), name.as_slice()))
            },
            None => None,
        }
    }

    /// Removes the control headers and reports what they ask for. With the
    /// cache off the headers are left alone and nothing is asked. A key
    /// whose entry name ends in `.lock` is not admitted.
    pub fn process_headers(headers: &mut Vec<(Vec<u8>, Vec<u8>)>, conf: &Conf) -> (r: CacheControl)
        ensures
            !conf.cache_enabled ==> *final(headers) == *old(headers) && r.store is None
                && r.delete is None && r.delete_like is None,
            conf.cache_enabled ==> pairs(final(headers)@) == plain_headers(pairs(old(headers)@))
                && asks(r, pairs(old(headers)@), conf),
    {
        if !conf.cache_enabled {
            return CacheControl { store: None, delete: None, delete_like: None };
        }
        let request = last_control(headers, lit("x-cache-request").as_slice());
        let delete = last_control(headers, lit("x-cache-delete").as_slice());
        let delete_like = last_control(headers, lit("x-cache-delete-like").as_slice());
        let ghost h = pairs(headers@);
        let mut kept: Vec<(Vec<u8>, Vec<u8>)> = Vec::new();
        let mut i: usize = 0;
        while i < headers.len()
            invariant
                i <= headers@.len(),
                h == pairs(headers@),
                pairs(kept@) == plain_headers(h.subrange(0, i as int)),
            decreases headers@.len() - i,
        {
            proof {
                assert(h.subrange(0, i + 1).drop_last() =~= h.subrange(0, i as int));
            }
            let name = headers[i].0.as_slice();
            let control = eq_ignore_ascii_case(name, lit("x-cache-request").as_slice())
                || eq_ignore_ascii_case(name, lit("x-cache-delete").as_slice())
                || eq_ignore_ascii_case(name, lit("x-cache-delete-like").as_slice());
            if !control {
                let mut k: Vec<u8> = Vec::new();
                append(&mut k, name);
                let mut v: Vec<u8> = Vec::new();
                append(&mut v, headers[i].1.as_slice());
                let ghost before = pairs(kept@);
                assert(k@ =~= h[i as int].0);
                assert(v@ =~= h[i as int].1);
                kept.push((k, v));
                assert(pairs(kept@) =~= before.push(h[i as int]));
            }
            i = i + 1;
        }
        assert(h.subrange(0, headers@.len() as int) =~= h);
        *headers = kept;
        let store = match request {
            Some(k) => {
                let name = Cache::key_to_filename(k.as_slice());
                if Cache::servable_name(name.as_slice()) {
                    Cache::file_path(conf, k.as_slice())
                } else {
                    None
                }
            },
            None => None,
        };
        CacheControl { store, delete, delete_like }
    }

    /// Whether an entry name may be served or admitted.
    pub fn servable_name(name: &[u8]) -> (r: bool)
        ensures
            r == servable(name@),
    {
        let suffix = vec![46u8, 108u8, 111u8, 99u8, 107u8];
        assert(suffix@ =~= lock_suffix());
        if name.len() < suffix.len() {
            return true;
        }
        !crate::bytes::matches_at(name, suffix.as_slice(), name.len() - suffix.len())
    }

    /// The entry to send for a request, if any: the path qualifies, a cache
    /// directory is set, and the key names no build file. Whether the file
    /// exists is for the caller to find out.
    pub fn try_serve_cached(path: &[u8], key: &[u8], conf: &Conf) -> (r: Option<Vec<u8>>)
        ensures
            opt_view(r) == (if qualifies_spec(path@, conf.cache_enabled, conf.cache_patterns@)
                && servable(sanitize(key@)) {
                entry_path(conf.cache_dir, key@)
            } else {
                None
            }),
    {
        if !Cache::qualifies(path, conf) {
            return None;
        }
        let name = Cache::key_to_filename(key);
        if !Cache::servable_name(name.as_slice()) {
            return None;
        }
        Cache::file_path(conf, key)
    }

    /// Path of the entry that `X-Cache-Delete: <key>` removes.
    pub fn delete(conf: &Conf, key: &[u8]) -> (r: Option<Vec<u8>>)
        ensures
            opt_view(r) == (if conf.cache_enabled {
                entry_path(conf.cache_dir, key@)
            } else {
                None
            }),
    {
        if !conf.cache_enabled {
            return None;
        }
        Cache::file_path(conf, key)
    }

    /// Paths of the entries, among the names found in the cache directory,
    /// that `X-Cache-Delete-Like: <like>` removes: those whose name starts
    /// with the entry name of `like`.
    pub fn delete_like(conf: &Conf, like: &[u8], names: &Vec<Vec<u8>>) -> (r: Vec<Vec<u8>>)
        ensures
            !conf.cache_enabled || conf.cache_dir is None ==> r@.len() == 0,
            conf.cache_enabled && conf.cache_dir is Some ==> views(r@) == like_paths(
                conf.cache_dir->0@,
                views(names@),
                sanitize(like@),
            ),
    {
        let mut out: Vec<Vec<u8>> = Vec::new();
        if !conf.cache_enabled {
            return out;
        }
        let dir = match &conf.cache_dir {
            Some(d) => d,
            None => {
                return out;
            },
        };
        let prefix = Cache::key_to_filename(like);
        let ghost nv = views(names@);
        let mut j: usize = 0;
        while j < names.len()
            invariant
                j <= names@.len(),
                nv == views(names@),
                views(out@) == like_paths(dir@, nv.subrange(0, j as int), prefix@),
            decreases names@.len() - j,
        {
            proof {
                assert(nv.subrange(0, j + 1).drop_last() =~= nv.subrange(0, j as int));
            }
            if starts_with_bytes(names[j].as_slice(), prefix.as_slice()) {
                let p = join_exec(dir.as_slice(), names[j].as_slice());
                let ghost before = views(out@);
                out.push(p);
                assert(views(out@) =~= before.push(join(dir@, nv[j as int])));
            }
            j = j + 1;
        }
        assert(nv.subrange(0, names@.len() as int) =~= nv);
        out
    }

    /// How to publish `buf` at `entry`: nothing when the entry already
    /// exists, whatever the bytes (the first writer wins), else through its
    /// lock file, so that the entry appears only complete.
    pub fn write(buf: &[u8], entry: &[u8], entry_exists: bool) -> (r: WritePlan)
        ensures
            entry_exists ==> r is Skip,
            !entry_exists ==> (r matches WritePlan::Publish { lock, target } && lock@ == lock_path(
                entry@,
            ) && target@ == entry@),
    {
        if entry_exists {
            return WritePlan::Skip;
        }
        let mut lock: Vec<u8> = Vec::new();
        append(&mut lock, entry);
        let suffix = vec![46u8, 108u8, 111u8, 99u8, 107u8];
        assert(suffix@ =~= lock_suffix());
        append(&mut lock, suffix.as_slice());
        let mut target: Vec<u8> = Vec::new();
        append(&mut target, entry);
        assert(target@ =~= entry@);
        WritePlan::Publish { lock, target }
    }
}

/// A served entry is never a build file: no name that a lookup can produce
/// is the lock file of any entry, so a partly written entry is never read.
pub proof fn lemma_lookup_never_lock(key: Seq<u8>, entry_name: Seq<u8>)
    requires
        servable(sanitize(key)),
    ensures
        sanitize(key) != lock_path(entry_name),
{
    let l = lock_path(entry_name);
    assert(l.subrange(l.len() - 5, l.len() as int) =~= lock_suffix());
    assert(ends_with(l, lock_suffix()));
}

/// Keeps the bytes of a response as it is written, when an entry was asked
/// for, so that the entry holds exactly what the client received.
pub struct CacheTee {
    entry: Option<Vec<u8>>,
    kept: Vec<u8>,
    sent: Ghost<Seq<u8>>,
}

impl CacheTee {
    /// Everything written so far.
    pub closed spec fn sent(&self) -> Seq<u8> {
        self.sent@
    }

    pub closed spec fn entry(&self) -> Option<Seq<u8>> {
        opt_view(self.entry)
    }

    pub closed spec fn wf(&self) -> bool {
        self.entry is Some ==> self.kept@ == self.sent@
    }

    pub fn new(entry: Option<Vec<u8>>) -> (r: CacheTee)
        ensures
            r.wf(),
            r.entry() == opt_view(entry),
            r.sent() == Seq::<u8>::empty(),
    {
        CacheTee { entry, kept: Vec::new(), sent: Ghost(Seq::empty()) }
    }

    /// Notes bytes written to the client.
    pub fn record(&mut self, bytes: &[u8])
        requires
            old(self).wf(),
        ensures
            final(self).wf(),
            final(self).entry() == old(self).entry(),
            final(self).sent() == old(self).sent() + bytes@,
    {
        if self.entry.is_some() {
            append(&mut self.kept, bytes);
        }
        self.sent = Ghost(self.sent@ + bytes@);
    }

    /// The entry and the bytes to store in it: all that was written.
    pub fn finish(self) -> (r: Option<(Vec<u8>, Vec<u8>)>)
        requires
            self.wf(),
        ensures
            r is Some <==> self.entry() is Some,
            r matches Some((e, b)) ==> self.entry() == Some(e@) && b@ == self.sent(),
    {
        match self.entry {
            Some(e) => Some((e, self.kept)),
            None => None,
        }
    }
}

} // verus!
