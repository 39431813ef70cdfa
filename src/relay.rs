//! Relaying an upstream response downstream: the head is held back until
//! complete, rewritten without the cache control headers, and everything
//! sent downstream is kept for the cache when an entry was asked for.
use vstd::prelude::*;
use crate::bytes::{append, contains, copy_range, find, has_at, lemma_seq_index_found, seq_index};
use crate::cache::{asks, CacheControl};
use crate::conf::Conf;
use crate::http_stream::terminator;
use crate::server::{downstream_head, kept_upstream_headers, rewrite_upstream_head};

verus! {

/// What is sent downstream for the bytes received so far: nothing until
/// the head is complete, then the rewritten head and every byte after it.
pub open spec fn relayed(received: Seq<u8>, cache_enabled: bool) -> Seq<u8> {
    if contains(received, terminator()) {
        let end = seq_index(received, terminator()) + 4;
        let head = received.subrange(0, end);
        downstream_head(head, kept_upstream_headers(head, cache_enabled)) + received.subrange(
            end,
            received.len() as int,
        )
    } else {
        Seq::empty()
    }
}

proof fn lemma_first_kept(a: Seq<u8>, b: Seq<u8>)
    requires
        contains(a, terminator()),
    ensures
        contains(a + b, terminator()),
        seq_index(a + b, terminator()) == seq_index(a, terminator()),
{
    let t = terminator();
    let i = choose|i: int| has_at(a, t, i);
    let ab = a + b;
    assert(ab.subrange(i, i + 4) =~= a.subrange(i, i + 4));
    assert(has_at(ab, t, i));
    lemma_first_in(a, t);
    let f = seq_index(a, t);
    assert(ab.subrange(f, f + 4) =~= a.subrange(f, f + 4));
    assert(t.len() == 4);
    assert forall|j: int| 0 <= j < f implies !has_at(ab, t, j) by {
        assert(!has_at(a, t, j));
        assert(j + 4 <= a.len());
        assert(ab.subrange(j, j + 4) =~= a.subrange(j, j + 4));
    }
    lemma_seq_index_found(ab, t, 0, f);
}

/// Where the first occurrence starts, when there is one.
proof fn lemma_first_in(a: Seq<u8>, t: Seq<u8>)
    requires
        contains(a, t),
    ensures
        0 <= seq_index(a, t),
        has_at(a, t, seq_index(a, t)),
        forall|j: int| 0 <= j < seq_index(a, t) ==> !has_at(a, t, j),
{
    let i = choose|i: int| has_at(a, t, i);
    lemma_first_from(a, t, 0, i);
}

proof fn lemma_first_from(a: Seq<u8>, t: Seq<u8>, k: int, i: int)
    requires
        0 <= k <= i,
        has_at(a, t, i),
    ensures
        k <= crate::bytes::seq_index_from(a, t, k) <= i,
        has_at(a, t, crate::bytes::seq_index_from(a, t, k)),
        forall|j: int| k <= j < crate::bytes::seq_index_from(a, t, k) ==> !has_at(a, t, j),
    decreases i - k,
{
    if !has_at(a, t, k) {
        lemma_first_from(a, t, k + 1, i);
    }
}

/// An upstream response on its way downstream.
pub struct UpstreamRelay {
    cache_enabled: bool,
    pending: Vec<u8>,
    head_done: bool,
    store: Option<Vec<u8>>,
    kept: Vec<u8>,
    received: Ghost<Seq<u8>>,
    sent: Ghost<Seq<u8>>,
}

impl UpstreamRelay {
    /// Bytes received from upstream so far.
    pub closed spec fn received(&self) -> Seq<u8> {
        self.received@
    }

    /// Bytes handed out for downstream so far.
    pub closed spec fn sent(&self) -> Seq<u8> {
        self.sent@
    }

    /// The entry the response is to be stored in, once the head said so.
    pub closed spec fn entry(&self) -> Option<Seq<u8>> {
        crate::cache::opt_view(self.store)
    }

    pub closed spec fn head_done(&self) -> bool {
        self.head_done
    }

    /// Whether the host's cache is on.
    pub closed spec fn cache_on(&self) -> bool {
        self.cache_enabled
    }

    pub closed spec fn wf(&self) -> bool {
        &&& self.head_done == contains(self.received@, terminator())
        &&& self.sent@ == relayed(self.received@, self.cache_enabled)
        &&& !self.head_done ==> self.pending@ == self.received@ && self.store is None
        &&& self.store is Some ==> self.kept@ == self.sent@
    }

    pub fn new(conf: &Conf) -> (r: UpstreamRelay)
        ensures
            r.wf(),
            r.cache_on() == conf.cache_enabled,
            r.received() == Seq::<u8>::empty(),
            r.sent() == Seq::<u8>::empty(),
            r.entry() is None,
    {
        let r = UpstreamRelay {
            cache_enabled: conf.cache_enabled,
            pending: Vec::new(),
            head_done: false,
            store: None,
            kept: Vec::new(),
            received: Ghost(Seq::empty()),
            sent: Ghost(Seq::empty()),
        };
        assert(!contains(Seq::<u8>::empty(), terminator()));
        r
    }

    /// Takes bytes from upstream; returns what to send downstream now, and,
    /// when these bytes complete the head, what its control headers ask.
    pub fn accept(&mut self, chunk: &[u8], conf: &Conf) -> (r: (Vec<u8>, Option<CacheControl>))
        requires
            old(self).wf(),
            old(self).cache_on() == conf.cache_enabled,
        ensures
            final(self).wf(),
            final(self).cache_on() == old(self).cache_on(),
            final(self).received() == old(self).received() + chunk@,
            final(self).sent() == old(self).sent() + r.0@,
            old(self).head_done() ==> r.1 is None && final(self).entry() == old(self).entry(),
            !old(self).head_done() && final(self).head_done() ==> ({
                let recv = final(self).received();
                let head = recv.subrange(0, seq_index(recv, terminator()) + 4);
                &&& r.1 matches Some(c)
                &&& conf.cache_enabled ==> asks(c, crate::server::upstream_headers(head), conf)
                &&& final(self).entry() == crate::cache::opt_view(c.store)
            }),
            !final(self).head_done() ==> r.1 is None && final(self).entry() is None,
    {
        let ghost recv = self.received@ + chunk@;
        if self.head_done {
            proof {
                lemma_first_kept(self.received@, chunk@);
                let f = seq_index(self.received@, terminator()) + 4;
                lemma_first_in(self.received@, terminator());
                assert(recv.subrange(0, f) =~= self.received@.subrange(0, f));
                assert(recv.subrange(f, recv.len() as int) =~= self.received@.subrange(
                    f,
                    self.received@.len() as int,
                ) + chunk@);
                assert(relayed(recv, conf.cache_enabled) =~= relayed(self.received@, conf.cache_enabled)
                    + chunk@);
            }
            if self.store.is_some() {
                append(&mut self.kept, chunk);
            }
            let mut out: Vec<u8> = Vec::new();
            append(&mut out, chunk);
            self.received = Ghost(recv);
            self.sent = Ghost(self.sent@ + out@);
            return (out, None);
        }
        append(&mut self.pending, chunk);
        let t = vec![13u8, 10u8, 13u8, 10u8];
        assert(t@ =~= terminator());
        let n = self.pending.len();
        match find(self.pending.as_slice(), t.as_slice()) {
            Some(i) => {
                assert(i + 4 <= n);
                let end = i + 4;
                let head = copy_range(self.pending.as_slice(), 0, end);
                let (mut out, control) = rewrite_upstream_head(head.as_slice(), conf);
                append(&mut out, copy_range(self.pending.as_slice(), end, n).as_slice());
                proof {
                    assert(contains(recv, terminator()));
                    assert(out@ =~= relayed(recv, conf.cache_enabled));
                }
                let store = match &control.store {
                    Some(e) => {
                        let mut c: Vec<u8> = Vec::new();
                        append(&mut c, e.as_slice());
                        assert(c@ =~= e@);
                        Some(c)
                    },
                    None => None,
                };
                if store.is_some() {
                    let mut k: Vec<u8> = Vec::new();
                    append(&mut k, out.as_slice());
                    self.kept = k;
                }
                self.store = store;
                self.head_done = true;
                self.pending = Vec::new();
                self.received = Ghost(recv);
                self.sent = Ghost(self.sent@ + out@);
                assert(self.sent@ =~= out@);
                (out, Some(control))
            },
            None => {
                self.received = Ghost(recv);
                let out: Vec<u8> = Vec::new();
                assert(self.sent@ + out@ =~= self.sent@);
                self.sent = Ghost(self.sent@ + out@);
                (out, None)
            },
        }
    }

    /// Upstream has ended: the bytes still to send (all of them when the
    /// head never completed), and the entry and bytes to store, which are
    /// exactly what was sent downstream.
    pub fn finish(self) -> (r: (Vec<u8>, Option<(Vec<u8>, Vec<u8>)>))
        requires
            self.wf(),
        ensures
            !self.head_done() ==> r.0@ == self.received() && r.1 is None,
            self.head_done() ==> r.0@.len() == 0,
            r.1 matches Some((e, b)) ==> self.entry() == Some(e@) && b@ == self.sent(),
            self.head_done() && self.entry() is Some ==> r.1 is Some,
    {
        if !self.head_done {
            return (self.pending, None);
        }
        match self.store {
            Some(e) => (Vec::new(), Some((e, self.kept))),
            None => (Vec::new(), None),
        }
    }
}

} // verus!
