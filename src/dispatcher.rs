//! Round-robin choice among the upstream origins of a host.
use vstd::prelude::*;
use vstd::arithmetic::div_mod::{lemma_fundamental_div_mod_converse_mod, lemma_mod_self_0};
use crate::conf::{Conf, Endpoint};

verus! {

pub struct Dispatcher {
    endpoints: Vec<Endpoint>,
    index: usize,
}

/// Upstreams picked by `count` calls when the rotation starts at `start`.
pub open spec fn picks(n: nat, start: nat, count: nat) -> Seq<nat> {
    Seq::new(count, |i: int| ((start + i) % (n as int)) as nat)
}

/// How often `j` occurs in `s`.
pub open spec fn count_of(s: Seq<nat>, j: nat) -> nat
    decreases s.len(),
{
    if s.len() == 0 {
        0
    } else {
        count_of(s.drop_last(), j) + if s.last() == j {
            1nat
        } else {
            0nat
        }
    }
}

impl Dispatcher {
    pub closed spec fn spec_endpoints(&self) -> Seq<Endpoint> {
        self.endpoints@
    }

    /// Index of the upstream that the next call picks.
    pub closed spec fn spec_index(&self) -> nat {
        self.index as nat
    }

    pub closed spec fn wf(&self) -> bool {
        self.endpoints@.len() == 0 || self.index < self.endpoints@.len()
    }

    pub fn new(conf: &Conf) -> (r: Dispatcher)
        ensures
            r.wf(),
            r.spec_endpoints() == conf.load_balancing_servers@,
            r.spec_index() == 0,
    {
        let mut endpoints: Vec<Endpoint> = Vec::new();
        let mut i: usize = 0;
        while i < conf.load_balancing_servers.len()
            invariant
                i <= conf.load_balancing_servers@.len(),
                endpoints@ == conf.load_balancing_servers@.subrange(0, i as int),
            decreases conf.load_balancing_servers@.len() - i,
        {
            endpoints.push(conf.load_balancing_servers[i]);
            assert(endpoints@ =~= conf.load_balancing_servers@.subrange(0, i + 1));
            i = i + 1;
        }
        assert(endpoints@ =~= conf.load_balancing_servers@);
        Dispatcher { endpoints, index: 0 }
    }

    /// Picks the next upstream and moves the rotation on by one, wrapping
    /// at the end. With no upstreams there is nothing to pick.
    pub fn get(&mut self) -> (r: Option<Endpoint>)
        requires
            old(self).wf(),
        ensures
            final(self).wf(),
            final(self).spec_endpoints() == old(self).spec_endpoints(),
            old(self).spec_endpoints().len() == 0 ==> r is None && final(self).spec_index()
                == old(self).spec_index(),
            old(self).spec_endpoints().len() > 0 ==> r == Some(
                old(self).spec_endpoints()[old(self).spec_index() as int],
            ) && final(self).spec_index() == (old(self).spec_index() + 1) % old(
                self,
            ).spec_endpoints().len(),
    {
        if self.endpoints.len() == 0 {
            return None;
        }
        let e = self.endpoints[self.index];
        let n = self.endpoints.len();
        proof {
            if self.index + 1 < n {
                vstd::arithmetic::div_mod::lemma_small_mod((self.index + 1) as nat, n as nat);
            } else {
                lemma_mod_self_0(n as int);
            }
        }
        self.index = if self.index + 1 >= n {
            0
        } else {
            self.index + 1
        };
        Some(e)
    }
}

/// Starting from index 0, the `t`-th call picks upstream `t mod n`: each
/// call moves the index from `t mod n` to `(t + 1) mod n`.
pub proof fn lemma_rotation_step(n: nat, t: nat)
    requires
        n > 0,
    ensures
        ((t % n) + 1) % n == (t + 1) % n,
{
    let q = t / n;
    let r = t % n;
    vstd::arithmetic::div_mod::lemma_fundamental_div_mod(t as int, n as int);
    assert(t == q * n + r) by (nonlinear_arith)
        requires
            t == n * q + r,
    ;
    if r + 1 < n {
        lemma_fundamental_div_mod_converse_mod((t + 1) as int, n as int, q as int, (r + 1) as int);
        vstd::arithmetic::div_mod::lemma_small_mod((r + 1) as nat, n);
    } else {
        assert(t + 1 == (q + 1) * n + 0) by (nonlinear_arith)
            requires
                t == q * n + r,
                r + 1 == n,
        ;
        lemma_fundamental_div_mod_converse_mod((t + 1) as int, n as int, (q + 1) as int, 0);
        lemma_mod_self_0(n as int);
    }
}

proof fn lemma_count_concat(a: Seq<nat>, b: Seq<nat>, j: nat)
    ensures
        count_of(a + b, j) == count_of(a, j) + count_of(b, j),
    decreases b.len(),
{
    if b.len() > 0 {
        assert((a + b).drop_last() =~= a + b.drop_last());
        lemma_count_concat(a, b.drop_last(), j);
    }
}

proof fn lemma_count_identity(m: nat, j: nat)
    ensures
        count_of(Seq::new(m, |i: int| i as nat), j) == if j < m {
            1nat
        } else {
            0nat
        },
    decreases m,
{
    if m > 0 {
        let s = Seq::new(m, |i: int| i as nat);
        assert(s.drop_last() =~= Seq::new((m - 1) as nat, |i: int| i as nat));
        lemma_count_identity((m - 1) as nat, j);
    }
}

/// Over `n * k` calls from a fresh rotation over `n` upstreams, each
/// upstream is picked exactly `k` times.
pub proof fn lemma_fair_rotation(n: nat, k: nat, j: nat)
    requires
        n > 0,
        j < n,
    ensures
        count_of(picks(n, 0, n * k), j) == k,
    decreases k,
{
    if k > 0 {
        let prev = picks(n, 0, n * ((k - 1) as nat));
        assert(prev.len() == n * ((k - 1) as nat));
        let round = Seq::new(n, |i: int| i as nat);
        let km = (k - 1) as nat;
        assert(n * k == n * km + n) by (nonlinear_arith)
            requires
                k > 0,
                km == k - 1,
        ;
        let all = picks(n, 0, n * k);
        assert forall|i: int| 0 <= i < all.len() implies #[trigger] all[i] == (prev + round)[i] by {
            if i >= n * (k - 1) {
                let r = i - n * (k - 1);
                assert(i == (k - 1) * n + r) by (nonlinear_arith)
                    requires
                        r == i - n * (k - 1),
                ;
                lemma_fundamental_div_mod_converse_mod(i, n as int, (k - 1) as int, r);
            }
        }
        assert(picks(n, 0, n * k) =~= prev + round);
        lemma_count_concat(prev, round, j);
        lemma_count_identity(n, j);
        lemma_fair_rotation(n, (k - 1) as nat, j);
        assert(count_of(all, j) == count_of(prev, j) + count_of(round, j));
    } else {
        assert(n * k == 0) by (nonlinear_arith)
            requires
                k == 0,
        ;
        assert(picks(n, 0, n * k) =~= Seq::<nat>::empty());
    }
}

} // verus!
