//! Header maps: name/value pairs with unique names, in order of first
//! insertion; a later value for a name replaces the earlier one.
use vstd::prelude::*;
use crate::bytes::{bytes_eq, eq_ignore_ascii_case, eq_ignore_case};

verus! {

pub type HeaderPairs = Seq<(Seq<u8>, Seq<u8>)>;

/// The pairs of a header vector, as byte sequences.
pub open spec fn pairs(m: Seq<(Vec<u8>, Vec<u8>)>) -> HeaderPairs {
    m.map_values(|p: (Vec<u8>, Vec<u8>)| (p.0@, p.1@))
}

/// Index of the entry named exactly `k`, or -1.
pub open spec fn key_index_from(m: HeaderPairs, k: Seq<u8>, i: int) -> int
    decreases m.len() - i,
{
    if i < 0 || i >= m.len() {
        -1
    } else if m[i].0 == k {
        i
    } else {
        key_index_from(m, k, i + 1)
    }
}

pub open spec fn key_index(m: HeaderPairs, k: Seq<u8>) -> int {
    key_index_from(m, k, 0)
}

/// Index of the first entry whose name equals `k` ignoring ASCII case, or -1.
pub open spec fn ci_index_from(m: HeaderPairs, k: Seq<u8>, i: int) -> int
    decreases m.len() - i,
{
    if i < 0 || i >= m.len() {
        -1
    } else if eq_ignore_case(m[i].0, k) {
        i
    } else {
        ci_index_from(m, k, i + 1)
    }
}

pub open spec fn ci_index(m: HeaderPairs, k: Seq<u8>) -> int {
    ci_index_from(m, k, 0)
}

/// Map insertion: replace the value of an existing name, else append.
pub open spec fn put(m: HeaderPairs, k: Seq<u8>, v: Seq<u8>) -> HeaderPairs {
    let i = key_index(m, k);
    if i >= 0 {
        m.update(i, (k, v))
    } else {
        m.push((k, v))
    }
}

pub open spec fn unique_names(m: HeaderPairs) -> bool {
    forall|i: int, j: int| 0 <= i < j < m.len() ==> #[trigger] m[i].0 != #[trigger] m[j].0
}

pub fn key_position(m: &Vec<(Vec<u8>, Vec<u8>)>, k: &[u8], from: usize) -> (r: Option<usize>)
    requires
        from <= m@.len(),
    ensures
        r matches Some(i) ==> key_index_from(pairs(m@), k@, from as int) == i && i < m@.len(),
        r is None ==> key_index_from(pairs(m@), k@, from as int) == -1,
    decreases m@.len() - from,
{
    if from >= m.len() {
        None
    } else if bytes_eq(m[from].0.as_slice(), k) {
        Some(from)
    } else {
        key_position(m, k, from + 1)
    }
}

pub fn ci_position(m: &Vec<(Vec<u8>, Vec<u8>)>, k: &[u8], from: usize) -> (r: Option<usize>)
    requires
        from <= m@.len(),
    ensures
        r matches Some(i) ==> ci_index_from(pairs(m@), k@, from as int) == i && i < m@.len(),
        r is None ==> ci_index_from(pairs(m@), k@, from as int) == -1,
    decreases m@.len() - from,
{
    if from >= m.len() {
        None
    } else if eq_ignore_ascii_case(m[from].0.as_slice(), k) {
        Some(from)
    } else {
        ci_position(m, k, from + 1)
    }
}

/// Inserts `k: v`, replacing the value of an entry of the same name.
pub fn put_header(m: &mut Vec<(Vec<u8>, Vec<u8>)>, k: Vec<u8>, v: Vec<u8>)
    ensures
        pairs(final(m)@) == put(pairs(old(m)@), k@, v@),
{
    match key_position(m, k.as_slice(), 0) {
        Some(i) => {
            m.set(i, (k, v));
            assert(pairs(m@) =~= put(pairs(old(m)@), k@, v@));
        },
        None => {
            m.push((k, v));
            assert(pairs(m@) =~= put(pairs(old(m)@), k@, v@));
        },
    }
}

proof fn lemma_key_index_bounds(m: HeaderPairs, k: Seq<u8>, i: int)
    requires
        0 <= i,
    ensures
        key_index_from(m, k, i) == -1 || (i <= key_index_from(m, k, i) < m.len()
            && m[key_index_from(m, k, i)].0 == k),
        key_index_from(m, k, i) == -1 ==> forall|j: int| i <= j < m.len() ==> m[j].0 != k,
    decreases m.len() - i,
{
    if i < m.len() && m[i].0 != k {
        lemma_key_index_bounds(m, k, i + 1);
    }
}

/// Insertion keeps names unique.
pub proof fn lemma_put_unique(m: HeaderPairs, k: Seq<u8>, v: Seq<u8>)
    requires
        unique_names(m),
    ensures
        unique_names(put(m, k, v)),
{
    lemma_key_index_bounds(m, k, 0);
    let r = put(m, k, v);
    assert forall|i: int, j: int| 0 <= i < j < r.len() implies #[trigger] r[i].0 != #[trigger] r[j].0 by {
        if key_index(m, k) < 0 {
            if j == m.len() {
                assert(m[i].0 != k);
            }
        }
    }
}

/// A copy of a header vector.
pub fn copy_headers(m: &Vec<(Vec<u8>, Vec<u8>)>) -> (r: Vec<(Vec<u8>, Vec<u8>)>)
    ensures
        pairs(r@) == pairs(m@),
{
    let mut out: Vec<(Vec<u8>, Vec<u8>)> = Vec::new();
    let mut i: usize = 0;
    while i < m.len()
        invariant
            i <= m@.len(),
            pairs(out@) == pairs(m@).subrange(0, i as int),
        decreases m@.len() - i,
    {
        let mut k: Vec<u8> = Vec::new();
        crate::bytes::append(&mut k, m[i].0.as_slice());
        let mut v: Vec<u8> = Vec::new();
        crate::bytes::append(&mut v, m[i].1.as_slice());
        assert(k@ =~= m@[i as int].0@);
        assert(v@ =~= m@[i as int].1@);
        let ghost before = pairs(out@);
        let ghost kv = (k@, v@);
        out.push((k, v));
        assert(pairs(out@) =~= before.push(kv));
        assert(pairs(m@).subrange(0, i + 1) =~= pairs(m@).subrange(0, i as int).push(kv));
        i = i + 1;
    }
    assert(pairs(m@).subrange(0, m@.len() as int) =~= pairs(m@));
    out
}

} // verus!
