//! Execution order of a logic graph: a topological order computed with Kahn's algorithm.
//!
//! The keys of the ordering are the node ids together with the ids that edges point
//! to. Every key whose incoming edges all come from keys already ordered is eventually
//! ordered; keys on a cycle, or fed by an edge from an unknown node, never are.

use vstd::prelude::*;
use crate::json::strs_view;
use crate::logic_graph::{LogicNode, LogicEdge, NodeV, EdgeV, nodes_view, edges_view, has_node};
use crate::text::str_equal;

verus! {

// ---------------------------------------------------------------------------
// Specification
// ---------------------------------------------------------------------------

/// `x` can be ordered: it is a node id, or the target of some edge.
pub open spec fn is_order_key(ns: Seq<NodeV>, es: Seq<EdgeV>, x: Seq<char>) -> bool {
    has_node(ns, x) || exists|j: int| 0 <= j < es.len() && (#[trigger] es[j]).to_node == x
}

/// Some edge among the first `j` of `es` points to `x`.
pub open spec fn targets_upto(es: Seq<EdgeV>, j: int, x: Seq<char>) -> bool {
    exists|q: int| 0 <= q < j && (#[trigger] es[q]).to_node == x
}

/// `o` is a valid execution order: distinct keys, each placed after the sources of all
/// the edges that point to it.
pub open spec fn valid_order(o: Seq<Seq<char>>, ns: Seq<NodeV>, es: Seq<EdgeV>) -> bool {
    &&& o.no_duplicates()
    &&& forall|i: int| 0 <= i < o.len() ==> is_order_key(ns, es, #[trigger] o[i])
    &&& forall|i: int, j: int|
        0 <= i < o.len() && 0 <= j < es.len() && (#[trigger] es[j]).to_node == #[trigger] o[i] ==> exists|k: int|
            0 <= k < i && o[k] == es[j].from_node
}

/// `o` contains every key of every valid order.
pub open spec fn maximal_order(o: Seq<Seq<char>>, ns: Seq<NodeV>, es: Seq<EdgeV>) -> bool {
    forall|s: Seq<Seq<char>>, i: int| valid_order(s, ns, es) && 0 <= i < s.len() ==> o.contains(#[trigger] s[i])
}

// ---------------------------------------------------------------------------
// Counting pending edges, in index space
// ---------------------------------------------------------------------------

/// Whether the source `o` of an edge is among `done`.
pub open spec fn in_done(o: Option<usize>, done: Seq<usize>) -> bool {
    match o {
        Some(i) => done.contains(i),
        None => false,
    }
}

/// The number of edges `j` in `lo .. hi` that point to `t` and whose source is not done.
pub open spec fn pending(f: Seq<Option<usize>>, t_: Seq<usize>, lo: int, hi: int, t: usize, done: Seq<usize>) -> nat
    decreases hi - lo,
{
    if hi <= lo {
        0
    } else {
        pending(f, t_, lo, hi - 1, t, done) + (if t_[hi - 1] == t && !in_done(f[hi - 1], done) { 1nat } else { 0nat })
    }
}

proof fn lemma_pending_low(f: Seq<Option<usize>>, t_: Seq<usize>, lo: int, hi: int, t: usize, done: Seq<usize>)
    requires
        lo < hi,
    ensures
        pending(f, t_, lo, hi, t, done) == (if t_[lo] == t && !in_done(f[lo], done) { 1nat } else { 0nat })
            + pending(f, t_, lo + 1, hi, t, done),
    decreases hi - lo,
{
    assert(pending(f, t_, lo, lo, t, done) == 0);
    assert(pending(f, t_, lo + 1, lo + 1, t, done) == 0);
    if lo + 1 < hi {
        lemma_pending_low(f, t_, lo, hi - 1, t, done);
    }
}

proof fn lemma_push_contains<T>(s: Seq<T>, x: T, y: T)
    ensures
        s.push(x).contains(y) <==> (s.contains(y) || y == x),
{
    if s.contains(y) {
        let i = choose|i: int| 0 <= i < s.len() && s[i] == y;
        assert(s.push(x)[i] == y);
    }
    if y == x {
        assert(s.push(x)[s.len() as int] == y);
    }
    if s.push(x).contains(y) {
        let i = choose|i: int| 0 <= i < s.push(x).len() && s.push(x)[i] == y;
        if i < s.len() {
            assert(s[i] == y);
        }
    }
}

proof fn lemma_pending_bound(f: Seq<Option<usize>>, t_: Seq<usize>, lo: int, hi: int, t: usize, done: Seq<usize>)
    requires
        lo <= hi,
    ensures
        pending(f, t_, lo, hi, t, done) <= hi - lo,
    decreases hi - lo,
{
    if lo < hi {
        lemma_pending_bound(f, t_, lo, hi - 1, t, done);
    }
}

proof fn lemma_pending_zero(f: Seq<Option<usize>>, t_: Seq<usize>, hi: int, t: usize, done: Seq<usize>)
    requires
        0 <= hi,
    ensures
        pending(f, t_, 0, hi, t, done) == 0 <==> forall|j: int| 0 <= j < hi && t_[j] == t ==> in_done(#[trigger] f[j], done),
    decreases hi,
{
    if hi > 0 {
        lemma_pending_zero(f, t_, hi - 1, t, done);
    }
}

/// A sequence of distinct numbers below `n` has at most `n` elements.
proof fn lemma_distinct_below(s: Seq<usize>, n: int)
    requires
        n >= 0,
        s.no_duplicates(),
        forall|i: int| 0 <= i < s.len() ==> s[i] < n,
    ensures
        s.len() <= n,
    decreases n,
{
    if n <= 0 {
        if s.len() > 0 {
            assert(s[0] < n);
            assert(false);
        }
    } else if exists|i: int| 0 <= i < s.len() && s[i] == n - 1 {
        let i = choose|i: int| 0 <= i < s.len() && s[i] == n - 1;
        assert(0 <= i < s.len());
        let r = s.remove(i);
        assert forall|a: int, b: int| 0 <= a < b < r.len() implies r[a] != r[b] by {
            let a1 = if a < i { a } else { a + 1 };
            let b1 = if b < i { b } else { b + 1 };
            assert(r[a] == s[a1] && r[b] == s[b1]);
        }
        assert forall|k: int| 0 <= k < r.len() implies r[k] < n - 1 by {
            let k1 = if k < i { k } else { k + 1 };
            assert(r[k] == s[k1]);
            assert(k1 != i);
        }
        lemma_distinct_below(r, n - 1);
    } else {
        assert forall|k: int| 0 <= k < s.len() implies s[k] < n - 1 by {
            assert(s[k] != n - 1);
        }
        lemma_distinct_below(s, n - 1);
    }
}

/// Every element of `order` comes after the sources of all edges pointing to it.
pub open spec fn preceded(f: Seq<Option<usize>>, t_: Seq<usize>, order: Seq<usize>) -> bool {
    forall|i: int, j: int|
        0 <= i < order.len() && 0 <= j < t_.len() && #[trigger] t_[j] == #[trigger] order[i] ==> exists|k: int|
            0 <= k < i && f[j] == Some(order[k])
}

// ---------------------------------------------------------------------------
// Kahn's algorithm on indices
// ---------------------------------------------------------------------------

/// Kahn's algorithm over keys `0 .. n`, with edge `j` from key `f[j]` (or from outside
/// the keys, `None`) to key `t_[j]`. Returns the keys it could order, in order.
fn kahn(n: usize, f: &Vec<Option<usize>>, t_: &Vec<usize>) -> (r: Vec<usize>)
    requires
        f.len() == t_.len(),
        forall|j: int| 0 <= j < t_.len() ==> t_@[j] < n,
        forall|j: int| 0 <= j < f.len() && f@[j] is Some ==> f@[j]->0 < n,
    ensures
        r@.no_duplicates(),
        forall|i: int| 0 <= i < r.len() ==> r@[i] < n,
        preceded(f@, t_@, r@),
        forall|t: usize| t < n && pending(f@, t_@, 0, t_@.len() as int, t, r@) == 0 ==> r@.contains(t),
{
    let m = t_.len();
    let ghost fv = f@;
    let ghost tv = t_@;
    let ghost empty = Seq::<usize>::empty();
    // In-degrees.
    let mut deg: Vec<usize> = Vec::new();
    let mut k: usize = 0;
    while k < n
        invariant
            k <= n,
            deg.len() == k,
            forall|t: int| 0 <= t < k ==> deg@[t] == 0,
        decreases n - k,
    {
        deg.push(0);
        k += 1;
    }
    let mut j: usize = 0;
    while j < m
        invariant
            fv == f@,
            tv == t_@,
            m == tv.len(),
            fv.len() == m,
            forall|q: int| 0 <= q < m ==> tv[q] < n,
            j <= m,
            deg.len() == n,
            empty == Seq::<usize>::empty(),
            forall|t: usize| t < n ==> deg@[t as int] == pending(fv, tv, 0, j as int, t, empty),
        decreases m - j,
    {
        let t = t_[j];
        proof {
            lemma_pending_bound(fv, tv, 0, j as int, t, empty);
            assert forall|x: usize| x < n implies pending(fv, tv, 0, j + 1, x, empty) == pending(fv, tv, 0, j as int, x, empty)
                + (if tv[j as int] == x { 1nat } else { 0nat }) by {
                assert(!in_done(fv[j as int], empty));
            }
        }
        let d = deg[t];
        deg.set(t, d + 1);
        j += 1;
    }
    // Keys without incoming edges.
    let mut queue: Vec<usize> = Vec::new();
    let mut t: usize = 0;
    while t < n
        invariant
            t <= n,
            deg.len() == n,
            queue@.no_duplicates(),
            forall|i: int| 0 <= i < queue.len() ==> queue@[i] < t,
            forall|i: int| 0 <= i < queue.len() ==> deg@[queue@[i] as int] == 0,
            forall|x: usize| x < t && deg@[x as int] == 0 ==> queue@.contains(x),
        decreases n - t,
    {
        let ghost q0 = queue@;
        if deg[t] == 0 {
            queue.push(t);
            proof {
                assert forall|a: int, b: int| 0 <= a < b < queue.len() implies queue@[a] != queue@[b] by {
                    if b == queue.len() - 1 {
                        assert(queue@[a] == q0[a]);
                    }
                }
            }
        }
        proof {
            assert forall|x: usize| x < t + 1 && deg@[x as int] == 0 implies queue@.contains(x) by {
                lemma_push_contains(q0, t, x);
            }
        }
        t += 1;
    }
    let mut result: Vec<usize> = Vec::new();
    while queue.len() > 0
        invariant
            fv == f@,
            tv == t_@,
            m == tv.len(),
            fv.len() == m,
            forall|q: int| 0 <= q < m ==> tv[q] < n,
            forall|q: int| 0 <= q < m && fv[q] is Some ==> fv[q]->0 < n,
            deg.len() == n,
            result@.no_duplicates(),
            queue@.no_duplicates(),
            forall|a: int, b: int| 0 <= a < result.len() && 0 <= b < queue.len() ==> result@[a] != queue@[b],
            forall|i: int| 0 <= i < result.len() ==> result@[i] < n,
            forall|i: int| 0 <= i < queue.len() ==> queue@[i] < n,
            forall|x: usize| x < n ==> deg@[x as int] == pending(fv, tv, 0, m as int, x, result@),
            forall|x: usize| x < n && deg@[x as int] == 0 ==> result@.contains(x) || queue@.contains(x),
            forall|i: int| 0 <= i < queue.len() ==> deg@[queue@[i] as int] == 0,
            forall|i: int| 0 <= i < result.len() ==> deg@[result@[i] as int] == 0,
            preceded(fv, tv, result@),
        decreases n - result.len(),
    {
        proof {
            lemma_distinct_below(result@, n as int);
        }
        let ghost before = result@;
        let ghost qb = queue@;
        let u = match queue.pop() {
            Some(u) => u,
            None => {
                proof {
                    assert(false);
                }
                0
            },
        };
        assert(u == qb[qb.len() - 1]);
        assert(queue@ == qb.subrange(0, qb.len() - 1));
        // Every edge into `u` comes from a key already ordered.
        proof {
            lemma_pending_zero(fv, tv, m as int, u, before);
        }
        result.push(u);
        proof {
            assert forall|a: int, b: int| 0 <= a < b < result.len() implies result@[a] != result@[b] by {
                if b == result.len() - 1 {
                    assert(result@[a] == before[a]);
                    assert(qb[qb.len() - 1] == u);
                }
            }
            assert forall|i: int, q: int|
                0 <= i < result.len() && 0 <= q < tv.len() && #[trigger] tv[q] == #[trigger] result@[i] implies exists|k: int|
                0 <= k < i && fv[q] == Some(result@[k]) by {
                if i < result.len() - 1 {
                    assert(result@[i] == before[i]);
                    let k = choose|k: int| 0 <= k < i && fv[q] == Some(before[k]);
                    assert(result@[k] == before[k]);
                } else {
                    assert(in_done(fv[q], before));
                    let x = fv[q]->0;
                    let k = choose|k: int| 0 <= k < before.len() && before[k] == x;
                    assert(result@[k] == before[k]);
                }
            }
        }
        let ghost done = result@;
        proof {
            lemma_push_contains(before, u, u);
            assert(done[before.len() as int] == u);
            assert(!before.contains(u)) by {
                if before.contains(u) {
                    let i = choose|i: int| 0 <= i < before.len() && before[i] == u;
                    assert(before[i] != qb[qb.len() - 1]);
                }
            }
            assert forall|x: usize| x < n && deg@[x as int] == 0 implies result@.contains(x) || queue@.contains(x) by {
                lemma_push_contains(before, u, x);
                if qb.contains(x) && x != u {
                    let i = choose|i: int| 0 <= i < qb.len() && qb[i] == x;
                    assert(i < qb.len() - 1);
                    assert(queue@[i] == x);
                }
            }
        }
        let mut j: usize = 0;
        while j < m
            invariant
                fv == f@,
                tv == t_@,
                m == tv.len(),
                fv.len() == m,
                forall|q: int| 0 <= q < m ==> tv[q] < n,
                forall|q: int| 0 <= q < m && fv[q] is Some ==> fv[q]->0 < n,
                deg.len() == n,
                done == result@,
                done == before.push(u),
                !before.contains(u),
                done.contains(u),
                u < n,
                j <= m,
                result@.no_duplicates(),
                queue@.no_duplicates(),
                forall|a: int, b: int| 0 <= a < result.len() && 0 <= b < queue.len() ==> result@[a] != queue@[b],
                forall|i: int| 0 <= i < result.len() ==> result@[i] < n,
                forall|i: int| 0 <= i < queue.len() ==> queue@[i] < n,
                forall|x: usize| x < n ==> deg@[x as int] == pending(fv, tv, 0, j as int, x, done) + pending(fv, tv, j as int, m as int, x, before),
                forall|x: usize| x < n && deg@[x as int] == 0 ==> result@.contains(x) || queue@.contains(x),
                forall|i: int| 0 <= i < queue.len() ==> deg@[queue@[i] as int] == 0,
                forall|i: int| 0 <= i < result.len() ==> deg@[result@[i] as int] == 0,
            decreases m - j,
        {
            proof {
                assert forall|x: usize| x < n implies pending(fv, tv, 0, j + 1, x, done) == pending(fv, tv, 0, j as int, x, done)
                    + (if tv[j as int] == x && !in_done(fv[j as int], done) { 1nat } else { 0nat }) by {}
                assert forall|x: usize| x < n implies pending(fv, tv, j as int, m as int, x, before) == (if tv[j as int] == x
                    && !in_done(fv[j as int], before) { 1nat } else { 0nat }) + pending(fv, tv, j + 1, m as int, x, before) by {
                    lemma_pending_low(fv, tv, j as int, m as int, x, before);
                }
            }
            match f[j] {
                Some(src) => {
                    if src == u {
                        let t = t_[j];
                        assert(in_done(fv[j as int], done));
                        assert(!in_done(fv[j as int], before));
                        let d = deg[t];
                        assert(d >= 1);
                        let ghost qv = queue@;
                        assert(!qv.contains(t)) by {
                            if qv.contains(t) {
                                let i = choose|i: int| 0 <= i < qv.len() && qv[i] == t;
                                assert(deg@[qv[i] as int] == 0);
                            }
                        }
                        assert(!result@.contains(t)) by {
                            if result@.contains(t) {
                                let i = choose|i: int| 0 <= i < result@.len() && result@[i] == t;
                                assert(deg@[result@[i] as int] == 0);
                            }
                        }
                        deg.set(t, d - 1);
                        if d - 1 == 0 {
                            queue.push(t);
                            proof {
                                assert forall|a: int, b: int| 0 <= a < b < queue.len() implies queue@[a] != queue@[b] by {
                                    if b == queue.len() - 1 {
                                        assert(queue@[a] == qv[a]);
                                    }
                                }
                            }
                        }
                        proof {
                            assert forall|x: usize| x < n && deg@[x as int] == 0 implies result@.contains(x) || queue@.contains(x) by {
                                lemma_push_contains(qv, t, x);
                            }
                        }
                    } else {
                        assert(in_done(fv[j as int], done) == in_done(fv[j as int], before)) by {
                            if done.contains(src) {
                                let i = choose|i: int| 0 <= i < done.len() && done[i] == src;
                                assert(i < before.len());
                                assert(before[i] == src);
                            }
                            if before.contains(src) {
                                let i = choose|i: int| 0 <= i < before.len() && before[i] == src;
                                assert(done[i] == src);
                            }
                        }
                    }
                },
                None => {},
            }
            j += 1;
        }
        proof {
            assert forall|x: usize| x < n implies pending(fv, tv, m as int, m as int, x, before) == 0 by {}
            lemma_distinct_below(result@, n as int);
        }
    }
    proof {
        assert forall|x: usize| x < n && pending(fv, tv, 0, m as int, x, result@) == 0 implies result@.contains(x) by {
            assert(deg@[x as int] == 0);
        }
    }
    result
}

// ---------------------------------------------------------------------------
// From indices back to ids
// ---------------------------------------------------------------------------

/// The index tables built from a graph: distinct keys `kv`, and for each edge the index
/// of its target and, when it is a key, of its source.
pub open spec fn tables_ok(
    kv: Seq<Seq<char>>,
    fv: Seq<Option<usize>>,
    tv: Seq<usize>,
    ns: Seq<NodeV>,
    es: Seq<EdgeV>,
) -> bool {
    &&& kv.no_duplicates()
    &&& kv.len() <= usize::MAX
    &&& forall|x: Seq<char>| kv.contains(x) <==> is_order_key(ns, es, x)
    &&& fv.len() == es.len()
    &&& tv.len() == es.len()
    &&& forall|j: int| 0 <= j < es.len() ==> tv[j] < kv.len() && kv[tv[j] as int] == (#[trigger] es[j]).to_node
    &&& forall|j: int|
        0 <= j < es.len() ==> match #[trigger] fv[j] {
            Some(x) => x < kv.len() && kv[x as int] == es[j].from_node,
            None => !kv.contains(es[j].from_node),
        }
}

/// What Kahn's algorithm guarantees of its result `rv` over `n` keys.
pub open spec fn kahn_result(n: nat, fv: Seq<Option<usize>>, tv: Seq<usize>, rv: Seq<usize>) -> bool {
    &&& rv.no_duplicates()
    &&& forall|i: int| 0 <= i < rv.len() ==> rv[i] < n
    &&& preceded(fv, tv, rv)
    &&& forall|t: usize| t < n && pending(fv, tv, 0, tv.len() as int, t, rv) == 0 ==> rv.contains(t)
}

/// The ids of the keys `rv`.
pub open spec fn ids_of(kv: Seq<Seq<char>>, rv: Seq<usize>) -> Seq<Seq<char>> {
    rv.map_values(|x: usize| kv[x as int])
}

proof fn lemma_key_index_unique(kv: Seq<Seq<char>>, a: int, b: int)
    requires
        kv.no_duplicates(),
        0 <= a < kv.len(),
        0 <= b < kv.len(),
        kv[a] == kv[b],
    ensures
        a == b,
{
}

proof fn lemma_ids_valid(kv: Seq<Seq<char>>, fv: Seq<Option<usize>>, tv: Seq<usize>, rv: Seq<usize>, ns: Seq<NodeV>, es: Seq<EdgeV>)
    requires
        tables_ok(kv, fv, tv, ns, es),
        kahn_result(kv.len(), fv, tv, rv),
    ensures
        valid_order(ids_of(kv, rv), ns, es),
{
    let o = ids_of(kv, rv);
    assert forall|a: int, b: int| 0 <= a < o.len() && 0 <= b < o.len() && a != b implies o[a] != o[b] by {
        if o[a] == o[b] {
            lemma_key_index_unique(kv, rv[a] as int, rv[b] as int);
        }
    }
    assert forall|i: int| 0 <= i < o.len() implies is_order_key(ns, es, #[trigger] o[i]) by {
        assert(kv.contains(kv[rv[i] as int]));
    }
    assert forall|i: int, j: int| 0 <= i < o.len() && 0 <= j < es.len() && (#[trigger] es[j]).to_node == #[trigger] o[i]
        implies exists|k: int| 0 <= k < i && o[k] == es[j].from_node by {
        lemma_key_index_unique(kv, tv[j] as int, rv[i] as int);
        assert(tv[j] == rv[i]);
        let k = choose|k: int| 0 <= k < i && fv[j] == Some(rv[k]);
        assert(o[k] == kv[rv[k] as int]);
    }
}

proof fn lemma_ids_maximal_at(
    kv: Seq<Seq<char>>,
    fv: Seq<Option<usize>>,
    tv: Seq<usize>,
    rv: Seq<usize>,
    ns: Seq<NodeV>,
    es: Seq<EdgeV>,
    s: Seq<Seq<char>>,
    i: int,
)
    requires
        tables_ok(kv, fv, tv, ns, es),
        kahn_result(kv.len(), fv, tv, rv),
        valid_order(s, ns, es),
        0 <= i < s.len(),
    ensures
        ids_of(kv, rv).contains(s[i]),
    decreases i,
{
    let o = ids_of(kv, rv);
    assert(is_order_key(ns, es, s[i]));
    assert(kv.contains(s[i]));
    let t = choose|t: int| 0 <= t < kv.len() && kv[t] == s[i];
    let tu = t as usize;
    assert(tu as int == t);
    assert forall|j: int| 0 <= j < tv.len() && tv[j] == tu implies in_done(#[trigger] fv[j], rv) by {
        assert(kv[tv[j] as int] == es[j].to_node);
        assert(es[j].to_node == s[i]);
        let k = choose|k: int| 0 <= k < i && s[k] == es[j].from_node;
        lemma_ids_maximal_at(kv, fv, tv, rv, ns, es, s, k);
        let p = choose|p: int| 0 <= p < o.len() && o[p] == s[k];
        assert(kv[rv[p] as int] == es[j].from_node);
        assert(kv.contains(es[j].from_node));
        match fv[j] {
            Some(x) => {
                lemma_key_index_unique(kv, x as int, rv[p] as int);
                assert(rv[p] == x);
            },
            None => {},
        }
    }
    lemma_pending_zero(fv, tv, tv.len() as int, tu, rv);
    assert(rv.contains(tu));
    let q = choose|q: int| 0 <= q < rv.len() && rv[q] == tu;
    assert(o[q] == kv[rv[q] as int]);
    assert(o[q] == s[i]);
}

proof fn lemma_ids_maximal(kv: Seq<Seq<char>>, fv: Seq<Option<usize>>, tv: Seq<usize>, rv: Seq<usize>, ns: Seq<NodeV>, es: Seq<EdgeV>)
    requires
        tables_ok(kv, fv, tv, ns, es),
        kahn_result(kv.len(), fv, tv, rv),
    ensures
        maximal_order(ids_of(kv, rv), ns, es),
{
    assert forall|s: Seq<Seq<char>>, i: int| valid_order(s, ns, es) && 0 <= i < s.len() implies ids_of(kv, rv).contains(#[trigger] s[i]) by {
        lemma_ids_maximal_at(kv, fv, tv, rv, ns, es, s, i);
    }
}

/// The model of an optional list of strings.
pub open spec fn opt_strs_view(r: Option<Vec<String>>) -> Option<Seq<Seq<char>>> {
    match r {
        Some(v) => Some(strs_view(v@)),
        None => None,
    }
}

/// Position of `x` among the keys `ks`.
fn key_index(ks: &Vec<String>, x: &str) -> (r: Option<usize>)
    ensures
        match r {
            Some(i) => i < ks.len() && ks@[i as int]@ == x@,
            None => !strs_view(ks@).contains(x@),
        },
{
    let mut i: usize = 0;
    while i < ks.len()
        invariant
            i <= ks.len(),
            forall|k: int| 0 <= k < i ==> ks@[k]@ != x@,
        decreases ks.len() - i,
    {
        if str_equal(ks[i].as_str(), x) {
            return Some(i);
        }
        i += 1;
    }
    proof {
        if strs_view(ks@).contains(x@) {
            let k = choose|k: int| 0 <= k < strs_view(ks@).len() && strs_view(ks@)[k] == x@;
            assert(ks@[k]@ == x@);
        }
    }
    None
}

/// An execution order for the nodes of a logic graph, by Kahn's algorithm.
///
/// The order holds every id that some valid order can hold (see `maximal_order`); it is
/// returned when it has as many entries as there are nodes, and otherwise `None`
/// reports a cycle.
pub fn topological_sort(nodes: &[LogicNode], edges: &[LogicEdge]) -> (r: Option<Vec<String>>)
    ensures
        sort_outcome(nodes_view(nodes@), edges_view(edges@), opt_strs_view(r)),
{
    let ghost ns = nodes_view(nodes@);
    let ghost es = edges_view(edges@);
    let mut ks: Vec<String> = Vec::new();
    let mut i: usize = 0;
    while i < nodes.len()
        invariant
            ns == nodes_view(nodes@),
            i <= nodes.len(),
            strs_view(ks@).no_duplicates(),
            forall|x: Seq<char>| strs_view(ks@).contains(x) <==> exists|k: int| 0 <= k < i && (#[trigger] ns[k]).node_id == x,
        decreases nodes.len() - i,
    {
        let ghost kv0 = strs_view(ks@);
        let id = &nodes[i].node_id;
        assert(id@ == ns[i as int].node_id);
        match key_index(&ks, id.as_str()) {
            None => {
                ks.push(id.clone());
                assert(strs_view(ks@) =~= kv0.push(id@));
            },
            Some(p) => {
                assert(kv0[p as int] == id@);
            },
        }
        proof {
            assert forall|x: Seq<char>| strs_view(ks@).contains(x) <==> exists|k: int| 0 <= k < i + 1 && (#[trigger] ns[k]).node_id == x by {
                lemma_push_contains(kv0, id@, x);
                if x == id@ {
                    assert(ns[i as int].node_id == x);
                }
                if exists|k: int| 0 <= k < i + 1 && (#[trigger] ns[k]).node_id == x {
                    let k = choose|k: int| 0 <= k < i + 1 && (#[trigger] ns[k]).node_id == x;
                    if k < i {
                        assert(kv0.contains(x));
                    }
                }
            }
        }
        i += 1;
    }
    let mut j: usize = 0;
    while j < edges.len()
        invariant
            ns == nodes_view(nodes@),
            es == edges_view(edges@),
            j <= edges.len(),
            strs_view(ks@).no_duplicates(),
            forall|x: Seq<char>| strs_view(ks@).contains(x) <==> (has_node(ns, x) || targets_upto(es, j as int, x)),
        decreases edges.len() - j,
    {
        let ghost kv0 = strs_view(ks@);
        let to = &edges[j].to_node;
        assert(to@ == es[j as int].to_node);
        match key_index(&ks, to.as_str()) {
            None => {
                ks.push(to.clone());
                assert(strs_view(ks@) =~= kv0.push(to@));
            },
            Some(p) => {
                assert(kv0[p as int] == to@);
            },
        }
        let ghost j0 = j as int;
        j += 1;
        proof {
            assert forall|x: Seq<char>| strs_view(ks@).contains(x) <==> (has_node(ns, x) || targets_upto(es, j as int, x)) by {
                assert(kv0.contains(x) <==> (has_node(ns, x) || targets_upto(es, j0, x)));
                lemma_push_contains(kv0, to@, x);
                if x == to@ {
                    assert(es[j0].to_node == x);
                }
                if targets_upto(es, j as int, x) {
                    let q = choose|q: int| 0 <= q < j && (#[trigger] es[q]).to_node == x;
                    if q < j0 {
                        assert(targets_upto(es, j0, x));
                    }
                }
                if targets_upto(es, j0, x) {
                    let q = choose|q: int| 0 <= q < j0 && (#[trigger] es[q]).to_node == x;
                    assert(targets_upto(es, j as int, x));
                }
            }
        }
    }
    proof {
        assert(j as int == es.len());
        assert forall|x: Seq<char>| strs_view(ks@).contains(x) <==> is_order_key(ns, es, x) by {
            if targets_upto(es, j as int, x) {
                let q = choose|q: int| 0 <= q < j && (#[trigger] es[q]).to_node == x;
                assert(is_order_key(ns, es, x));
            }
            if exists|q: int| 0 <= q < es.len() && (#[trigger] es[q]).to_node == x {
                let q = choose|q: int| 0 <= q < es.len() && (#[trigger] es[q]).to_node == x;
                assert(targets_upto(es, j as int, x));
            }
        }
    }
    let ghost kv = strs_view(ks@);
    let mut fs: Vec<Option<usize>> = Vec::new();
    let mut ts: Vec<usize> = Vec::new();
    let mut j: usize = 0;
    while j < edges.len()
        invariant
            es == edges_view(edges@),
            kv == strs_view(ks@),
            kv.no_duplicates(),
            forall|x: Seq<char>| kv.contains(x) <==> is_order_key(ns, es, x),
            j <= edges.len(),
            fs.len() == j,
            ts.len() == j,
            kv.len() == ks.len(),
            forall|q: int| 0 <= q < j ==> #[trigger] ts@[q] < ks.len(),
            forall|q: int| 0 <= q < j ==> kv[ts@[q] as int] == (#[trigger] es[q]).to_node,
            forall|q: int|
                0 <= q < j ==> match #[trigger] fs@[q] {
                    Some(x) => x < kv.len() && kv[x as int] == es[q].from_node,
                    None => !kv.contains(es[q].from_node),
                },
        decreases edges.len() - j,
    {
        let e = &edges[j];
        assert(e@ == es[j as int]);
        assert(e.to_node@ == es[j as int].to_node);
        assert(e.from_node@ == es[j as int].from_node);
        let from = key_index(&ks, e.from_node.as_str());
        let to = match key_index(&ks, e.to_node.as_str()) {
            Some(t) => t,
            None => {
                proof {
                    assert(es[j as int].to_node == e.to_node@);
                    assert(is_order_key(ns, es, e.to_node@));
                    assert(false);
                }
                0
            },
        };
        let ghost fs0 = fs@;
        let ghost ts0 = ts@;
        fs.push(from);
        ts.push(to);
        proof {
            assert(ts@[j as int] == to);
            assert(to < kv.len());
            assert(kv[to as int] == ks@[to as int]@);
            assert(kv[to as int] == es[j as int].to_node);
            assert forall|q: int| 0 <= q < j + 1 implies #[trigger] ts@[q] < ks.len() by {
                if q < j {
                    assert(ts@[q] == ts0[q]);
                }
            }
            assert forall|q: int| 0 <= q < j + 1 implies kv[ts@[q] as int] == (#[trigger] es[q]).to_node by {
                if q < j {
                    assert(ts@[q] == ts0[q]);
                }
            }
            assert forall|q: int|
                0 <= q < j + 1 implies match #[trigger] fs@[q] {
                    Some(x) => x < kv.len() && kv[x as int] == es[q].from_node,
                    None => !kv.contains(es[q].from_node),
                } by {
                if q < j {
                    assert(fs@[q] == fs0[q]);
                }
            }
        }
        j += 1;
    }
    let rs = kahn(ks.len(), &fs, &ts);
    proof {
        assert(tables_ok(kv, fs@, ts@, ns, es));
        assert(kahn_result(kv.len(), fs@, ts@, rs@));
        lemma_ids_valid(kv, fs@, ts@, rs@, ns, es);
        lemma_ids_maximal(kv, fs@, ts@, rs@, ns, es);
    }
    let mut out: Vec<String> = Vec::new();
    let mut k: usize = 0;
    while k < rs.len()
        invariant
            kv == strs_view(ks@),
            k <= rs.len(),
            forall|q: int| 0 <= q < rs.len() ==> rs@[q] < ks.len(),
            out.len() == k,
            forall|q: int| 0 <= q < k ==> (#[trigger] out@[q])@ == kv[rs@[q] as int],
        decreases rs.len() - k,
    {
        out.push(ks[rs[k]].clone());
        k += 1;
    }
    assert(strs_view(out@) =~= ids_of(kv, rs@));
    if out.len() == nodes.len() {
        Some(out)
    } else {
        None
    }
}

/// A graph whose node ids are distinct and whose edges join existing nodes.
pub open spec fn well_formed_graph(ns: Seq<NodeV>, es: Seq<EdgeV>) -> bool {
    &&& forall|a: int, b: int| 0 <= a < ns.len() && 0 <= b < ns.len() && a != b ==> (#[trigger] ns[a]).node_id != (#[trigger] ns[b]).node_id
    &&& forall|j: int| 0 <= j < es.len() ==> has_node(ns, (#[trigger] es[j]).from_node) && has_node(ns, es[j].to_node)
}

/// What `topological_sort` returns on a graph, as stated by its contract.
pub open spec fn sort_outcome(ns: Seq<NodeV>, es: Seq<EdgeV>, r: Option<Seq<Seq<char>>>) -> bool {
    match r {
        Some(o) => valid_order(o, ns, es) && maximal_order(o, ns, es) && o.len() == ns.len(),
        None => exists|p: Seq<Seq<char>>| valid_order(p, ns, es) && maximal_order(p, ns, es) && p.len() != ns.len(),
    }
}

/// The ids of the nodes, in order.
pub open spec fn node_ids(ns: Seq<NodeV>) -> Seq<Seq<char>> {
    ns.map_values(|n: NodeV| n.node_id)
}

/// A sequence without duplicates whose elements all occur in `b` is no longer than `b`'s
/// set of elements.
pub proof fn lemma_distinct_subset_len(a: Seq<Seq<char>>, b: Seq<Seq<char>>)
    requires
        a.no_duplicates(),
        forall|i: int| 0 <= i < a.len() ==> b.contains(#[trigger] a[i]),
    ensures
        a.len() <= b.to_set().len(),
{
    broadcast use vstd::seq_lib::seq_to_set_is_finite;
    a.unique_seq_to_set();
    assert(a.to_set().subset_of(b.to_set())) by {
        assert forall|x: Seq<char>| a.to_set().contains(x) implies b.to_set().contains(x) by {
            let i = choose|i: int| 0 <= i < a.len() && a[i] == x;
            assert(b.contains(a[i]));
        }
    }
    vstd::set_lib::lemma_len_subset(a.to_set(), b.to_set());
}

/// On a well-formed graph, sorting succeeds exactly when the nodes have an execution
/// order, that is when the graph has no cycle.
pub proof fn law_sort_succeeds_iff_acyclic(ns: Seq<NodeV>, es: Seq<EdgeV>, r: Option<Seq<Seq<char>>>)
    requires
        well_formed_graph(ns, es),
        sort_outcome(ns, es, r),
    ensures
        r is Some <==> exists|s: Seq<Seq<char>>| valid_order(s, ns, es) && s.len() == ns.len(),
{
    match r {
        Some(o) => {
            assert(valid_order(o, ns, es) && o.len() == ns.len());
        },
        None => {
            let p = choose|p: Seq<Seq<char>>| valid_order(p, ns, es) && maximal_order(p, ns, es) && p.len() != ns.len();
            let ids = node_ids(ns);
            assert(ids.no_duplicates()) by {
                assert forall|a: int, b: int| 0 <= a < ids.len() && 0 <= b < ids.len() && a != b implies ids[a] != ids[b] by {
                    assert(ns[a].node_id != ns[b].node_id);
                }
            }
            ids.unique_seq_to_set();
            assert forall|i: int| 0 <= i < p.len() implies ids.contains(#[trigger] p[i]) by {
                assert(is_order_key(ns, es, p[i]));
                if has_node(ns, p[i]) {
                    let k = choose|k: int| 0 <= k < ns.len() && (#[trigger] ns[k]).node_id == p[i];
                    assert(ids[k] == p[i]);
                } else {
                    let j = choose|j: int| 0 <= j < es.len() && (#[trigger] es[j]).to_node == p[i];
                    assert(has_node(ns, es[j].to_node));
                    let k = choose|k: int| 0 <= k < ns.len() && (#[trigger] ns[k]).node_id == es[j].to_node;
                    assert(ids[k] == p[i]);
                }
            }
            lemma_distinct_subset_len(p, ids);
            if exists|s: Seq<Seq<char>>| valid_order(s, ns, es) && s.len() == ns.len() {
                let s = choose|s: Seq<Seq<char>>| valid_order(s, ns, es) && s.len() == ns.len();
                assert forall|i: int| 0 <= i < s.len() implies p.contains(#[trigger] s[i]) by {}
                lemma_distinct_subset_len(s, p);
                p.unique_seq_to_set();
                assert(false);
            }
        },
    }
}

} // verus!
