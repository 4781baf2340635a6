//! Generic facts about sequences: the first element matching a predicate.

use vstd::prelude::*;

verus! {

/// `i` is the position of the first element of `s` that satisfies `p`.
pub open spec fn is_first_match<T>(s: Seq<T>, p: spec_fn(T) -> bool, i: int) -> bool {
    &&& 0 <= i < s.len()
    &&& p(s[i])
    &&& forall|j: int| 0 <= j < i ==> !p(#[trigger] s[j])
}

/// Position of the first element of `s` satisfying `p`, or `-1` when there is none.
pub open spec fn first_match<T>(s: Seq<T>, p: spec_fn(T) -> bool) -> int {
    if exists|i: int| is_first_match(s, p, i) {
        choose|i: int| is_first_match(s, p, i)
    } else {
        -1
    }
}

/// A witness of "first match" is the value of `first_match`.
pub proof fn lemma_first_match_at<T>(s: Seq<T>, p: spec_fn(T) -> bool, i: int)
    requires
        is_first_match(s, p, i),
    ensures
        first_match(s, p) == i,
{
    let c = choose|k: int| is_first_match(s, p, k);
    assert(is_first_match(s, p, c));
    if c < i {
        assert(!p(s[c]));
    } else if i < c {
        assert(!p(s[i]));
    }
}

/// When no element satisfies `p`, `first_match` is `-1`.
pub proof fn lemma_first_match_none<T>(s: Seq<T>, p: spec_fn(T) -> bool)
    requires
        forall|j: int| 0 <= j < s.len() ==> !p(#[trigger] s[j]),
    ensures
        first_match(s, p) == -1,
{
    if exists|i: int| is_first_match(s, p, i) {
        let c = choose|i: int| is_first_match(s, p, i);
        assert(p(s[c]));
    }
}

/// What `first_match` says: either the first matching position, or no element matches.
pub proof fn lemma_first_match<T>(s: Seq<T>, p: spec_fn(T) -> bool)
    ensures
        first_match(s, p) == -1 || is_first_match(s, p, first_match(s, p)),
        first_match(s, p) == -1 ==> forall|j: int| 0 <= j < s.len() ==> !p(#[trigger] s[j]),
        first_match(s, p) >= -1,
{
    if exists|j: int| 0 <= j < s.len() && p(s[j]) {
        let j = choose|j: int| 0 <= j < s.len() && p(s[j]);
        lemma_first_exists(s, p, j);
    }
}

proof fn lemma_first_exists<T>(s: Seq<T>, p: spec_fn(T) -> bool, j: int)
    requires
        0 <= j < s.len(),
        p(s[j]),
    ensures
        exists|i: int| is_first_match(s, p, i),
    decreases j,
{
    if forall|k: int| 0 <= k < j ==> !p(#[trigger] s[k]) {
        assert(is_first_match(s, p, j));
    } else {
        let k = choose|k: int| 0 <= k < j && p(s[k]);
        lemma_first_exists(s, p, k);
    }
}

/// `i` is the smallest index below `n` that satisfies `p`.
pub open spec fn is_first_index(n: int, p: spec_fn(int) -> bool, i: int) -> bool {
    &&& 0 <= i < n
    &&& p(i)
    &&& forall|j: int| 0 <= j < i ==> !#[trigger] p(j)
}

/// The smallest index below `n` that satisfies `p`, or `-1` when there is none.
pub open spec fn first_index(n: int, p: spec_fn(int) -> bool) -> int {
    if exists|i: int| is_first_index(n, p, i) {
        choose|i: int| is_first_index(n, p, i)
    } else {
        -1
    }
}

/// A witness of "first index" is the value of `first_index`.
pub proof fn lemma_first_index_at(n: int, p: spec_fn(int) -> bool, i: int)
    requires
        is_first_index(n, p, i),
    ensures
        first_index(n, p) == i,
{
    let c = choose|k: int| is_first_index(n, p, k);
    assert(is_first_index(n, p, c));
    if c < i {
        assert(!p(c));
    } else if i < c {
        assert(!p(i));
    }
}

/// When no index below `n` satisfies `p`, `first_index` is `-1`.
pub proof fn lemma_first_index_none(n: int, p: spec_fn(int) -> bool)
    requires
        forall|j: int| 0 <= j < n ==> !#[trigger] p(j),
    ensures
        first_index(n, p) == -1,
{
    if exists|i: int| is_first_index(n, p, i) {
        let c = choose|i: int| is_first_index(n, p, i);
        assert(p(c));
    }
}

/// When some index below `n` satisfies `p`, `first_index` finds one.
pub proof fn lemma_first_index_found(n: int, p: spec_fn(int) -> bool, j: int)
    requires
        0 <= j < n,
        p(j),
    ensures
        0 <= first_index(n, p) < n,
        p(first_index(n, p)),
    decreases j,
{
    if exists|k: int| 0 <= k < j && #[trigger] p(k) {
        let k = choose|k: int| 0 <= k < j && #[trigger] p(k);
        lemma_first_index_found(n, p, k);
    } else {
        assert(is_first_index(n, p, j));
        lemma_first_index_at(n, p, j);
    }
}

/// Replacing an element by one that agrees on `p` keeps the first match where it was.
pub proof fn lemma_first_match_update<T>(s: Seq<T>, p: spec_fn(T) -> bool, i: int, x: T)
    requires
        0 <= i < s.len(),
        p(x) == p(s[i]),
    ensures
        first_match(s.update(i, x), p) == first_match(s, p),
{
    let t = s.update(i, x);
    lemma_first_match(s, p);
    let m = first_match(s, p);
    if m == -1 {
        assert forall|j: int| 0 <= j < t.len() implies !p(#[trigger] t[j]) by {
            assert(!p(s[j]));
        }
        lemma_first_match_none(t, p);
    } else {
        assert forall|j: int| 0 <= j < m implies !p(#[trigger] t[j]) by {
            assert(!p(s[j]));
        }
        assert(p(t[m]));
        lemma_first_match_at(t, p, m);
    }
}

/// Appending a matching element to a sequence with no match makes it the first match.
pub proof fn lemma_first_match_push<T>(s: Seq<T>, p: spec_fn(T) -> bool, x: T)
    requires
        first_match(s, p) == -1,
        p(x),
    ensures
        first_match(s.push(x), p) == s.len(),
{
    lemma_first_match(s, p);
    let t = s.push(x);
    assert forall|j: int| 0 <= j < s.len() implies !p(#[trigger] t[j]) by {
        assert(t[j] == s[j]);
    }
    lemma_first_match_at(t, p, s.len() as int);
}

} // verus!
