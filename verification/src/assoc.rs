//! Association lists keyed by strings, read as finite maps.

use vstd::prelude::*;

verus! {

/// No two entries of `s` share a key.
pub open spec fn keys_unique<V>(s: Seq<(Seq<char>, V)>) -> bool {
    forall|i: int, j: int| 0 <= i < s.len() && 0 <= j < s.len() && i != j ==> (#[trigger] s[i]).0 != (#[trigger] s[j]).0
}

/// Some entry of `s` has key `k`.
pub open spec fn has_assoc_key<V>(s: Seq<(Seq<char>, V)>, k: Seq<char>) -> bool {
    exists|i: int| 0 <= i < s.len() && (#[trigger] s[i]).0 == k
}

/// The map that `s` stands for: each key to the value of an entry with that key.
pub open spec fn assoc_map<V>(s: Seq<(Seq<char>, V)>) -> Map<Seq<char>, V> {
    Map::new(
        |k: Seq<char>| has_assoc_key(s, k),
        |k: Seq<char>| s[choose|i: int| 0 <= i < s.len() && (#[trigger] s[i]).0 == k].1,
    )
}

/// Entry `i` of a list with unique keys is what the map holds under its key.
pub proof fn lemma_assoc_at<V>(s: Seq<(Seq<char>, V)>, i: int)
    requires
        keys_unique(s),
        0 <= i < s.len(),
    ensures
        assoc_map(s).contains_key(s[i].0),
        assoc_map(s)[s[i].0] == s[i].1,
{
    let k = s[i].0;
    assert(has_assoc_key(s, k));
    let c = choose|j: int| 0 <= j < s.len() && (#[trigger] s[j]).0 == k;
    assert(c == i);
}

/// Replacing the value of entry `i` updates the map at its key.
pub proof fn lemma_assoc_update<V>(s: Seq<(Seq<char>, V)>, i: int, v: V)
    requires
        keys_unique(s),
        0 <= i < s.len(),
    ensures
        keys_unique(s.update(i, (s[i].0, v))),
        assoc_map(s.update(i, (s[i].0, v))) == assoc_map(s).insert(s[i].0, v),
{
    let t = s.update(i, (s[i].0, v));
    assert(keys_unique(t)) by {
        assert forall|a: int, b: int| 0 <= a < t.len() && 0 <= b < t.len() && a != b implies (#[trigger] t[a]).0 != (#[trigger] t[b]).0 by {
            assert(t[a].0 == s[a].0 && t[b].0 == s[b].0);
        }
    }
    let m = assoc_map(s).insert(s[i].0, v);
    assert forall|k: Seq<char>| #[trigger] assoc_map(t).contains_key(k) <==> m.contains_key(k) by {
        if has_assoc_key(s, k) {
            let j = choose|j: int| 0 <= j < s.len() && (#[trigger] s[j]).0 == k;
            assert(t[j].0 == k);
        }
        if has_assoc_key(t, k) {
            let j = choose|j: int| 0 <= j < t.len() && (#[trigger] t[j]).0 == k;
            assert(s[j].0 == k);
        }
    }
    assert forall|k: Seq<char>| #[trigger] assoc_map(t).contains_key(k) implies assoc_map(t)[k] == m[k] by {
        let j = choose|j: int| 0 <= j < t.len() && (#[trigger] t[j]).0 == k;
        lemma_assoc_at(t, j);
        if j != i {
            assert(s[j] == t[j]);
            lemma_assoc_at(s, j);
        }
    }
    assert(assoc_map(t) =~= m);
}

/// Appending an entry with a new key adds it to the map.
pub proof fn lemma_assoc_push<V>(s: Seq<(Seq<char>, V)>, k: Seq<char>, v: V)
    requires
        keys_unique(s),
        !has_assoc_key(s, k),
    ensures
        keys_unique(s.push((k, v))),
        assoc_map(s.push((k, v))) == assoc_map(s).insert(k, v),
{
    let t = s.push((k, v));
    assert(keys_unique(t)) by {
        assert forall|a: int, b: int| 0 <= a < t.len() && 0 <= b < t.len() && a != b implies (#[trigger] t[a]).0 != (#[trigger] t[b]).0 by {
            if a == s.len() {
                assert(s[b] == t[b]);
            } else if b == s.len() {
                assert(s[a] == t[a]);
            } else {
                assert(s[a] == t[a] && s[b] == t[b]);
            }
        }
    }
    let m = assoc_map(s).insert(k, v);
    assert forall|x: Seq<char>| #[trigger] assoc_map(t).contains_key(x) <==> m.contains_key(x) by {
        if has_assoc_key(s, x) {
            let j = choose|j: int| 0 <= j < s.len() && (#[trigger] s[j]).0 == x;
            assert(t[j].0 == x);
        }
        if x == k {
            assert(t[s.len() as int].0 == x);
        }
        if has_assoc_key(t, x) {
            let j = choose|j: int| 0 <= j < t.len() && (#[trigger] t[j]).0 == x;
            if j < s.len() {
                assert(s[j].0 == x);
            }
        }
    }
    assert forall|x: Seq<char>| #[trigger] assoc_map(t).contains_key(x) implies assoc_map(t)[x] == m[x] by {
        let j = choose|j: int| 0 <= j < t.len() && (#[trigger] t[j]).0 == x;
        lemma_assoc_at(t, j);
        if j < s.len() {
            assert(s[j] == t[j]);
            lemma_assoc_at(s, j);
        }
    }
    assert(assoc_map(t) =~= m);
}

/// Removing entry `i` removes its key from the map.
pub proof fn lemma_assoc_remove<V>(s: Seq<(Seq<char>, V)>, i: int)
    requires
        keys_unique(s),
        0 <= i < s.len(),
    ensures
        keys_unique(s.remove(i)),
        assoc_map(s.remove(i)) == assoc_map(s).remove(s[i].0),
{
    let t = s.remove(i);
    assert forall|j: int| 0 <= j < t.len() implies #[trigger] t[j] == s[if j < i { j } else { j + 1 }] by {}
    assert(keys_unique(t)) by {
        assert forall|a: int, b: int| 0 <= a < t.len() && 0 <= b < t.len() && a != b implies (#[trigger] t[a]).0 != (#[trigger] t[b]).0 by {
            let a1 = if a < i { a } else { a + 1 };
            let b1 = if b < i { b } else { b + 1 };
            assert(t[a] == s[a1] && t[b] == s[b1]);
        }
    }
    let m = assoc_map(s).remove(s[i].0);
    assert forall|x: Seq<char>| #[trigger] assoc_map(t).contains_key(x) <==> m.contains_key(x) by {
        if has_assoc_key(s, x) && x != s[i].0 {
            let j = choose|j: int| 0 <= j < s.len() && (#[trigger] s[j]).0 == x;
            assert(j != i);
            let j1 = if j < i { j } else { j - 1 };
            assert(t[j1] == s[j]);
        }
        if has_assoc_key(t, x) {
            let j = choose|j: int| 0 <= j < t.len() && (#[trigger] t[j]).0 == x;
            let j1 = if j < i { j } else { j + 1 };
            assert(s[j1].0 == x);
            assert(j1 != i);
        }
    }
    assert forall|x: Seq<char>| #[trigger] assoc_map(t).contains_key(x) implies assoc_map(t)[x] == m[x] by {
        let j = choose|j: int| 0 <= j < t.len() && (#[trigger] t[j]).0 == x;
        lemma_assoc_at(t, j);
        let j1 = if j < i { j } else { j + 1 };
        assert(t[j] == s[j1]);
        lemma_assoc_at(s, j1);
    }
    assert(assoc_map(t) =~= m);
}

/// Inserting an entry with a new key at any position adds it to the map.
pub proof fn lemma_assoc_insert<V>(s: Seq<(Seq<char>, V)>, p: int, k: Seq<char>, v: V)
    requires
        keys_unique(s),
        !has_assoc_key(s, k),
        0 <= p <= s.len(),
    ensures
        keys_unique(s.insert(p, (k, v))),
        assoc_map(s.insert(p, (k, v))) == assoc_map(s).insert(k, v),
{
    let t = s.insert(p, (k, v));
    assert forall|j: int| 0 <= j < t.len() implies #[trigger] t[j] == (if j < p { s[j] } else if j == p { (k, v) } else { s[j - 1] }) by {}
    assert(keys_unique(t)) by {
        assert forall|a: int, b: int| 0 <= a < t.len() && 0 <= b < t.len() && a != b implies (#[trigger] t[a]).0 != (#[trigger] t[b]).0 by {
            if a == p {
                let b1 = if b < p { b } else { b - 1 };
                assert(t[b] == s[b1]);
            } else if b == p {
                let a1 = if a < p { a } else { a - 1 };
                assert(t[a] == s[a1]);
            } else {
                let a1 = if a < p { a } else { a - 1 };
                let b1 = if b < p { b } else { b - 1 };
                assert(t[a] == s[a1] && t[b] == s[b1]);
            }
        }
    }
    let m = assoc_map(s).insert(k, v);
    assert forall|x: Seq<char>| #[trigger] assoc_map(t).contains_key(x) <==> m.contains_key(x) by {
        if has_assoc_key(s, x) {
            let j = choose|j: int| 0 <= j < s.len() && (#[trigger] s[j]).0 == x;
            let j1 = if j < p { j } else { j + 1 };
            assert(t[j1].0 == x);
        }
        if x == k {
            assert(t[p].0 == x);
        }
        if has_assoc_key(t, x) {
            let j = choose|j: int| 0 <= j < t.len() && (#[trigger] t[j]).0 == x;
            if j != p {
                let j1 = if j < p { j } else { j - 1 };
                assert(s[j1].0 == x);
            }
        }
    }
    assert forall|x: Seq<char>| #[trigger] assoc_map(t).contains_key(x) implies assoc_map(t)[x] == m[x] by {
        let j = choose|j: int| 0 <= j < t.len() && (#[trigger] t[j]).0 == x;
        lemma_assoc_at(t, j);
        if j != p {
            let j1 = if j < p { j } else { j - 1 };
            assert(t[j] == s[j1]);
            lemma_assoc_at(s, j1);
        }
    }
    assert(assoc_map(t) =~= m);
}

} // verus!
