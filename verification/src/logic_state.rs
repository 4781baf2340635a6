//! The catalog of logic graph assets, kept in order of asset id.

use vstd::prelude::*;
use crate::logic_graph::{LogicGraphCatalogEntry, CatalogEntryV, clone_catalog_entry};
use crate::assoc::{
    keys_unique, has_assoc_key, assoc_map, lemma_assoc_at, lemma_assoc_insert, lemma_assoc_remove, lemma_assoc_update,
};

verus! {

/// `a` comes before `b` in the order of strings: character by character, a proper
/// prefix first.
pub open spec fn lex_lt(a: Seq<char>, b: Seq<char>) -> bool
    decreases a.len(),
{
    if a.len() == 0 {
        b.len() > 0
    } else if b.len() == 0 {
        false
    } else if a[0] != b[0] {
        (a[0] as u32) < (b[0] as u32)
    } else {
        lex_lt(a.drop_first(), b.drop_first())
    }
}

/// No string comes before itself.
pub proof fn lemma_lex_irreflexive(a: Seq<char>)
    ensures
        !lex_lt(a, a),
    decreases a.len(),
{
    if a.len() > 0 {
        lemma_lex_irreflexive(a.drop_first());
    }
}

proof fn lemma_char_u32(x: char, y: char)
    requires
        x != y,
    ensures
        (x as u32) != (y as u32),
{
}

/// Of two different strings, one comes before the other.
pub proof fn lemma_lex_total(a: Seq<char>, b: Seq<char>)
    requires
        a != b,
    ensures
        lex_lt(a, b) || lex_lt(b, a),
    decreases a.len(),
{
    if a.len() > 0 && b.len() > 0 {
        if a[0] == b[0] {
            if a.drop_first() == b.drop_first() {
                assert(a =~= seq![a[0]] + a.drop_first());
                assert(b =~= seq![b[0]] + b.drop_first());
            }
            lemma_lex_total(a.drop_first(), b.drop_first());
        } else {
            lemma_char_u32(a[0], b[0]);
        }
    } else if a.len() == 0 && b.len() == 0 {
        assert(a =~= b);
    }
}

/// The order of strings is transitive.
pub proof fn lemma_lex_transitive(a: Seq<char>, b: Seq<char>, c: Seq<char>)
    requires
        lex_lt(a, b),
        lex_lt(b, c),
    ensures
        lex_lt(a, c),
    decreases a.len(),
{
    if a.len() > 0 && b.len() > 0 && c.len() > 0 {
        if a[0] == b[0] && b[0] == c[0] {
            lemma_lex_transitive(a.drop_first(), b.drop_first(), c.drop_first());
        }
    }
}

/// Whether `a` comes before `b`.
pub fn str_lt(a: &str, b: &str) -> (r: bool)
    ensures
        r == lex_lt(a@, b@),
{
    let n = a.unicode_len();
    let m = b.unicode_len();
    let mut i: usize = 0;
    assert(a@.subrange(0, n as int) =~= a@);
    assert(b@.subrange(0, m as int) =~= b@);
    while i < n && i < m
        invariant
            n == a@.len(),
            m == b@.len(),
            i <= n,
            i <= m,
            forall|k: int| 0 <= k < i ==> a@[k] == b@[k],
            lex_lt(a@, b@) == lex_lt(a@.subrange(i as int, n as int), b@.subrange(i as int, m as int)),
        decreases n - i,
    {
        let x = a.get_char(i);
        let y = b.get_char(i);
        if x != y {
            proof {
                lemma_char_u32(x, y);
            }
            return (x as u32) < (y as u32);
        }
        assert(a@.subrange(i as int, n as int).drop_first() =~= a@.subrange(i + 1, n as int));
        assert(b@.subrange(i as int, m as int).drop_first() =~= b@.subrange(i + 1, m as int));
        i += 1;
    }
    i == n && i < m
}

/// Models of a list of entries, keyed by asset id.
pub open spec fn entries_keyed(es: Seq<CatalogEntryV>) -> Seq<(Seq<char>, CatalogEntryV)> {
    es.map_values(|e: CatalogEntryV| (e.asset_id, e))
}

/// The entries are in strictly increasing order of asset id.
pub open spec fn sorted_by_id(es: Seq<CatalogEntryV>) -> bool {
    forall|i: int, j: int| 0 <= i < j < es.len() ==> lex_lt((#[trigger] es[i]).asset_id, (#[trigger] es[j]).asset_id)
}

proof fn lemma_sorted_unique(es: Seq<CatalogEntryV>)
    requires
        sorted_by_id(es),
    ensures
        keys_unique(entries_keyed(es)),
{
    let s = entries_keyed(es);
    assert forall|i: int, j: int| 0 <= i < s.len() && 0 <= j < s.len() && i != j implies (#[trigger] s[i]).0 != (#[trigger] s[j]).0 by {
        if i < j {
            assert(lex_lt(es[i].asset_id, es[j].asset_id));
            if es[i].asset_id == es[j].asset_id {
                lemma_lex_irreflexive(es[i].asset_id);
            }
        } else {
            assert(lex_lt(es[j].asset_id, es[i].asset_id));
            if es[i].asset_id == es[j].asset_id {
                lemma_lex_irreflexive(es[i].asset_id);
            }
        }
    }
}

/// Errors of catalog registration.
#[derive(Debug)]
pub enum LogicGraphCatalogError {
    DuplicateAssetId { id: String },
}

/// The catalog of logic graph assets.
#[derive(Debug)]
pub struct LogicGraphCatalog {
    entries: Vec<LogicGraphCatalogEntry>,
}

/// The models of a list of catalog entries.
pub open spec fn cat_view(es: Seq<LogicGraphCatalogEntry>) -> Seq<CatalogEntryV> {
    es.map_values(|e: LogicGraphCatalogEntry| e@)
}

/// The catalog `m` after registering each of `es`, in order, each replacing any entry
/// with its asset id.
pub open spec fn seeded(m: Map<Seq<char>, CatalogEntryV>, es: Seq<CatalogEntryV>, k: int) -> Map<Seq<char>, CatalogEntryV>
    decreases k,
{
    if k <= 0 || k > es.len() {
        m
    } else {
        seeded(m, es, k - 1).insert(es[k - 1].asset_id, es[k - 1])
    }
}

impl LogicGraphCatalog {
    /// The entries, in order of asset id.
    pub closed spec fn entries(&self) -> Seq<CatalogEntryV> {
        cat_view(self.entries@)
    }

    /// The entries by asset id.
    pub open spec fn map(&self) -> Map<Seq<char>, CatalogEntryV> {
        assoc_map(entries_keyed(self.entries()))
    }

    /// The entries are sorted by asset id.
    pub open spec fn wf(&self) -> bool {
        sorted_by_id(self.entries())
    }

    /// An empty catalog.
    pub fn new() -> (r: LogicGraphCatalog)
        ensures
            r.wf(),
            r.entries() == Seq::<CatalogEntryV>::empty(),
            r.map() == Map::<Seq<char>, CatalogEntryV>::empty(),
    {
        let r = LogicGraphCatalog { entries: Vec::new() };
        assert(r.entries() =~= Seq::<CatalogEntryV>::empty());
        assert(r.map() =~= Map::<Seq<char>, CatalogEntryV>::empty());
        r
    }

    /// Copies of all entries, in order of asset id.
    pub fn list_all(&self) -> (r: Vec<LogicGraphCatalogEntry>)
        ensures
            cat_view(r@) == self.entries(),
    {
        let mut out: Vec<LogicGraphCatalogEntry> = Vec::new();
        let mut i: usize = 0;
        while i < self.entries.len()
            invariant
                i <= self.entries.len(),
                out.len() == i,
                forall|k: int| 0 <= k < i ==> (#[trigger] out@[k])@ == self.entries@[k]@,
            decreases self.entries.len() - i,
        {
            out.push(clone_catalog_entry(&self.entries[i]));
            i += 1;
        }
        assert(cat_view(out@) =~= self.entries());
        out
    }

    fn index_of(&self, asset_id: &str) -> (r: Option<usize>)
        requires
            self.wf(),
        ensures
            match r {
                Some(i) => i < self.entries@.len() && self.entries()[i as int].asset_id == asset_id@,
                None => !self.map().contains_key(asset_id@),
            },
    {
        let mut i: usize = 0;
        while i < self.entries.len()
            invariant
                i <= self.entries.len(),
                forall|k: int| 0 <= k < i ==> self.entries@[k].asset_id@ != asset_id@,
            decreases self.entries.len() - i,
        {
            if crate::text::str_equal(self.entries[i].asset_id.as_str(), asset_id) {
                return Some(i);
            }
            i += 1;
        }
        proof {
            let s = entries_keyed(self.entries());
            if has_assoc_key(s, asset_id@) {
                let k = choose|k: int| 0 <= k < s.len() && (#[trigger] s[k]).0 == asset_id@;
                assert(self.entries@[k].asset_id@ == asset_id@);
            }
        }
        None
    }

    /// The entry with asset id `asset_id`.
    pub fn get(&self, asset_id: &str) -> (r: Option<&LogicGraphCatalogEntry>)
        requires
            self.wf(),
        ensures
            match r {
                Some(e) => self.map().contains_key(asset_id@) && e@ == self.map()[asset_id@],
                None => !self.map().contains_key(asset_id@),
            },
    {
        match self.index_of(asset_id) {
            Some(i) => {
                proof {
                    lemma_sorted_unique(self.entries());
                    lemma_assoc_at(entries_keyed(self.entries()), i as int);
                }
                Some(&self.entries[i])
            },
            None => None,
        }
    }
}

impl LogicGraphCatalog {
    /// Insert `entry`, whose asset id the catalog does not hold, at its place in order.
    fn insert_sorted(&mut self, entry: LogicGraphCatalogEntry)
        requires
            old(self).wf(),
            !old(self).map().contains_key(entry.asset_id@),
        ensures
            final(self).wf(),
            final(self).map() == old(self).map().insert(entry.asset_id@, entry@),
    {
        let ghost es = self.entries();
        let ghost key = entry.asset_id@;
        let mut p: usize = 0;
        while p < self.entries.len() && str_lt(self.entries[p].asset_id.as_str(), entry.asset_id.as_str())
            invariant
                es == self.entries(),
                key == entry.asset_id@,
                p <= self.entries.len(),
                forall|k: int| 0 <= k < p ==> lex_lt(#[trigger] es[k].asset_id, key),
            decreases self.entries.len() - p,
        {
            assert(es[p as int].asset_id == self.entries@[p as int].asset_id@);
            p += 1;
        }
        proof {
            lemma_sorted_unique(es);
            assert forall|k: int| p <= k < es.len() implies lex_lt(key, #[trigger] es[k].asset_id) by {
                assert(!lex_lt(es[p as int].asset_id, key));
                if es[p as int].asset_id == key {
                    lemma_assoc_at(entries_keyed(es), p as int);
                }
                lemma_lex_total(es[p as int].asset_id, key);
                if k > p {
                    lemma_lex_transitive(key, es[p as int].asset_id, es[k].asset_id);
                }
            }
        }
        let ghost ev = entry@;
        self.entries.insert(p, entry);
        proof {
            let t = self.entries();
            assert(t =~= es.insert(p as int, ev));
            assert forall|i: int, j: int| 0 <= i < j < t.len() implies lex_lt((#[trigger] t[i]).asset_id, (#[trigger] t[j]).asset_id) by {
                if i < p && j < p {
                    assert(t[i] == es[i] && t[j] == es[j]);
                } else if i < p && j == p {
                    assert(t[i] == es[i]);
                } else if i < p {
                    assert(t[i] == es[i] && t[j] == es[j - 1]);
                    lemma_lex_transitive(es[i].asset_id, key, es[j - 1].asset_id);
                } else if i == p {
                    assert(t[j] == es[j - 1]);
                } else {
                    assert(t[i] == es[i - 1] && t[j] == es[j - 1]);
                }
            }
            assert(!has_assoc_key(entries_keyed(es), key));
            lemma_assoc_insert(entries_keyed(es), p as int, key, ev);
            assert(entries_keyed(t) =~= entries_keyed(es).insert(p as int, (key, ev)));
        }
    }

    /// Register `entry`. Fails, changing nothing, when its asset id is already taken.
    pub fn register(&mut self, entry: LogicGraphCatalogEntry) -> (r: Result<(), LogicGraphCatalogError>)
        requires
            old(self).wf(),
        ensures
            final(self).wf(),
            old(self).map().contains_key(entry.asset_id@) ==> {
                &&& r matches Err(LogicGraphCatalogError::DuplicateAssetId { id }) && id@ == entry.asset_id@
                &&& final(self).map() == old(self).map()
            },
            !old(self).map().contains_key(entry.asset_id@) ==> {
                &&& r is Ok
                &&& final(self).map() == old(self).map().insert(entry.asset_id@, entry@)
            },
    {
        match self.index_of(entry.asset_id.as_str()) {
            Some(i) => {
                proof {
                    lemma_sorted_unique(self.entries());
                    lemma_assoc_at(entries_keyed(self.entries()), i as int);
                }
                Err(LogicGraphCatalogError::DuplicateAssetId { id: entry.asset_id.clone() })
            },
            None => {
                self.insert_sorted(entry);
                Ok(())
            },
        }
    }

    /// Remove the entry with asset id `asset_id` and return it.
    pub fn unregister(&mut self, asset_id: &str) -> (r: Option<LogicGraphCatalogEntry>)
        requires
            old(self).wf(),
        ensures
            final(self).wf(),
            final(self).map() == old(self).map().remove(asset_id@),
            match r {
                Some(e) => old(self).map().contains_key(asset_id@) && e@ == old(self).map()[asset_id@],
                None => !old(self).map().contains_key(asset_id@),
            },
    {
        match self.index_of(asset_id) {
            Some(i) => {
                let ghost es = self.entries();
                proof {
                    lemma_sorted_unique(es);
                    lemma_assoc_at(entries_keyed(es), i as int);
                    lemma_assoc_remove(entries_keyed(es), i as int);
                }
                let e = self.entries.remove(i);
                proof {
                    let t = self.entries();
                    assert(t =~= es.remove(i as int));
                    assert(entries_keyed(t) =~= entries_keyed(es).remove(i as int));
                    assert forall|a: int, b: int| 0 <= a < b < t.len() implies lex_lt((#[trigger] t[a]).asset_id, (#[trigger] t[b]).asset_id) by {
                        let a1 = if a < i { a } else { a + 1 };
                        let b1 = if b < i { b } else { b + 1 };
                        assert(t[a] == es[a1] && t[b] == es[b1]);
                    }
                }
                Some(e)
            },
            None => {
                assert(self.map().remove(asset_id@) =~= self.map());
                None
            },
        }
    }

    /// Register each of `entries` in order, each replacing any entry with its asset id.
    pub fn seed(&mut self, entries: Vec<LogicGraphCatalogEntry>)
        requires
            old(self).wf(),
        ensures
            final(self).wf(),
            final(self).map() == seeded(old(self).map(), cat_view(entries@), entries@.len() as int),
    {
        let ghost m0 = self.map();
        let ghost ev = cat_view(entries@);
        let mut entries = entries;
        let n = entries.len();
        let mut k: usize = 0;
        assert(ev.subrange(0, n as int) =~= ev);
        while k < n
            invariant
                n == ev.len(),
                k <= n,
                self.wf(),
                entries@.len() == n - k,
                cat_view(entries@) == ev.subrange(k as int, n as int),
                self.map() == seeded(m0, ev, k as int),
            decreases n - k,
        {
            let ghost before = entries@;
            assert(cat_view(before)[0] == ev.subrange(k as int, n as int)[0]);
            let e = entries.remove(0);
            assert(e@ == ev[k as int]);
            assert(cat_view(entries@) =~= cat_view(before).subrange(1, before.len() as int));
            assert(cat_view(entries@) =~= ev.subrange(k + 1, n as int));
            let ghost key = e@.asset_id;
            let ghost m1 = self.map();
            match self.index_of(e.asset_id.as_str()) {
                Some(i) => {
                    let ghost es = self.entries();
                    let ghost xv = e@;
                    proof {
                        lemma_sorted_unique(es);
                        lemma_assoc_update(entries_keyed(es), i as int, xv);
                    }
                    self.entries.set(i, e);
                    proof {
                        let t = self.entries();
                        assert(t =~= es.update(i as int, xv));
                        assert(entries_keyed(t) =~= entries_keyed(es).update(i as int, (entries_keyed(es)[i as int].0, xv)));
                        assert forall|a: int, b: int| 0 <= a < b < t.len() implies lex_lt((#[trigger] t[a]).asset_id, (#[trigger] t[b]).asset_id) by {
                            assert(t[a].asset_id == es[a].asset_id && t[b].asset_id == es[b].asset_id);
                        }
                    }
                },
                None => {
                    self.insert_sorted(e);
                },
            }
            k += 1;
        }
    }
}

impl Default for LogicGraphCatalog {
    /// An empty catalog, as `new` makes it.
    fn default() -> (r: LogicGraphCatalog)
        ensures
            r.wf(),
            r.entries() == Seq::<CatalogEntryV>::empty(),
            r.map() == Map::<Seq<char>, CatalogEntryV>::empty(),
    {
        LogicGraphCatalog::new()
    }
}

/// Two listings sorted by asset id that hold the same entries by asset id are equal.
proof fn lemma_sorted_listing_determined(a: Seq<CatalogEntryV>, b: Seq<CatalogEntryV>)
    requires
        sorted_by_id(a),
        sorted_by_id(b),
        assoc_map(entries_keyed(a)) == assoc_map(entries_keyed(b)),
    ensures
        a == b,
    decreases a.len() + b.len(),
{
    lemma_sorted_unique(a);
    lemma_sorted_unique(b);
    let ka_s = entries_keyed(a);
    let kb_s = entries_keyed(b);
    if a.len() == 0 || b.len() == 0 {
        if a.len() > 0 {
            lemma_assoc_at(ka_s, 0);
            assert(assoc_map(kb_s).contains_key(a[0].asset_id));
            assert(has_assoc_key(kb_s, a[0].asset_id));
            assert(false);
        }
        if b.len() > 0 {
            lemma_assoc_at(kb_s, 0);
            assert(assoc_map(ka_s).contains_key(b[0].asset_id));
            assert(has_assoc_key(ka_s, b[0].asset_id));
            assert(false);
        }
        assert(a =~= b);
    } else {
        let ka = a[0].asset_id;
        let kb = b[0].asset_id;
        lemma_assoc_at(ka_s, 0);
        lemma_assoc_at(kb_s, 0);
        if ka != kb {
            assert(has_assoc_key(kb_s, ka));
            let m = choose|m: int| 0 <= m < kb_s.len() && (#[trigger] kb_s[m]).0 == ka;
            assert(m != 0);
            assert(lex_lt(b[0].asset_id, b[m].asset_id));
            assert(has_assoc_key(ka_s, kb));
            let m2 = choose|m: int| 0 <= m < ka_s.len() && (#[trigger] ka_s[m]).0 == kb;
            assert(m2 != 0);
            assert(lex_lt(a[0].asset_id, a[m2].asset_id));
            lemma_lex_transitive(ka, kb, ka);
            lemma_lex_irreflexive(ka);
        }
        assert(a[0] == b[0]);
        let ra = a.drop_first();
        let rb = b.drop_first();
        lemma_assoc_remove(ka_s, 0);
        lemma_assoc_remove(kb_s, 0);
        assert(ka_s.remove(0) =~= entries_keyed(ra));
        assert(kb_s.remove(0) =~= entries_keyed(rb));
        assert(sorted_by_id(ra)) by {
            assert forall|i: int, j: int| 0 <= i < j < ra.len() implies lex_lt((#[trigger] ra[i]).asset_id, (#[trigger] ra[j]).asset_id) by {
                assert(ra[i] == a[i + 1] && ra[j] == a[j + 1]);
            }
        }
        assert(sorted_by_id(rb)) by {
            assert forall|i: int, j: int| 0 <= i < j < rb.len() implies lex_lt((#[trigger] rb[i]).asset_id, (#[trigger] rb[j]).asset_id) by {
                assert(rb[i] == b[i + 1] && rb[j] == b[j + 1]);
            }
        }
        lemma_sorted_listing_determined(ra, rb);
        assert(a =~= seq![a[0]] + ra);
        assert(b =~= seq![b[0]] + rb);
    }
}

/// Unregistering an entry just registered under a new asset id gives back the catalog's
/// listing as it was before.
pub proof fn law_unregister_after_register_restores(
    c0: LogicGraphCatalog,
    c1: LogicGraphCatalog,
    c2: LogicGraphCatalog,
    entry: CatalogEntryV,
)
    requires
        c0.wf(),
        c1.wf(),
        c2.wf(),
        !c0.map().contains_key(entry.asset_id),
        c1.map() == c0.map().insert(entry.asset_id, entry),
        c2.map() == c1.map().remove(entry.asset_id),
    ensures
        c2.entries() == c0.entries(),
        c1.map().contains_key(entry.asset_id) && c1.map()[entry.asset_id] == entry,
{
    assert(c2.map() =~= c0.map());
    lemma_sorted_listing_determined(c2.entries(), c0.entries());
}

} // verus!
