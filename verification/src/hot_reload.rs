//! Hot-reload requests raised by file watchers, and the de-duplication that runs before
//! the preview acts on a frame's batch of them.

use vstd::prelude::*;
use crate::text::str_equal;

verus! {

/// One reload request.
#[derive(Debug)]
pub enum HotReloadRequest {
    /// A source file changed.
    Source { file_id: String },
    /// A scene asset's body changed.
    Asset { asset_id: String },
    /// Everything must be reloaded.
    ForceReloadAll,
}

impl HotReloadRequest {
    /// What a request is about: its kind (0 source, 1 asset, 2 everything) and the
    /// file or asset it names (empty for everything).
    pub open spec fn key(&self) -> (u8, Seq<char>) {
        match self {
            HotReloadRequest::Source { file_id } => (0u8, file_id@),
            HotReloadRequest::Asset { asset_id } => (1u8, asset_id@),
            HotReloadRequest::ForceReloadAll => (2u8, Seq::empty()),
        }
    }
}

/// The keys of a run of requests.
pub open spec fn request_keys(s: Seq<HotReloadRequest>) -> Seq<(u8, Seq<char>)> {
    s.map_values(|r: HotReloadRequest| r.key())
}

/// The first occurrence of each element, in order of first occurrence.
pub open spec fn first_of_each(s: Seq<(u8, Seq<char>)>) -> Seq<(u8, Seq<char>)>
    decreases s.len(),
{
    if s.len() == 0 {
        s
    } else {
        let d = first_of_each(s.drop_last());
        if s.drop_last().contains(s.last()) {
            d
        } else {
            d.push(s.last())
        }
    }
}

/// De-duplication loses no request: a kind and name occur after it exactly when they
/// occurred before.
pub proof fn law_first_of_each_keeps_every_request(s: Seq<(u8, Seq<char>)>, k: (u8, Seq<char>))
    ensures
        first_of_each(s).contains(k) <==> s.contains(k),
    decreases s.len(),
{
    if s.len() > 0 {
        let init = s.drop_last();
        law_first_of_each_keeps_every_request(init, k);
        law_first_of_each_keeps_every_request(init, s.last());
        assert(s =~= init.push(s.last()));
        if s.contains(k) {
            let i = choose|i: int| 0 <= i < s.len() && s[i] == k;
            if i < s.len() - 1 {
                assert(init[i] == k);
            }
        }
        if init.contains(k) {
            let i = choose|i: int| 0 <= i < init.len() && init[i] == k;
            assert(s[i] == k);
        }
        let d = first_of_each(init);
        if !init.contains(s.last()) {
            assert(d.push(s.last())[d.len() as int] == s.last());
            if d.push(s.last()).contains(k) {
                let i = choose|i: int| 0 <= i < d.len() + 1 && d.push(s.last())[i] == k;
                if i < d.len() {
                    assert(d[i] == k);
                }
            }
            if d.contains(k) {
                let i = choose|i: int| 0 <= i < d.len() && d[i] == k;
                assert(d.push(s.last())[i] == k);
            }
        }
    }
}

/// After de-duplication no request is repeated.
pub proof fn law_first_of_each_has_no_repeats(s: Seq<(u8, Seq<char>)>)
    ensures
        first_of_each(s).no_duplicates(),
    decreases s.len(),
{
    if s.len() > 0 {
        let init = s.drop_last();
        law_first_of_each_has_no_repeats(init);
        let d = first_of_each(init);
        if !init.contains(s.last()) {
            law_first_of_each_keeps_every_request(init, s.last());
            let e = d.push(s.last());
            assert forall|i: int, j: int| 0 <= i < e.len() && 0 <= j < e.len() && i != j implies e[i] != e[j] by {
                if i < d.len() && j < d.len() {
                    assert(e[i] == d[i] && e[j] == d[j]);
                } else if i < d.len() {
                    assert(e[i] == d[i]);
                    assert(d.contains(d[i]));
                } else {
                    assert(e[j] == d[j]);
                    assert(d.contains(d[j]));
                }
            }
        }
    }
}

/// Whether two requests are about the same thing.
fn same_request(a: &HotReloadRequest, b: &HotReloadRequest) -> (r: bool)
    ensures
        r == (a.key() == b.key()),
{
    match (a, b) {
        (HotReloadRequest::Source { file_id: x }, HotReloadRequest::Source { file_id: y }) => str_equal(
            x.as_str(),
            y.as_str(),
        ),
        (HotReloadRequest::Asset { asset_id: x }, HotReloadRequest::Asset { asset_id: y }) => str_equal(
            x.as_str(),
            y.as_str(),
        ),
        (HotReloadRequest::ForceReloadAll, HotReloadRequest::ForceReloadAll) => true,
        _ => false,
    }
}

fn copy_request(r: &HotReloadRequest) -> (c: HotReloadRequest)
    ensures
        c.key() == r.key(),
{
    match r {
        HotReloadRequest::Source { file_id } => HotReloadRequest::Source { file_id: file_id.clone() },
        HotReloadRequest::Asset { asset_id } => HotReloadRequest::Asset { asset_id: asset_id.clone() },
        HotReloadRequest::ForceReloadAll => HotReloadRequest::ForceReloadAll,
    }
}

/// A frame's requests with repeats dropped: the first request of each kind and name,
/// in the order they came.
pub fn dedup_hot_reload_requests(requests: &Vec<HotReloadRequest>) -> (r: Vec<HotReloadRequest>)
    ensures
        request_keys(r@) == first_of_each(request_keys(requests@)),
{
    let ghost all = request_keys(requests@);
    let mut out: Vec<HotReloadRequest> = Vec::new();
    let mut i: usize = 0;
    while i < requests.len()
        invariant
            i <= requests.len(),
            all == request_keys(requests@),
            request_keys(out@) == first_of_each(all.subrange(0, i as int)),
        decreases requests.len() - i,
    {
        let mut found = false;
        let mut j: usize = 0;
        while j < out.len()
            invariant
                j <= out.len(),
                i < requests.len(),
                found == request_keys(out@).subrange(0, j as int).contains(requests@[i as int].key()),
            decreases out.len() - j,
        {
            let same = same_request(&out[j], &requests[i]);
            proof {
                let ks = request_keys(out@);
                assert(ks.subrange(0, j + 1) =~= ks.subrange(0, j as int).push(ks[j as int]));
                if ks.subrange(0, j as int).contains(requests@[i as int].key()) {
                    let w = choose|w: int|
                        0 <= w < j && ks.subrange(0, j as int)[w] == requests@[i as int].key();
                    assert(ks.subrange(0, j + 1)[w] == requests@[i as int].key());
                }
                if same {
                    assert(ks.subrange(0, j + 1)[j as int] == requests@[i as int].key());
                }
            }
            found = found || same;
            j += 1;
        }
        proof {
            let prefix = all.subrange(0, i as int);
            let ks = request_keys(out@);
            assert(ks.subrange(0, out@.len() as int) =~= ks);
            law_first_of_each_keeps_every_request(prefix, all[i as int]);
            assert(all.subrange(0, i + 1).drop_last() =~= prefix);
            assert(all.subrange(0, i + 1).last() == all[i as int]);
        }
        if !found {
            let c = copy_request(&requests[i]);
            let ghost before = request_keys(out@);
            out.push(c);
            assert(request_keys(out@) =~= before.push(all[i as int]));
        }
        i += 1;
    }
    assert(all.subrange(0, requests@.len() as int) =~= all);
    out
}

/// What the preview does for a frame's requests.
#[derive(Debug)]
pub struct ReloadPlan {
    /// Source files whose cached text is dropped, in order.
    pub stale_sources: Vec<String>,
    /// Scene assets whose cached bodies are evicted, in order.
    pub evict_assets: Vec<String>,
    /// Every cache is cleared and the open logic graph is dropped.
    pub clear_everything: bool,
    /// The preview world must be rebuilt.
    pub mark_dirty: bool,
}

/// Model of a plan.
pub struct ReloadPlanV {
    pub stale_sources: Seq<Seq<char>>,
    pub evict_assets: Seq<Seq<char>>,
    pub clear_everything: bool,
    pub mark_dirty: bool,
}

impl ReloadPlan {
    pub open spec fn view(&self) -> ReloadPlanV {
        ReloadPlanV {
            stale_sources: crate::json::strs_view(self.stale_sources@),
            evict_assets: crate::json::strs_view(self.evict_assets@),
            clear_everything: self.clear_everything,
            mark_dirty: self.mark_dirty,
        }
    }
}

/// The plan for the request keys `ks`, taken in order: a source request drops that
/// file's text, an asset request evicts that body and marks the preview dirty, a
/// request for everything clears every cache, drops the logic graph and marks dirty.
pub open spec fn reload_plan(ks: Seq<(u8, Seq<char>)>) -> ReloadPlanV
    decreases ks.len(),
{
    if ks.len() == 0 {
        ReloadPlanV { stale_sources: Seq::empty(), evict_assets: Seq::empty(), clear_everything: false, mark_dirty: false }
    } else {
        let p = reload_plan(ks.drop_last());
        let k = ks.last();
        if k.0 == 0 {
            ReloadPlanV { stale_sources: p.stale_sources.push(k.1), ..p }
        } else if k.0 == 1 {
            ReloadPlanV { evict_assets: p.evict_assets.push(k.1), mark_dirty: true, ..p }
        } else {
            ReloadPlanV { clear_everything: true, mark_dirty: true, ..p }
        }
    }
}

/// The plan for a frame's requests, repeats dropped first.
pub fn plan_hot_reload(requests: &Vec<HotReloadRequest>) -> (r: ReloadPlan)
    ensures
        r@ == reload_plan(first_of_each(request_keys(requests@))),
{
    let kept = dedup_hot_reload_requests(requests);
    let ghost ks = request_keys(kept@);
    let mut plan = ReloadPlan { stale_sources: Vec::new(), evict_assets: Vec::new(), clear_everything: false, mark_dirty: false };
    let mut i: usize = 0;
    assert(ks.subrange(0, 0) =~= Seq::<(u8, Seq<char>)>::empty());
    assert(plan@.stale_sources =~= Seq::<Seq<char>>::empty());
    assert(plan@.evict_assets =~= Seq::<Seq<char>>::empty());
    while i < kept.len()
        invariant
            i <= kept.len(),
            ks == request_keys(kept@),
            plan@ == reload_plan(ks.subrange(0, i as int)),
        decreases kept.len() - i,
    {
        let ghost before = plan@;
        assert(ks.subrange(0, i + 1).drop_last() =~= ks.subrange(0, i as int));
        assert(ks.subrange(0, i + 1).last() == kept@[i as int].key());
        match &kept[i] {
            HotReloadRequest::Source { file_id } => {
                plan.stale_sources.push(file_id.clone());
                assert(plan@.stale_sources =~= before.stale_sources.push(file_id@));
            },
            HotReloadRequest::Asset { asset_id } => {
                plan.evict_assets.push(asset_id.clone());
                plan.mark_dirty = true;
                assert(plan@.evict_assets =~= before.evict_assets.push(asset_id@));
            },
            HotReloadRequest::ForceReloadAll => {
                plan.clear_everything = true;
                plan.mark_dirty = true;
            },
        }
        i += 1;
    }
    assert(ks.subrange(0, kept@.len() as int) =~= ks);
    plan
}

} // verus!
