use editor_core::hot_reload::{dedup_hot_reload_requests, plan_hot_reload, HotReloadRequest};

fn describe(r: &HotReloadRequest) -> String {
    match r {
        HotReloadRequest::Source { file_id } => format!("source:{}", file_id),
        HotReloadRequest::Asset { asset_id } => format!("asset:{}", asset_id),
        HotReloadRequest::ForceReloadAll => "all".to_string(),
    }
}

#[test]
fn dedup_keeps_first_of_each_kind_and_name() {
    let requests = vec![
        HotReloadRequest::Asset { asset_id: "a".to_string() },
        HotReloadRequest::Source { file_id: "a".to_string() },
        HotReloadRequest::Asset { asset_id: "a".to_string() },
        HotReloadRequest::ForceReloadAll,
        HotReloadRequest::Asset { asset_id: "b".to_string() },
        HotReloadRequest::ForceReloadAll,
        HotReloadRequest::Source { file_id: "a".to_string() },
    ];
    let kept: Vec<String> = dedup_hot_reload_requests(&requests).iter().map(describe).collect();
    assert_eq!(kept, vec!["asset:a", "source:a", "all", "asset:b"]);
}

#[test]
fn dedup_of_nothing_is_nothing() {
    assert!(dedup_hot_reload_requests(&Vec::new()).is_empty());
}

#[test]
fn plan_sorts_requests_into_actions() {
    let requests = vec![
        HotReloadRequest::Source { file_id: "s1".to_string() },
        HotReloadRequest::Asset { asset_id: "a".to_string() },
        HotReloadRequest::Source { file_id: "s1".to_string() },
        HotReloadRequest::Asset { asset_id: "b".to_string() },
    ];
    let plan = plan_hot_reload(&requests);
    assert_eq!(plan.stale_sources, vec!["s1".to_string()]);
    assert_eq!(plan.evict_assets, vec!["a".to_string(), "b".to_string()]);
    assert!(!plan.clear_everything);
    assert!(plan.mark_dirty);
    let only_sources = plan_hot_reload(&vec![HotReloadRequest::Source { file_id: "x".to_string() }]);
    assert!(!only_sources.mark_dirty);
    let all = plan_hot_reload(&vec![HotReloadRequest::ForceReloadAll]);
    assert!(all.clear_everything && all.mark_dirty);
    assert!(plan_hot_reload(&Vec::new()).evict_assets.is_empty());
}
