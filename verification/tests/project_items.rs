use editor_core::preview_state::next_rebuild_count;
use editor_core::asset_files::{
    asset_file_path_from_id, is_supported_mime, AssetFile, AssetFileId, AssetFileKind, RESOURCE_DIR,
};
use editor_core::command::{CommandError, CommandMetadata};
use editor_core::dynamic_scene::{anchor_str_to_bevy, is_known_anchor_str, resolve_parent, ExportWarning};
use editor_core::document::Entity;
use editor_core::logic_evaluator::{
    evaluate_logic_binding, seed_builtin_evaluators, LogicError, LogicGraphRegistry, LogicNodeRegistry, PortValueType,
};
use editor_core::logic_graph::LogicGraphCatalogEntry;
use editor_core::logic_recipes::{is_builtin_recipe, list_builtin_recipes};
use editor_core::logic_state::{LogicGraphCatalog, LogicGraphCatalogError};
use editor_core::persistence::{derive_duplicate_path, scene_path, schema_path, template_path, ProjectMetadata};

fn entry(id: &str, path: &str, at: u64) -> LogicGraphCatalogEntry {
    LogicGraphCatalogEntry {
        asset_id: id.to_string(),
        logical_path: path.to_string(),
        builtin: false,
        created_at: at,
        updated_at: at,
    }
}

fn hero_file() -> AssetFile {
    AssetFile {
        id: AssetFileId::new("hero.png"),
        path: "hero.png".to_string(),
        name: "hero.png".to_string(),
        kind: AssetFileKind::Texture,
        mime_type: "image/png".to_string(),
        size_bytes: 4096,
    }
}

#[test]
fn asset_file_id_as_str() {
    let id = AssetFileId::new("player.png");
    assert_eq!(id.as_str(), "player.png");
    assert_eq!(id.as_str(), "player.png");
}

#[test]
fn asset_file_id_equality() {
    let id1 = AssetFileId::new("hero.png");
    let id2 = AssetFileId::new("hero.png");
    let id3 = AssetFileId::new("enemy.png");
    assert_eq!(id1, id2);
    assert_ne!(id1, id3);
}

#[test]
fn asset_file_id_ord() {
    let id1 = AssetFileId::new("a.png");
    let id2 = AssetFileId::new("b.png");
    assert!(id1 < id2);
    assert!(id2 > id1);
}

#[test]
fn test_asset_file_path_from_id() {
    assert_eq!(asset_file_path_from_id("player.png"), "resources/player.png");
    assert_eq!(asset_file_path_from_id("characters/hero.png"), "resources/characters/hero.png");
    assert_eq!(asset_file_path_from_id(""), "resources/");
}

#[test]
fn test_is_supported_mime_accepts_valid() {
    assert!(is_supported_mime("image/png"));
    assert!(is_supported_mime("image/jpeg"));
    assert!(is_supported_mime("image/gif"));
    assert!(is_supported_mime("image/webp"));
    assert!(is_supported_mime("image/svg+xml"));
}

#[test]
fn test_is_supported_mime_rejects_invalid() {
    assert!(!is_supported_mime("application/zip"));
    assert!(!is_supported_mime("text/plain"));
    assert!(!is_supported_mime("audio/mpeg"));
    assert!(!is_supported_mime("video/mp4"));
    assert!(!is_supported_mime("image/tiff"));
}

#[test]
fn resource_dir_constant() {
    assert_eq!(RESOURCE_DIR, "resources");
}

#[test]
fn asset_file_clone() {
    let file = hero_file();
    let cloned = file.clone();
    assert_eq!(cloned, file);
    assert_eq!(cloned.id, file.id);
    assert_eq!(cloned.path, file.path);
    assert_eq!(cloned.name, file.name);
    assert_eq!(cloned.mime_type, file.mime_type);
    assert_eq!(cloned.size_bytes, file.size_bytes);
}

#[test]
fn asset_file_debug() {
    let file = hero_file();
    let debug = format!("{:?}", file);
    assert!(debug.contains("AssetFile"));
    assert!(debug.contains("hero.png"));
}

#[test]
fn test_metadata_with_rationale_helper() {
    let m = CommandMetadata::now("user").with_rationale("test reason");
    assert_eq!(m.authorship, "user");
    assert_eq!(m.rationale, Some("test reason".to_string()));
}

#[test]
fn test_command_error_display() {
    let err = CommandError::EntityNotFound("ent_missing".to_string());
    let msg = err.to_string();
    assert!(msg.contains("ent_missing"));
}

#[test]
fn command_error_messages_are_exact() {
    assert_eq!(CommandError::EntityNotFound("e1".to_string()).to_string(), "Entity not found: e1");
    let nested = CommandError::BatchFailed {
        index: 12,
        source: Box::new(CommandError::DuplicateId("x".to_string())),
    };
    assert_eq!(nested.to_string(), "Batch failed at command 12: Duplicate entity id: x");
    assert_eq!(CommandError::MultipleRoots(3).to_string(), "Multiple roots: asset has 3 root entities, expected 1");
}

#[test]
fn test_is_known_anchor_str() {
    assert!(is_known_anchor_str("Center"));
    assert!(is_known_anchor_str("TopLeft"));
    assert!(is_known_anchor_str("TopCenter"));
    assert!(is_known_anchor_str("TopRight"));
    assert!(is_known_anchor_str("CenterLeft"));
    assert!(is_known_anchor_str("CenterRight"));
    assert!(is_known_anchor_str("BottomLeft"));
    assert!(is_known_anchor_str("BottomCenter"));
    assert!(is_known_anchor_str("BottomRight"));
    assert!(!is_known_anchor_str("center"));
    assert!(!is_known_anchor_str(""));
    assert!(!is_known_anchor_str("NotAnAnchor"));
}

#[test]
fn anchor_names_map_to_themselves() {
    assert_eq!(anchor_str_to_bevy("TopRight"), Some("TopRight"));
    assert_eq!(anchor_str_to_bevy("middle"), None);
}

#[test]
fn resolve_parent_warns_on_orphans() {
    let ids = vec!["a".to_string()];
    let mut warnings: Vec<ExportWarning> = Vec::new();
    let child = Entity {
        id: "b".to_string(),
        local_id: "b".to_string(),
        name: "B".to_string(),
        parent: Some("a".to_string()),
        components: vec![],
    };
    assert_eq!(resolve_parent(&child, &ids, &mut warnings), Some("a".to_string()));
    assert!(warnings.is_empty());
    let orphan = Entity { parent: Some("zz".to_string()), ..child };
    assert_eq!(resolve_parent(&orphan, &ids, &mut warnings), None);
    assert_eq!(warnings.len(), 1);
    assert_eq!(warnings[0].entity_stable_id, Some("b".to_string()));
    assert_eq!(warnings[0].message, "Entity b parent zz not found in scene; exporting as root");
}

#[test]
fn port_value_type_enum_does_not_contain_json_value() {
    let vt: PortValueType = PortValueType::Bool;
    assert!(matches!(vt, PortValueType::Bool));
}

#[test]
fn test_evaluate_logic_binding_missing_asset() {
    let graphs = LogicGraphRegistry::new();
    let mut registry = LogicNodeRegistry::new();
    seed_builtin_evaluators(&mut registry);
    let result = evaluate_logic_binding(&graphs, &registry, "nonexistent.asset", 1, 0);
    assert!(result.is_err());
    let err = result.unwrap_err();
    assert!(matches!(err, LogicError::AssetNotFound(id) if id == "nonexistent.asset"));
}

#[test]
fn is_builtin_recipe_correctly_identifies() {
    assert!(is_builtin_recipe("lga_recipe_jump"));
    assert!(is_builtin_recipe("lga_recipe_health"));
    assert!(is_builtin_recipe("lga_recipe_proximity"));
    assert!(!is_builtin_recipe("lga_user_graph"));
}

#[test]
fn list_builtin_recipes_returns_three() {
    let recipes = list_builtin_recipes();
    assert_eq!(recipes.len(), 3);
    assert!(recipes.iter().all(|r| r.node_count == 3));
    assert_eq!(recipes[0].name, "Platformer Jump");
    assert_eq!(recipes[2].asset_id, "lga_recipe_proximity");
}

#[test]
fn catalog_list_all_empty_when_new() {
    let cat = LogicGraphCatalog::new();
    assert!(cat.list_all().is_empty());
}

#[test]
fn catalog_register_inserts_entry() {
    let mut cat = LogicGraphCatalog::new();
    let e = entry("test_graph", "logic/test", 1000);
    cat.register(e.clone()).unwrap();
    assert_eq!(cat.list_all().len(), 1);
    assert_eq!(cat.get("test_graph").unwrap().asset_id, "test_graph");
}

#[test]
fn catalog_register_rejects_duplicate_asset_id() {
    let mut cat = LogicGraphCatalog::new();
    let e = entry("dup", "logic/dup", 1000);
    cat.register(e.clone()).unwrap();
    let result = cat.register(e);
    assert!(result.is_err());
    assert!(matches!(result, Err(LogicGraphCatalogError::DuplicateAssetId { id }) if id == "dup"));
}

#[test]
fn catalog_unregister_removes_entry() {
    let mut cat = LogicGraphCatalog::new();
    cat.register(entry("remove_me", "logic/remove", 1000)).unwrap();
    cat.unregister("remove_me");
    assert!(cat.get("remove_me").is_none());
}

#[test]
fn catalog_seed_populates_entries() {
    let mut cat = LogicGraphCatalog::new();
    cat.seed(vec![entry("seed_a", "logic/seed_a", 1000), entry("seed_b", "logic/seed_b", 2000)]);
    assert_eq!(cat.list_all().len(), 2);
    assert!(cat.get("seed_a").is_some());
    assert!(cat.get("seed_b").is_some());
}

#[test]
fn catalog_path_index_allows_lookup_by_path() {
    let mut cat = LogicGraphCatalog::new();
    cat.register(entry("g1", "logic/graph_one", 1000)).unwrap();
    cat.register(entry("g2", "logic/graph_two", 1000)).unwrap();
    assert_eq!(cat.get("g1").unwrap().logical_path, "logic/graph_one");
    assert_eq!(cat.get("g2").unwrap().logical_path, "logic/graph_two");
}

#[test]
fn catalog_lists_in_asset_id_order() {
    let mut cat = LogicGraphCatalog::new();
    cat.register(entry("zeta", "logic/z", 1)).unwrap();
    cat.register(entry("alpha", "logic/a", 2)).unwrap();
    cat.register(entry("mid", "logic/m", 3)).unwrap();
    let ids: Vec<String> = cat.list_all().into_iter().map(|e| e.asset_id).collect();
    assert_eq!(ids, vec!["alpha".to_string(), "mid".to_string(), "zeta".to_string()]);
    let removed = cat.unregister("mid").unwrap();
    assert_eq!(removed.logical_path, "logic/m");
    assert!(cat.unregister("mid").is_none());
}

#[test]
fn test_project_metadata_default() {
    let pm = ProjectMetadata::default();
    assert_eq!(pm.version, "0.1");
    assert_eq!(pm.name, "Untitled Project");
    assert!(pm.scenes.is_empty());
    assert!(pm.schemas.is_empty());
}

#[test]
fn test_scene_path_format() {
    assert_eq!(scene_path("level_01"), "scenes/level_01.scene.json");
    assert_eq!(scene_path("boss_room"), "scenes/boss_room.scene.json");
}

#[test]
fn test_schema_path_format() {
    assert_eq!(schema_path("editor.Transform2D"), "schemas/editor.Transform2D.schema.json");
    assert_eq!(schema_path("game.PlayerHealth"), "schemas/game.PlayerHealth.schema.json");
}

#[test]
fn template_path_format() {
    assert_eq!(template_path("enemy_goblin"), "entities/enemy_goblin.template.json");
}

#[test]
fn add_scene_lists_each_scene_once() {
    let mut pm = ProjectMetadata::default();
    pm.add_scene("level_01");
    pm.add_scene("boss_room");
    pm.add_scene("level_01");
    assert_eq!(pm.scenes, vec!["level_01".to_string(), "boss_room".to_string()]);
}

#[test]
fn set_schema_adds_once_and_removes_every_copy() {
    let mut pm = ProjectMetadata::default();
    pm.set_schema("game.Health", true);
    pm.set_schema("game.Speed", true);
    pm.set_schema("game.Health", true);
    assert_eq!(pm.schemas, vec!["game.Health".to_string(), "game.Speed".to_string()]);
    pm.schemas.push("game.Health".to_string());
    pm.set_schema("game.Health", false);
    assert_eq!(pm.schemas, vec!["game.Speed".to_string()]);
    pm.set_schema("game.Missing", false);
    assert_eq!(pm.schemas, vec!["game.Speed".to_string()]);
}

#[test]
fn duplicate_path_appends_first_free_counter() {
    let none: Vec<String> = Vec::new();
    assert_eq!(derive_duplicate_path("sprites/hero", &none), "sprites/hero_2");
    let taken = vec!["sprites/hero_2".to_string(), "sprites/hero_3".to_string()];
    assert_eq!(derive_duplicate_path("sprites/hero", &taken), "sprites/hero_4");
}

#[test]
fn duplicate_path_falls_back_when_all_taken() {
    let mut taken: Vec<String> = Vec::new();
    for n in 2..=100 {
        taken.push(format!("a_{}", n));
    }
    assert_eq!(derive_duplicate_path("a", &taken), "a_2");
    taken.pop();
    assert_eq!(derive_duplicate_path("a", &taken), "a_100");
}

#[test]
fn hex_formatting_matches_format_macro() {
    for n in [0u64, 9, 10, 15, 16, 255, 4096, 0xdead_beef, u64::MAX] {
        assert_eq!(editor_core::text::u64_to_hex(n), format!("{:x}", n));
    }
    for n in [0u128, 7, 10, 99, 12345678901234567890, u128::MAX] {
        assert_eq!(editor_core::text::u128_to_decimal(n), format!("{}", n));
    }
}

#[test]
fn rebuild_count_saturates() {
    assert_eq!(next_rebuild_count(0), 1);
    assert_eq!(next_rebuild_count(41), 42);
    assert_eq!(next_rebuild_count(u32::MAX), u32::MAX);
}

#[test]
fn unregister_after_register_restores_listing() {
    let mut cat = LogicGraphCatalog::new();
    cat.register(entry("b", "logic/b", 2)).unwrap();
    cat.register(entry("d", "logic/d", 4)).unwrap();
    let before: Vec<String> = cat.list_all().iter().map(|e| e.asset_id.clone()).collect();
    cat.register(entry("c", "logic/c", 3)).unwrap();
    let removed = cat.unregister("c").unwrap();
    assert_eq!(removed.asset_id, "c");
    let after: Vec<String> = cat.list_all().iter().map(|e| e.asset_id.clone()).collect();
    assert_eq!(after, before);
    assert!(cat.unregister("c").is_none());
}
