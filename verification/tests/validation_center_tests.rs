use editor_core::document::{ComponentInstance, Entity, SceneDocument};
use editor_core::json::JsonValue;
use editor_core::validation_center::{
    collect_validation_issues, CatalogWarning, ValidationCategory, ValidationSeverity,
};

fn entity(id: &str, parent: Option<&str>, components: Vec<ComponentInstance>) -> Entity {
    Entity {
        id: id.to_string(),
        local_id: id.to_string(),
        name: id.to_string(),
        parent: parent.map(|p| p.to_string()),
        components,
    }
}

fn doc(entities: Vec<Entity>) -> SceneDocument {
    SceneDocument {
        version: "0.1".to_string(),
        scene_id: "scene_001".to_string(),
        name: "Test".to_string(),
        entities,
        instances: vec![],
    }
}

#[test]
fn no_warnings_no_issues() {
    assert!(collect_validation_issues(&Vec::new(), None).is_empty());
    assert!(collect_validation_issues(&Vec::new(), Some(&doc(vec![]))).is_empty());
}

#[test]
fn catalog_then_export_issues_are_numbered_in_order() {
    let catalog = vec![
        CatalogWarning {
            code: "orphaned_index".to_string(),
            message: "index entry without a file".to_string(),
            asset_id: Some("asset_9".to_string()),
            logical_path: Some("levels/a".to_string()),
        },
        CatalogWarning { code: "duplicate_path".to_string(), message: "two assets share a path".to_string(), asset_id: None, logical_path: None },
    ];
    let scene = doc(vec![
        entity("e1", Some("missing"), vec![]),
        entity("e2", None, vec![ComponentInstance { type_id: "game.PlayerHealth".to_string(), values: JsonValue::Null }]),
    ]);
    let issues = collect_validation_issues(&catalog, Some(&scene));
    let ids: Vec<&str> = issues.iter().map(|i| i.id.as_str()).collect();
    assert_eq!(ids, vec!["vi_1", "vi_2", "vi_3", "vi_4"]);

    assert_eq!(issues[0].category, ValidationCategory::Catalog);
    assert_eq!(issues[0].severity, ValidationSeverity::Warning);
    assert_eq!(issues[0].code, "orphaned_index");
    assert_eq!(issues[0].affected_asset_id, Some("asset_9".to_string()));
    assert_eq!(issues[0].affected_scene_id, None);
    assert_eq!(issues[1].code, "duplicate_path");

    assert_eq!(issues[2].category, ValidationCategory::Export);
    assert_eq!(issues[2].code, "export_warning");
    assert_eq!(issues[2].affected_entity_id, Some("e1".to_string()));
    assert_eq!(issues[2].affected_scene_id, Some("scene_001".to_string()));
    assert_eq!(issues[2].message, "Entity e1 parent missing not found in scene; exporting as root");

    assert_eq!(issues[3].code, "game.PlayerHealth");
    assert_eq!(issues[3].affected_entity_id, Some("e2".to_string()));
}

#[test]
fn ids_keep_counting_past_nine() {
    let catalog: Vec<CatalogWarning> = (0..11)
        .map(|n| CatalogWarning { code: format!("c{}", n), message: String::new(), asset_id: None, logical_path: None })
        .collect();
    let issues = collect_validation_issues(&catalog, None);
    assert_eq!(issues[9].id, "vi_10");
    assert_eq!(issues[10].id, "vi_11");
}
