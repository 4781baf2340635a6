use editor_core::command::Command;
use editor_core::instance_projection::{mint_instance_id, place_instance, plan_instance_placement, PlacementError};
use editor_core::json::{JsonEntry, JsonValue};
use editor_core::scene_asset::{RelationshipKind, SceneAssetDocument, SceneAssetEntity, SceneAssetRelationship, SceneAssetRole};

fn make_asset(entities: Vec<SceneAssetEntity>, relationships: Vec<SceneAssetRelationship>) -> SceneAssetDocument {
    SceneAssetDocument {
        asset_id: "asset_1".to_string(),
        logical_path: "actors/goblin".to_string(),
        role: SceneAssetRole::Actor,
        version: 3,
        entities,
        relationships,
    }
}

fn ent(id: &str) -> SceneAssetEntity {
    SceneAssetEntity { local_id: id.to_string(), local_path: id.to_string(), name: id.to_string(), components: vec![] }
}

fn child(from: &str, to: &str) -> SceneAssetRelationship {
    SceneAssetRelationship { from_local_id: from.to_string(), to_local_id: to.to_string(), kind: RelationshipKind::Child, field_path: None }
}

fn xy(x: &str, y: &str) -> JsonValue {
    JsonValue::Object(vec![
        JsonEntry { key: "x".to_string(), value: JsonValue::Number(x.to_string()) },
        JsonEntry { key: "y".to_string(), value: JsonValue::Number(y.to_string()) },
    ])
}

#[test]
fn placement_maps_every_entity_under_the_instance_id() {
    let asset = make_asset(vec![ent("root"), ent("weapon")], vec![child("root", "weapon")]);
    let cmd = plan_instance_placement(&asset, "actors/goblin", 3, "inst_1f", Some(Ok(xy("4", "5")))).unwrap();
    match cmd {
        Command::PlaceInstance {
            instance_id,
            asset_ref,
            asset_version,
            id_map,
            instance_components,
            component_overrides,
            orphaned_component_overrides,
        } => {
            assert_eq!(instance_id, "inst_1f");
            assert_eq!(asset_ref, "actors/goblin");
            assert_eq!(asset_version, 3);
            let pairs: Vec<(String, String)> = id_map.iter().map(|e| (e.local_id.clone(), e.stable_id.clone())).collect();
            assert_eq!(
                pairs,
                vec![
                    ("root".to_string(), "inst_1f_root".to_string()),
                    ("weapon".to_string(), "inst_1f_weapon".to_string())
                ]
            );
            assert_eq!(instance_components.len(), 1);
            assert_eq!(instance_components[0].type_id, "editor.Transform2D");
            match &instance_components[0].values {
                JsonValue::Object(es) => {
                    assert_eq!(es.len(), 1);
                    assert_eq!(es[0].key, "translation");
                }
                _ => panic!("transform values must be an object"),
            }
            assert!(component_overrides.is_empty());
            assert!(orphaned_component_overrides.is_empty());
        }
        _ => panic!("expected a placement"),
    }
}

#[test]
fn placement_without_translation_has_no_components() {
    let asset = make_asset(vec![ent("root")], vec![]);
    match plan_instance_placement(&asset, "a", 1, "inst_0", None).unwrap() {
        Command::PlaceInstance { instance_components, .. } => assert!(instance_components.is_empty()),
        _ => panic!("expected a placement"),
    }
}

#[test]
fn placement_refuses_empty_and_multi_rooted_assets() {
    let empty = make_asset(vec![], vec![]);
    let e = plan_instance_placement(&empty, "a", 1, "inst_0", None).unwrap_err();
    assert!(matches!(e, PlacementError::EmptyAsset));
    assert_eq!(e.to_string(), "Empty asset: cannot place instance with zero entities");

    let two = make_asset(vec![ent("a"), ent("b")], vec![]);
    let e = plan_instance_placement(&two, "a", 1, "inst_0", Some(Err("bad".to_string()))).unwrap_err();
    assert!(matches!(e, PlacementError::MultipleRoots(2)));
    assert_eq!(e.to_string(), "Multiple roots: asset has 2 root entities, expected 1");
}

#[test]
fn placement_refuses_bad_translations() {
    let asset = make_asset(vec![ent("root")], vec![]);
    let e = plan_instance_placement(&asset, "a", 1, "inst_0", Some(Err("EOF while parsing".to_string()))).unwrap_err();
    assert_eq!(e.to_string(), "Invalid translation JSON: EOF while parsing");
    let e = plan_instance_placement(&asset, "a", 1, "inst_0", Some(Ok(JsonValue::Number("3".to_string())))).unwrap_err();
    assert!(matches!(e, PlacementError::TranslationNotObject));
    assert_eq!(
        e.to_string(),
        "Invalid translation JSON: expected an object with `translation` or full Transform2D fields"
    );
}

#[test]
fn minted_ids_are_inst_and_lower_hex() {
    let id = mint_instance_id();
    assert!(id.starts_with("inst_"));
    let digits = &id["inst_".len()..];
    assert!(!digits.is_empty());
    assert!(digits.chars().all(|c| c.is_ascii_digit() || ('a'..='f').contains(&c)));
    let asset = make_asset(vec![ent("root")], vec![]);
    match place_instance(&asset, "a", 1, None).unwrap() {
        Command::PlaceInstance { instance_id, id_map, .. } => {
            assert!(instance_id.starts_with("inst_"));
            assert_eq!(id_map[0].stable_id, format!("{}_root", instance_id));
        }
        _ => panic!("expected a placement"),
    }
}
