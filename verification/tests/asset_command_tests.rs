use editor_core::asset_command::{apply, set_field_path_vec, AssetCommand, AssetCommandError, AssetOperationLog};
use editor_core::document::ComponentInstance;
use editor_core::json::{JsonEntry, JsonValue};
use editor_core::scene_asset::{SceneAssetDocument, SceneAssetEntity, SceneAssetRole};

fn conv(v: &serde_json::Value) -> JsonValue {
    match v {
        serde_json::Value::Null => JsonValue::Null,
        serde_json::Value::Bool(b) => JsonValue::Bool(*b),
        serde_json::Value::Number(n) => JsonValue::Number(n.to_string()),
        serde_json::Value::String(s) => JsonValue::Str(s.clone()),
        serde_json::Value::Array(a) => JsonValue::Array(a.iter().map(conv).collect()),
        serde_json::Value::Object(m) => JsonValue::Object(
            m.iter().map(|(k, x)| JsonEntry { key: k.clone(), value: conv(x) }).collect(),
        ),
    }
}

fn back(v: &JsonValue) -> serde_json::Value {
    match v {
        JsonValue::Null => serde_json::Value::Null,
        JsonValue::Bool(b) => serde_json::Value::Bool(*b),
        JsonValue::Number(n) => serde_json::from_str(n).unwrap(),
        JsonValue::Str(s) => serde_json::Value::String(s.clone()),
        JsonValue::Array(a) => serde_json::Value::Array(a.iter().map(back).collect()),
        JsonValue::Object(es) => {
            let mut m = serde_json::Map::new();
            for e in es {
                m.insert(e.key.clone(), back(&e.value));
            }
            serde_json::Value::Object(m)
        }
    }
}

/// A JSON value written as JSON text.
fn j(text: &str) -> JsonValue {
    conv(&sj(text))
}

fn sj(text: &str) -> serde_json::Value {
    serde_json::from_str(text).unwrap()
}

/// The member `k` of an object.
fn at<'a>(v: &'a JsonValue, k: &str) -> &'a JsonValue {
    match v {
        JsonValue::Object(es) => &es.iter().find(|e| e.key == k).expect("member").value,
        _ => panic!("not an object"),
    }
}

fn empty_doc() -> SceneAssetDocument {
    SceneAssetDocument {
        asset_id: "id_test".to_string(),
        logical_path: "test/asset".to_string(),
        role: SceneAssetRole::Actor,
        version: 1,
        entities: vec![],
        relationships: vec![],
    }
}

fn entity(local_id: &str, name: &str, components: Vec<ComponentInstance>) -> SceneAssetEntity {
    SceneAssetEntity {
        local_id: local_id.to_string(),
        local_path: format!("./{}", local_id),
        name: name.to_string(),
        components,
    }
}

fn add(local_id: &str, name: &str) -> AssetCommand {
    AssetCommand::AddEntity {
        local_id: local_id.to_string(),
        name: name.to_string(),
        local_path: format!("./{}", local_id),
        components: vec![],
    }
}

fn transform() -> ComponentInstance {
    ComponentInstance { type_id: "editor.Transform2D".to_string(), values: j(r#"{"translation": {"x": 0.0, "y": 0.0}}"#) }
}

#[test]
fn test_add_entity_applies_and_inverts() {
    let mut doc = empty_doc();
    let inverse = apply(&mut doc, &add("a1", "A")).unwrap();
    assert_eq!(doc.entities.len(), 1);
    match inverse {
        AssetCommand::RemoveEntity { local_id } => assert_eq!(local_id, "a1"),
        _ => panic!("Expected RemoveEntity"),
    }
}

#[test]
fn test_remove_entity_inverse_contains_full_entity() {
    let mut doc = empty_doc();
    doc.entities.push(entity("a1", "A", vec![transform()]));
    let inverse = apply(&mut doc, &AssetCommand::RemoveEntity { local_id: "a1".to_string() }).unwrap();
    assert_eq!(doc.entities.len(), 0);
    match inverse {
        AssetCommand::AddEntity { local_id, name, local_path, components } => {
            assert_eq!(local_id, "a1");
            assert_eq!(name, "A");
            assert_eq!(local_path, "./a1");
            assert_eq!(components.len(), 1);
        }
        _ => panic!("Expected AddEntity"),
    }
}

#[test]
fn test_rename_entity_inverse_swaps_names() {
    let mut doc = empty_doc();
    doc.entities.push(entity("a1", "Original", vec![]));
    let cmd = AssetCommand::RenameEntity { local_id: "a1".to_string(), old_name: None, new_name: "New".to_string() };
    let inverse = apply(&mut doc, &cmd).unwrap();
    assert_eq!(doc.entities[0].name, "New");
    match inverse {
        AssetCommand::RenameEntity { local_id, old_name, new_name } => {
            assert_eq!(local_id, "a1");
            assert_eq!(old_name, Some("Original".to_string()));
            assert_eq!(new_name, "Original");
        }
        _ => panic!("Expected RenameEntity"),
    }
}

#[test]
fn test_set_component_value_inverse_restores_old_value() {
    let mut doc = empty_doc();
    doc.entities.push(entity("a1", "A", vec![transform()]));
    let cmd = AssetCommand::SetComponentValue {
        local_id: "a1".to_string(),
        type_id: "editor.Transform2D".to_string(),
        field_path: vec!["translation".to_string(), "x".to_string()],
        value: j("100.0"),
    };
    let inverse = apply(&mut doc, &cmd).unwrap();
    assert_eq!(back(at(at(&doc.entities[0].components[0].values, "translation"), "x")), sj("100.0"));
    apply(&mut doc, &inverse).unwrap();
    assert_eq!(back(at(at(&doc.entities[0].components[0].values, "translation"), "x")), sj("0.0"));
}

#[test]
fn asset_command_test_batch_inverse_reverses_order() {
    let mut doc = empty_doc();
    let cmd = AssetCommand::Batch { label: "test".to_string(), commands: vec![add("a1", "A"), add("a2", "B")] };
    let inverse = apply(&mut doc, &cmd).unwrap();
    assert_eq!(doc.entities.len(), 2);
    apply(&mut doc, &inverse).unwrap();
    assert_eq!(doc.entities.len(), 0);
}

#[test]
fn asset_command_test_set_field_path_vec_simple() {
    let mut v = j(r#"{"a": 1}"#);
    let old = set_field_path_vec(&mut v, &vec!["a".to_string()], j("99")).unwrap();
    assert_eq!(back(&old), sj("1"));
    assert_eq!(back(at(&v, "a")), sj("99"));
}

#[test]
fn asset_command_test_set_field_path_vec_nested() {
    let mut v = j(r#"{"a": {"b": {"c": 1}}}"#);
    let old = set_field_path_vec(&mut v, &vec!["a".to_string(), "b".to_string(), "c".to_string()], j("42")).unwrap();
    assert_eq!(back(&old), sj("1"));
    assert_eq!(back(at(at(at(&v, "a"), "b"), "c")), sj("42"));
}

#[test]
fn test_asset_operation_log_record_and_undo() {
    let mut log = AssetOperationLog::new_const();
    let mut doc = empty_doc();
    let cmd = add("a1", "A");
    let inverse = apply(&mut doc, &cmd).unwrap();
    log.record(&cmd, inverse);
    assert!(log.can_undo());
    assert!(!log.can_redo());
    log.undo(&mut doc).unwrap();
    assert_eq!(doc.entities.len(), 0);
    assert!(!log.can_undo());
    assert!(log.can_redo());
}

#[test]
fn test_asset_operation_log_redo() {
    let mut log = AssetOperationLog::new_const();
    let mut doc = empty_doc();
    let cmd = add("a1", "A");
    let inverse = apply(&mut doc, &cmd).unwrap();
    log.record(&cmd, inverse);
    log.undo(&mut doc).unwrap();
    assert_eq!(doc.entities.len(), 0);
    log.redo(&mut doc).unwrap();
    assert_eq!(doc.entities.len(), 1);
}

#[test]
fn test_asset_operation_log_is_dirty() {
    let log = AssetOperationLog::new_const();
    assert!(!log.is_dirty());
}

#[test]
fn test_asset_operation_log_clear() {
    let mut log = AssetOperationLog::new_const();
    let mut doc = empty_doc();
    let cmd = add("a1", "A");
    let inverse = apply(&mut doc, &cmd).unwrap();
    log.record(&cmd, inverse);
    log.clear();
    assert!(!log.can_undo());
    assert!(!log.can_redo());
    assert!(!log.is_dirty());
}

#[test]
fn asset_errors_for_missing_targets() {
    let mut doc = empty_doc();
    let r = apply(&mut doc, &AssetCommand::RemoveEntity { local_id: "nope".to_string() });
    assert!(matches!(r, Err(AssetCommandError::EntityNotFound(ref id)) if id == "nope"));
    doc.entities.push(entity("a1", "A", vec![transform()]));
    let r = apply(&mut doc, &add("a1", "Again"));
    assert!(r.is_err());
    assert_eq!(doc.entities.len(), 1);
    let mut v = j(r#"{"a": 1}"#);
    let r = set_field_path_vec(&mut v, &vec!["b".to_string()], j("2"));
    assert!(r.is_err());
    assert_eq!(back(&v), sj(r#"{"a": 1}"#));
}

#[test]
fn asset_log_undo_on_empty_reports_nothing_to_undo() {
    let mut log = AssetOperationLog::new();
    let mut doc = empty_doc();
    let r = log.undo(&mut doc);
    assert!(matches!(r, Err(AssetCommandError::JsonError(ref m)) if m == "Nothing to undo"));
    let r = log.redo(&mut doc);
    assert!(matches!(r, Err(AssetCommandError::JsonError(ref m)) if m == "Nothing to redo"));
}

#[test]
fn failed_batch_leaves_entities_exactly_as_they_were() {
    let mut doc = empty_doc();
    doc.entities.push(entity("a1", "A", vec![]));
    doc.entities.push(entity("a2", "B", vec![]));
    let cmd = AssetCommand::Batch {
        label: "x".to_string(),
        commands: vec![
            AssetCommand::RemoveEntity { local_id: "a1".to_string() },
            AssetCommand::RemoveEntity { local_id: "missing".to_string() },
        ],
    };
    let r = apply(&mut doc, &cmd);
    assert!(matches!(r, Err(AssetCommandError::BatchFailed { index: 1, .. })));
    let ids: Vec<String> = doc.entities.iter().map(|e| e.local_id.clone()).collect();
    assert_eq!(ids, vec!["a1".to_string(), "a2".to_string()]);
}
