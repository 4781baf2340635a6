use editor_core::command::{Command, CommandEnvelope, CommandMetadata};
use editor_core::document::{ComponentInstance, Entity, SceneDocument};
use editor_core::json::{JsonEntry, JsonValue};
use editor_core::operation_log::{OperationLog, OperationLogError};
use editor_core::processor::{apply_with_context, ProcessorContext};

fn conv(v: &serde_json::Value) -> JsonValue {
    match v {
        serde_json::Value::Null => JsonValue::Null,
        serde_json::Value::Bool(b) => JsonValue::Bool(*b),
        serde_json::Value::Number(n) => JsonValue::Number(n.to_string()),
        serde_json::Value::String(s) => JsonValue::Str(s.clone()),
        serde_json::Value::Array(a) => JsonValue::Array(a.iter().map(conv).collect()),
        serde_json::Value::Object(m) => JsonValue::Object(
            m.iter().map(|(k, x)| JsonEntry { key: k.clone(), value: conv(x) }).collect(),
        ),
    }
}

fn back(v: &JsonValue) -> serde_json::Value {
    match v {
        JsonValue::Null => serde_json::Value::Null,
        JsonValue::Bool(b) => serde_json::Value::Bool(*b),
        JsonValue::Number(n) => serde_json::from_str(n).unwrap(),
        JsonValue::Str(s) => serde_json::Value::String(s.clone()),
        JsonValue::Array(a) => serde_json::Value::Array(a.iter().map(back).collect()),
        JsonValue::Object(es) => {
            let mut m = serde_json::Map::new();
            for e in es {
                m.insert(e.key.clone(), back(&e.value));
            }
            serde_json::Value::Object(m)
        }
    }
}

/// A JSON value written as JSON text.
fn j(text: &str) -> JsonValue {
    conv(&sj(text))
}

fn sj(text: &str) -> serde_json::Value {
    serde_json::from_str(text).unwrap()
}

/// The member `k` of an object.
fn at<'a>(v: &'a JsonValue, k: &str) -> &'a JsonValue {
    match v {
        JsonValue::Object(es) => &es.iter().find(|e| e.key == k).expect("member").value,
        _ => panic!("not an object"),
    }
}

fn ctx() -> ProcessorContext {
    ProcessorContext {
        schema_types: vec!["editor.Transform2D".to_string(), "editor.Sprite2D".to_string(), "editor.Name".to_string()],
    }
}

fn apply(doc: &mut SceneDocument, cmd: &Command) {
    apply_with_context(doc, cmd, &ctx()).unwrap();
}

fn empty_doc() -> SceneDocument {
    SceneDocument {
        version: "0.1".to_string(),
        scene_id: "test".to_string(),
        name: "Test".to_string(),
        entities: vec![],
        instances: vec![],
    }
}

fn envelope_with(command: Command) -> CommandEnvelope {
    CommandEnvelope { command, metadata: CommandMetadata::now("test") }
}

fn create(id: &str, name: &str) -> Command {
    Command::CreateEntity { id: id.to_string(), name: name.to_string(), components: vec![] }
}

fn delete(id: &str) -> Command {
    Command::DeleteEntity { id: id.to_string() }
}

fn create_inverse() -> (Command, Command) {
    (create("ent_01", "Foo"), delete("ent_01"))
}

fn plain_entity(id: &str, name: &str) -> Entity {
    Entity { id: id.to_string(), local_id: id.to_string(), name: name.to_string(), parent: None, components: vec![] }
}

fn forward_id(log: &OperationLog, i: usize) -> String {
    match &log.get_log()[i].forward {
        Command::CreateEntity { id, .. } => id.clone(),
        _ => panic!("Expected CreateEntity"),
    }
}

#[test]
fn test_record_appends_and_advances_cursor() {
    let mut log = OperationLog::new();
    assert_eq!(log.get_log_size(), 0);
    assert!(!log.can_undo());
    let (fwd, inv) = create_inverse();
    log.record(&envelope_with(fwd), inv);
    assert_eq!(log.get_log_size(), 1);
    assert!(log.can_undo());
    assert!(!log.can_redo());
    assert_eq!(log.get_cursor(), 0);
}

#[test]
fn test_record_multiple_advances_cursor() {
    let mut log = OperationLog::new();
    for i in 0..3 {
        log.record(&envelope_with(create(&format!("e{}", i), &format!("E{}", i))), delete(&format!("e{}", i)));
    }
    assert_eq!(log.get_log_size(), 3);
    assert_eq!(log.get_cursor(), 2);
    assert!(log.can_undo());
    assert!(!log.can_redo());
}

#[test]
fn test_batch_logged_as_single_entry() {
    let mut log = OperationLog::new();
    let batch = Command::Batch { label: "drag".to_string(), commands: vec![create("e1", "E1"), create("e2", "E2")] };
    let inv_batch = Command::Batch { label: "inverse".to_string(), commands: vec![delete("e2"), delete("e1")] };
    log.record(&envelope_with(batch), inv_batch);
    assert_eq!(log.get_log_size(), 1);
    let entry = &log.get_log()[0];
    match &entry.forward {
        Command::Batch { commands, .. } => assert_eq!(commands.len(), 2),
        _ => panic!("Expected Batch"),
    }
}

#[test]
fn test_max_size_evicts_oldest() {
    let mut log = OperationLog::with_max_size(3);
    for i in 0..5 {
        log.record(&envelope_with(create(&format!("e{}", i), &format!("E{}", i))), delete(&format!("e{}", i)));
    }
    assert_eq!(log.get_log_size(), 3);
    assert_eq!(forward_id(&log, 0), "e2");
    assert_eq!(forward_id(&log, 2), "e4");
    assert_eq!(log.get_cursor(), 2);
}

#[test]
fn test_max_size_eviction_adjusts_cursor_after_undo() {
    let mut log = OperationLog::with_max_size(3);
    let mut doc = empty_doc();
    for i in 0..5 {
        let fwd = create(&format!("e{}", i), &format!("E{}", i));
        apply(&mut doc, &fwd);
        log.record(&envelope_with(fwd), delete(&format!("e{}", i)));
    }
    assert_eq!(log.get_cursor(), 2);
    let fwd = create("e5", "E5");
    apply(&mut doc, &fwd);
    log.record(&envelope_with(fwd), delete("e5"));
    assert_eq!(log.get_log_size(), 3);
    assert_eq!(log.get_cursor(), 2);
    assert_eq!(forward_id(&log, 0), "e3");
}

#[test]
fn test_undo_applies_inverse_and_moves_cursor_back() {
    let mut log = OperationLog::new();
    let mut doc = empty_doc();
    let (fwd, inv) = create_inverse();
    apply(&mut doc, &fwd);
    log.record(&envelope_with(fwd), inv);
    assert_eq!(doc.entities.len(), 1);
    log.undo(&mut doc, &ctx()).unwrap();
    assert_eq!(doc.entities.len(), 0);
    assert_eq!(log.get_cursor(), -1);
    assert!(!log.can_undo());
    assert!(log.can_redo());
}

#[test]
fn test_undo_at_start_returns_error() {
    let mut log = OperationLog::new();
    let mut doc = empty_doc();
    let result = log.undo(&mut doc, &ctx());
    assert!(matches!(result, Err(OperationLogError::NothingToUndo)));
}

#[test]
fn test_undo_after_truncate_returns_nothing() {
    let mut log = OperationLog::new();
    let mut doc = empty_doc();
    for i in 0..2 {
        let fwd = create(&format!("e{}", i), &format!("E{}", i));
        apply(&mut doc, &fwd);
        log.record(&envelope_with(fwd), delete(&format!("e{}", i)));
    }
    log.undo(&mut doc, &ctx()).unwrap();
    log.undo(&mut doc, &ctx()).unwrap();
    let (fwd, inv) = create_inverse();
    apply(&mut doc, &fwd);
    log.record(&envelope_with(fwd), inv);
    log.undo(&mut doc, &ctx()).unwrap();
    assert_eq!(log.get_cursor(), -1);
    let result = log.undo(&mut doc, &ctx());
    assert!(matches!(result, Err(OperationLogError::NothingToUndo)));
}

#[test]
fn test_redo_applies_forward_and_moves_cursor_forward() {
    let mut log = OperationLog::new();
    let mut doc = empty_doc();
    let (fwd, inv) = create_inverse();
    apply(&mut doc, &fwd);
    log.record(&envelope_with(fwd), inv);
    log.undo(&mut doc, &ctx()).unwrap();
    assert_eq!(log.get_cursor(), -1);
    assert!(log.can_redo());
    assert!(doc.entities.is_empty());
    log.redo(&mut doc, &ctx()).unwrap();
    assert_eq!(log.get_cursor(), 0);
    assert!(doc.entities.iter().any(|e| e.id == "ent_01"));
}

#[test]
fn test_redo_at_end_returns_error() {
    let mut log = OperationLog::new();
    let mut doc = empty_doc();
    let (fwd, inv) = create_inverse();
    log.record(&envelope_with(fwd), inv);
    let result = log.redo(&mut doc, &ctx());
    assert!(matches!(result, Err(OperationLogError::NothingToRedo)));
}

#[test]
fn test_redo_on_empty_log_returns_error() {
    let mut log = OperationLog::new();
    let mut doc = empty_doc();
    let result = log.redo(&mut doc, &ctx());
    assert!(matches!(result, Err(OperationLogError::NothingToRedo)));
}

#[test]
fn test_truncate_on_new_command_after_undo() {
    let mut log = OperationLog::new();
    let mut doc = empty_doc();
    for i in 0..3 {
        log.record(&envelope_with(create(&format!("e{}", i), &format!("E{}", i))), delete(&format!("e{}", i)));
        doc.entities.push(plain_entity(&format!("e{}", i), &format!("E{}", i)));
    }
    assert_eq!(log.get_log_size(), 3);
    log.undo(&mut doc, &ctx()).unwrap();
    log.undo(&mut doc, &ctx()).unwrap();
    assert_eq!(log.get_cursor(), 0);
    log.record(&envelope_with(create("new", "New")), delete("new"));
    assert_eq!(log.get_log_size(), 2);
    assert_eq!(forward_id(&log, 0), "e0");
    assert_eq!(forward_id(&log, 1), "new");
    assert!(!log.can_redo());
}

#[test]
fn test_no_truncate_at_end() {
    let mut log = OperationLog::new();
    for i in 0..3 {
        log.record(&envelope_with(create(&format!("e{}", i), &format!("E{}", i))), delete(&format!("e{}", i)));
    }
    log.record(&envelope_with(create("e3", "E3")), delete("e3"));
    assert_eq!(log.get_log_size(), 4);
}

#[test]
fn test_can_undo_can_redo_reflect_cursor() {
    let mut log = OperationLog::new();
    let mut doc = empty_doc();
    assert!(!log.can_undo());
    assert!(!log.can_redo());
    for i in 0..3 {
        let fwd = create(&format!("e{}", i), &format!("E{}", i));
        apply(&mut doc, &fwd);
        log.record(&envelope_with(fwd), delete(&format!("e{}", i)));
    }
    assert!(log.can_undo());
    assert!(!log.can_redo());
    log.undo(&mut doc, &ctx()).unwrap();
    assert!(log.can_undo());
    assert!(log.can_redo());
    log.undo(&mut doc, &ctx()).unwrap();
    log.undo(&mut doc, &ctx()).unwrap();
    assert!(!log.can_undo());
    assert!(log.can_redo());
    log.redo(&mut doc, &ctx()).unwrap();
    log.redo(&mut doc, &ctx()).unwrap();
    log.redo(&mut doc, &ctx()).unwrap();
    assert!(log.can_undo());
    assert!(!log.can_redo());
}

#[test]
fn test_undo_redo_roundtrip_restores_state() {
    let mut log = OperationLog::new();
    let mut doc = empty_doc();
    let (fwd, inv) = create_inverse();
    log.record(&envelope_with(fwd), inv);
    doc.entities.push(plain_entity("ent_01", "Foo"));
    log.undo(&mut doc, &ctx()).unwrap();
    assert!(doc.entities.is_empty());
    log.redo(&mut doc, &ctx()).unwrap();
    assert_eq!(doc.entities.len(), 1);
    assert_eq!(doc.entities[0].id, "ent_01");
}

#[test]
fn test_undo_redo_preserves_component_values() {
    let mut log = OperationLog::new();
    let mut doc = empty_doc();
    let fwd = Command::SetComponentField {
        entity_id: "e1".to_string(),
        type_id: "editor.Transform2D".to_string(),
        field_path: "translation.x".to_string(),
        value: j("999.0"),
    };
    let inv = Command::SetComponentField {
        entity_id: "e1".to_string(),
        type_id: "editor.Transform2D".to_string(),
        field_path: "translation.x".to_string(),
        value: j("0.0"),
    };
    log.record(&envelope_with(fwd), inv);
    doc.entities.push(Entity {
        id: "e1".to_string(),
        local_id: "e1".to_string(),
        name: "E1".to_string(),
        parent: None,
        components: vec![ComponentInstance {
            type_id: "editor.Transform2D".to_string(),
            values: j(r#"{"translation": {"x": 999.0, "y": 0.0}, "rotation": 0.0, "scale": {"x": 1.0, "y": 1.0}}"#),
        }],
    });
    log.undo(&mut doc, &ctx()).unwrap();
    assert_eq!(back(at(at(&doc.entities[0].components[0].values, "translation"), "x")), sj("0.0"));
    log.redo(&mut doc, &ctx()).unwrap();
    assert_eq!(back(at(at(&doc.entities[0].components[0].values, "translation"), "x")), sj("999.0"));
}

#[test]
fn test_undo_on_empty_log_returns_error_no_panic() {
    let mut log = OperationLog::new();
    let mut doc = empty_doc();
    let result = log.undo(&mut doc, &ctx());
    assert!(matches!(result, Err(OperationLogError::NothingToUndo)));
}

#[test]
fn test_redo_on_empty_log_returns_error_no_panic() {
    let mut log = OperationLog::new();
    let mut doc = empty_doc();
    let result = log.redo(&mut doc, &ctx());
    assert!(matches!(result, Err(OperationLogError::NothingToRedo)));
}

#[test]
fn test_get_log_size_on_empty() {
    let log = OperationLog::new();
    assert_eq!(log.get_log_size(), 0);
}

#[test]
fn test_clear_resets_log() {
    let mut log = OperationLog::new();
    let (fwd, inv) = create_inverse();
    log.record(&envelope_with(fwd), inv);
    assert_eq!(log.get_log_size(), 1);
    log.clear();
    assert_eq!(log.get_log_size(), 0);
    assert_eq!(log.get_cursor(), -1);
}

#[test]
fn recent_changes_newest_first_with_origin() {
    let mut log = OperationLog::new();
    log.record(&CommandEnvelope { command: create("a", "A"), metadata: CommandMetadata::now("user") }, delete("a"));
    log.record(&envelope_with(create("b", "B")), delete("b"));
    log.record_with_provenance(
        &CommandEnvelope { command: Command::RenameEntity { entity_id: "a".to_string(), old_name: None, new_name: "A2".to_string() }, metadata: CommandMetadata::now("agent:bot") },
        Command::RenameEntity { entity_id: "a".to_string(), old_name: None, new_name: "A".to_string() },
        "Agent".to_string(),
        "agent:bot".to_string(),
        Some("cs-1".to_string()),
    );
    let recent = log.recent_change_sets_for("a");
    assert_eq!(recent.len(), 2);
    assert_eq!(recent[0].change_id, Some("cs-1".to_string()));
    assert_eq!(recent[0].origin, "Agent");
    assert_eq!(recent[0].actor, "agent:bot");
    assert_eq!(recent[0].ops_touched, 1);
    assert_eq!(recent[1].origin, "Human");
    assert_eq!(log.recent_change_sets_for("zzz").len(), 0);
}
