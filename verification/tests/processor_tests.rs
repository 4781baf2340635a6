use editor_core::command::{Command, CommandError};
use editor_core::document::{
    clone_document, ComponentInstance, ComponentOverride, ComponentOverrideStatus, Entity, SceneDocument, SceneInstance,
};
use editor_core::json::{JsonEntry, JsonValue};
use editor_core::processor::{apply_with_context, set_field_path, ProcessorContext};

fn conv(v: &serde_json::Value) -> JsonValue {
    match v {
        serde_json::Value::Null => JsonValue::Null,
        serde_json::Value::Bool(b) => JsonValue::Bool(*b),
        serde_json::Value::Number(n) => JsonValue::Number(n.to_string()),
        serde_json::Value::String(s) => JsonValue::Str(s.clone()),
        serde_json::Value::Array(a) => JsonValue::Array(a.iter().map(conv).collect()),
        serde_json::Value::Object(m) => JsonValue::Object(
            m.iter().map(|(k, x)| JsonEntry { key: k.clone(), value: conv(x) }).collect(),
        ),
    }
}

fn back(v: &JsonValue) -> serde_json::Value {
    match v {
        JsonValue::Null => serde_json::Value::Null,
        JsonValue::Bool(b) => serde_json::Value::Bool(*b),
        JsonValue::Number(n) => serde_json::from_str(n).unwrap(),
        JsonValue::Str(s) => serde_json::Value::String(s.clone()),
        JsonValue::Array(a) => serde_json::Value::Array(a.iter().map(back).collect()),
        JsonValue::Object(es) => {
            let mut m = serde_json::Map::new();
            for e in es {
                m.insert(e.key.clone(), back(&e.value));
            }
            serde_json::Value::Object(m)
        }
    }
}

/// A JSON value written as JSON text.
fn j(text: &str) -> JsonValue {
    conv(&sj(text))
}

fn sj(text: &str) -> serde_json::Value {
    serde_json::from_str(text).unwrap()
}

/// The member `k` of an object.
fn at<'a>(v: &'a JsonValue, k: &str) -> &'a JsonValue {
    match v {
        JsonValue::Object(es) => &es.iter().find(|e| e.key == k).expect("member").value,
        _ => panic!("not an object"),
    }
}

/// The component types that the built-in schema registry knows.
fn ctx() -> ProcessorContext {
    ProcessorContext {
        schema_types: vec![
            "editor.Transform2D".to_string(),
            "editor.Sprite2D".to_string(),
            "editor.Name".to_string(),
            "editor.Visible".to_string(),
            "editor.Locked".to_string(),
        ],
    }
}

fn apply(doc: &mut SceneDocument, cmd: &Command) -> Result<Command, CommandError> {
    apply_with_context(doc, cmd, &ctx())
}

fn empty_doc() -> SceneDocument {
    SceneDocument {
        version: "0.1".to_string(),
        scene_id: "test".to_string(),
        name: "Test".to_string(),
        entities: vec![],
        instances: vec![],
    }
}

fn same(a: &SceneDocument, b: &SceneDocument) -> bool {
    format!("{:?}", a) == format!("{:?}", b)
}

fn entity_with_components(id: &str, name: &str, components: Vec<ComponentInstance>) -> Entity {
    Entity { id: id.to_string(), local_id: id.to_string(), name: name.to_string(), parent: None, components }
}

fn transform2d(x: f32, y: f32) -> ComponentInstance {
    ComponentInstance {
        type_id: "editor.Transform2D".to_string(),
        values: j(&format!(
            r#"{{"translation": {{"x": {:?}, "y": {:?}}}, "rotation": 0.0, "scale": {{"x": 1.0, "y": 1.0}}}}"#,
            x, y
        )),
    }
}

fn create(id: &str, name: &str) -> Command {
    Command::CreateEntity { id: id.to_string(), name: name.to_string(), components: vec![] }
}

fn instance<'a>(doc: &'a SceneDocument, id: &str) -> &'a SceneInstance {
    doc.instances.iter().find(|i| i.instance_id == id).unwrap()
}

fn instance_mut<'a>(doc: &'a mut SceneDocument, id: &str) -> &'a mut SceneInstance {
    doc.instances.iter_mut().find(|i| i.instance_id == id).unwrap()
}

#[test]
fn test_create_entity_adds_fresh_entity() {
    let mut doc = empty_doc();
    let inverse = apply(&mut doc, &create("ent_new", "Foo")).unwrap();
    assert_eq!(doc.entities.len(), 1);
    assert_eq!(doc.entities[0].id, "ent_new");
    match inverse {
        Command::DeleteEntity { id } => assert_eq!(id, "ent_new"),
        _ => panic!("Wrong inverse variant"),
    }
}

#[test]
fn test_create_entity_rejects_duplicate_id() {
    let mut doc = empty_doc();
    doc.entities.push(entity_with_components("ent_dup", "Foo", vec![]));
    let result = apply(&mut doc, &create("ent_dup", "Bar"));
    assert!(matches!(result, Err(CommandError::DuplicateId(_))));
    assert_eq!(doc.entities.len(), 1);
}

#[test]
fn test_delete_entity_removes_leaf() {
    let mut doc = empty_doc();
    doc.entities.push(entity_with_components("ent_01", "Foo", vec![]));
    let inverse = apply(&mut doc, &Command::DeleteEntity { id: "ent_01".to_string() }).unwrap();
    assert_eq!(doc.entities.len(), 0);
    assert!(matches!(inverse, Command::CreateEntity { .. }));
}

#[test]
fn test_delete_entity_reparents_children_to_root() {
    let mut doc = empty_doc();
    doc.entities.push(entity_with_components("parent", "Parent", vec![]));
    doc.entities.push(Entity {
        id: "child".to_string(),
        local_id: "child".to_string(),
        name: "Child".to_string(),
        parent: Some("parent".to_string()),
        components: vec![],
    });
    apply(&mut doc, &Command::DeleteEntity { id: "parent".to_string() }).unwrap();
    assert_eq!(doc.entities.len(), 1);
    assert_eq!(doc.entities[0].parent, None);
}

#[test]
fn test_delete_entity_missing_fails() {
    let mut doc = empty_doc();
    let result = apply(&mut doc, &Command::DeleteEntity { id: "ent_missing".to_string() });
    assert!(matches!(result, Err(CommandError::EntityNotFound(_))));
}

#[test]
fn test_add_component_with_valid_schema() {
    let mut doc = empty_doc();
    doc.entities.push(entity_with_components("ent_01", "Foo", vec![]));
    let cmd = Command::AddComponent {
        entity_id: "ent_01".to_string(),
        type_id: "editor.Transform2D".to_string(),
        values: j(r#"{"translation": {"x": 1.0, "y": 2.0}, "rotation": 0.0, "scale": {"x": 1.0, "y": 1.0}}"#),
    };
    apply(&mut doc, &cmd).unwrap();
    assert_eq!(doc.entities[0].components.len(), 1);
    assert_eq!(doc.entities[0].components[0].type_id, "editor.Transform2D");
}

#[test]
fn test_add_component_unknown_schema_rejected() {
    let mut doc = empty_doc();
    doc.entities.push(entity_with_components("ent_01", "Foo", vec![]));
    let cmd = Command::AddComponent {
        entity_id: "ent_01".to_string(),
        type_id: "editor.Bogus".to_string(),
        values: j("{}"),
    };
    let result = apply(&mut doc, &cmd);
    assert!(matches!(result, Err(CommandError::UnknownSchema(_))));
    assert!(doc.entities[0].components.is_empty());
}

#[test]
fn test_add_component_preserves_unknown_fields() {
    let mut doc = empty_doc();
    doc.entities.push(entity_with_components("ent_01", "Foo", vec![]));
    let cmd = Command::AddComponent {
        entity_id: "ent_01".to_string(),
        type_id: "editor.Transform2D".to_string(),
        values: j(
            r#"{"translation": {"x": 0.0, "y": 0.0}, "rotation": 0.0, "scale": {"x": 1.0, "y": 1.0}, "future_field": 42}"#,
        ),
    };
    apply(&mut doc, &cmd).unwrap();
    let val = &doc.entities[0].components[0].values;
    assert_eq!(back(at(val, "future_field")), sj("42"));
}

#[test]
fn test_remove_component_removes_existing() {
    let mut doc = empty_doc();
    doc.entities.push(entity_with_components("ent_01", "Foo", vec![transform2d(0.0, 0.0)]));
    let cmd = Command::RemoveComponent { entity_id: "ent_01".to_string(), type_id: "editor.Transform2D".to_string() };
    apply(&mut doc, &cmd).unwrap();
    assert!(doc.entities[0].components.is_empty());
}

#[test]
fn test_remove_component_absent_is_noop() {
    let mut doc = empty_doc();
    doc.entities.push(entity_with_components("ent_01", "Foo", vec![]));
    let cmd = Command::RemoveComponent { entity_id: "ent_01".to_string(), type_id: "editor.Sprite2D".to_string() };
    let inverse = apply(&mut doc, &cmd).unwrap();
    assert!(matches!(inverse, Command::RemoveComponent { .. }));
    assert!(doc.entities[0].components.is_empty());
}

#[test]
fn test_set_component_field_simple_path() {
    let mut doc = empty_doc();
    doc.entities.push(entity_with_components("ent_01", "Foo", vec![transform2d(0.0, 0.0)]));
    let cmd = Command::SetComponentField {
        entity_id: "ent_01".to_string(),
        type_id: "editor.Transform2D".to_string(),
        field_path: "translation.x".to_string(),
        value: j("100.0"),
    };
    apply(&mut doc, &cmd).unwrap();
    let val = &doc.entities[0].components[0].values;
    assert_eq!(back(at(at(val, "translation"), "x")), sj("100.0"));
    assert_eq!(back(at(at(val, "translation"), "y")), sj("0.0"));
}

#[test]
fn test_set_component_field_nested_path() {
    let mut doc = empty_doc();
    doc.entities.push(entity_with_components(
        "ent_01",
        "Foo",
        vec![ComponentInstance {
            type_id: "editor.Sprite2D".to_string(),
            values: j(r#"{"color": {"r": 1.0, "g": 1.0, "b": 1.0, "a": 1.0}}"#),
        }],
    ));
    let cmd = Command::SetComponentField {
        entity_id: "ent_01".to_string(),
        type_id: "editor.Sprite2D".to_string(),
        field_path: "color.r".to_string(),
        value: j("0.5"),
    };
    apply(&mut doc, &cmd).unwrap();
    let val = &doc.entities[0].components[0].values;
    assert_eq!(back(at(at(val, "color"), "r")), sj("0.5"));
    assert_eq!(back(at(at(val, "color"), "g")), sj("1.0"));
}

#[test]
fn test_set_component_field_missing_fails() {
    let mut doc = empty_doc();
    doc.entities.push(entity_with_components("ent_01", "Foo", vec![transform2d(0.0, 0.0)]));
    let cmd = Command::SetComponentField {
        entity_id: "ent_01".to_string(),
        type_id: "editor.Transform2D".to_string(),
        field_path: "nonexistent.field".to_string(),
        value: j("42"),
    };
    let result = apply(&mut doc, &cmd);
    assert!(matches!(result, Err(CommandError::FieldNotFound(_))));
}

#[test]
fn test_reparent_entity_valid() {
    let mut doc = empty_doc();
    doc.entities.push(entity_with_components("A", "A", vec![]));
    doc.entities.push(entity_with_components("B", "B", vec![]));
    let cmd = Command::ReparentEntity {
        entity_id: "A".to_string(),
        old_parent: None,
        new_parent: Some("B".to_string()),
    };
    let inverse = apply(&mut doc, &cmd).unwrap();
    assert_eq!(doc.entities[0].parent, Some("B".to_string()));
    match inverse {
        Command::ReparentEntity { old_parent, new_parent, .. } => {
            assert_eq!(old_parent, None);
            assert_eq!(new_parent, None);
        }
        _ => panic!("Wrong inverse"),
    }
}

#[test]
fn test_reparent_entity_cycle_rejected() {
    let mut doc = empty_doc();
    doc.entities.push(entity_with_components("A", "A", vec![]));
    doc.entities.push(entity_with_components("B", "B", vec![]));
    doc.entities.push(Entity {
        id: "C".to_string(),
        local_id: "C".to_string(),
        name: "C".to_string(),
        parent: Some("B".to_string()),
        components: vec![],
    });
    let cmd = Command::ReparentEntity { entity_id: "A".to_string(), old_parent: None, new_parent: Some("C".to_string()) };
    let cmd_self = Command::ReparentEntity { entity_id: "A".to_string(), old_parent: None, new_parent: Some("A".to_string()) };
    let result = apply(&mut doc, &cmd_self);
    assert!(matches!(result, Err(CommandError::WouldCreateCycle(_))));
    let _ = apply(&mut doc, &cmd);
    let cmd_cycle = Command::ReparentEntity { entity_id: "B".to_string(), old_parent: None, new_parent: Some("A".to_string()) };
    let result = apply(&mut doc, &cmd_cycle);
    assert!(matches!(result, Err(CommandError::WouldCreateCycle(_))));
}

#[test]
fn test_rename_entity_updates_name_preserves_id() {
    let mut doc = empty_doc();
    doc.entities.push(entity_with_components("ent_01J", "Player", vec![]));
    let cmd = Command::RenameEntity { entity_id: "ent_01J".to_string(), old_name: None, new_name: "PlayerSpawn".to_string() };
    apply(&mut doc, &cmd).unwrap();
    assert_eq!(doc.entities[0].name, "PlayerSpawn");
    assert_eq!(doc.entities[0].id, "ent_01J");
}

#[test]
fn test_batch_applies_all_commands() {
    let mut doc = empty_doc();
    let cmd = Command::Batch { label: "test-batch".to_string(), commands: vec![create("ent_01", "Foo"), create("ent_02", "Bar")] };
    apply(&mut doc, &cmd).unwrap();
    assert_eq!(doc.entities.len(), 2);
}

#[test]
fn test_batch_atomic_rollback_on_failure() {
    let mut doc = empty_doc();
    let cmd = Command::Batch {
        label: "test-batch".to_string(),
        commands: vec![
            create("ent_01", "Foo"),
            Command::AddComponent { entity_id: "ent_01".to_string(), type_id: "editor.Bogus".to_string(), values: j("{}") },
        ],
    };
    let result = apply(&mut doc, &cmd);
    assert!(matches!(result, Err(CommandError::BatchFailed { .. })));
    assert_eq!(doc.entities.len(), 0);
}

#[test]
fn processor_test_batch_inverse_reverses_order() {
    let mut doc = empty_doc();
    let cmd = Command::Batch { label: "test".to_string(), commands: vec![create("A", "A"), create("B", "B"), create("C", "C")] };
    let inverse = apply(&mut doc, &cmd).unwrap();
    match inverse {
        Command::Batch { commands, .. } => {
            assert_eq!(commands.len(), 3);
            match &commands[0] {
                Command::DeleteEntity { id } => assert_eq!(id, "C"),
                _ => panic!("Wrong first inverse"),
            }
            match &commands[2] {
                Command::DeleteEntity { id } => assert_eq!(id, "A"),
                _ => panic!("Wrong last inverse"),
            }
        }
        _ => panic!("Wrong inverse variant"),
    }
}

#[test]
fn test_forward_inverse_roundtrip_create_entity() {
    let mut doc = empty_doc();
    let original_len = doc.entities.len();
    let inverse = apply(&mut doc, &create("ent_01", "Foo")).unwrap();
    assert_eq!(doc.entities.len(), original_len + 1);
    apply(&mut doc, &inverse).unwrap();
    assert_eq!(doc.entities.len(), original_len);
    assert!(same(&doc, &empty_doc()));
}

#[test]
fn test_forward_inverse_roundtrip_set_field() {
    let mut doc = empty_doc();
    doc.entities.push(entity_with_components("ent_01", "Foo", vec![transform2d(50.0, 50.0)]));
    let cmd = Command::SetComponentField {
        entity_id: "ent_01".to_string(),
        type_id: "editor.Transform2D".to_string(),
        field_path: "translation.x".to_string(),
        value: j("999.0"),
    };
    let inverse = apply(&mut doc, &cmd).unwrap();
    assert_eq!(back(at(at(&doc.entities[0].components[0].values, "translation"), "x")), sj("999.0"));
    apply(&mut doc, &inverse).unwrap();
    assert_eq!(back(at(at(&doc.entities[0].components[0].values, "translation"), "x")), sj("50.0"));
}

#[test]
fn test_forward_inverse_roundtrip_reparent() {
    let mut doc = empty_doc();
    doc.entities.push(entity_with_components("A", "A", vec![]));
    doc.entities.push(entity_with_components("B", "B", vec![]));
    let cmd = Command::ReparentEntity { entity_id: "A".to_string(), old_parent: None, new_parent: Some("B".to_string()) };
    let inverse = apply(&mut doc, &cmd).unwrap();
    assert_eq!(doc.entities[0].parent, Some("B".to_string()));
    apply(&mut doc, &inverse).unwrap();
    assert_eq!(doc.entities[0].parent, None);
}

#[test]
fn test_failed_validation_leaves_doc_unchanged() {
    let mut doc = empty_doc();
    doc.entities.push(entity_with_components("ent_01", "Foo", vec![]));
    let snapshot_before = clone_document(&doc);
    let cmd = Command::AddComponent { entity_id: "ent_01".to_string(), type_id: "editor.Bogus".to_string(), values: j("{}") };
    let _ = apply(&mut doc, &cmd);
    assert!(same(&doc, &snapshot_before));
}

#[test]
fn test_field_path_helper_simple() {
    let mut v = j(r#"{"a": 1}"#);
    let old = set_field_path(&mut v, "a", j("99")).unwrap();
    assert_eq!(back(&old), sj("1"));
    assert_eq!(back(at(&v, "a")), sj("99"));
}

#[test]
fn test_field_path_helper_nested() {
    let mut v = j(r#"{"a": {"b": {"c": 1}}}"#);
    let old = set_field_path(&mut v, "a.b.c", j("42")).unwrap();
    assert_eq!(back(&old), sj("1"));
    assert_eq!(back(at(at(at(&v, "a"), "b"), "c")), sj("42"));
}

#[test]
fn test_field_path_helper_missing() {
    let mut v = j(r#"{"a": 1}"#);
    let result = set_field_path(&mut v, "b", j("42"));
    assert!(matches!(result, Err(CommandError::FieldNotFound(_))));
}

fn make_instance(instance_id: &str) -> SceneDocument {
    let inst = SceneInstance {
        instance_components: vec![],
        instance_id: instance_id.to_string(),
        asset_ref: "assets/test".to_string(),
        asset_version_seen: 1,
        id_map: vec![],
        component_overrides: vec![],
        orphaned_component_overrides: vec![],
    };
    let mut doc = empty_doc();
    doc.instances.push(inst);
    doc
}

fn sprite_override(value: &str) -> ComponentOverride {
    ComponentOverride {
        target_local_id: "root".to_string(),
        component_type_id: "editor.Sprite2D".to_string(),
        field_path: vec!["asset".to_string()],
        value: j(value),
        status: ComponentOverrideStatus::Active,
    }
}

#[test]
fn test_upsert_override_inserts_into_empty() {
    let mut doc = make_instance("inst_1");
    let cmd = Command::UpsertOverride {
        instance_id: "inst_1".to_string(),
        target_local_id: "root".to_string(),
        component_type_id: "editor.Sprite2D".to_string(),
        field_path: vec!["asset".to_string()],
        value: j(r#""cannon.png""#),
    };
    let inverse = apply(&mut doc, &cmd).unwrap();
    assert_eq!(instance(&doc, "inst_1").component_overrides.len(), 1);
    assert!(matches!(inverse, Command::RevertOverride { .. }));
}

#[test]
fn test_forward_inverse_roundtrip_upsert_override() {
    let mut doc = make_instance("inst_1");
    instance_mut(&mut doc, "inst_1").component_overrides.push(sprite_override(r#""cannon.png""#));
    let cmd = Command::UpsertOverride {
        instance_id: "inst_1".to_string(),
        target_local_id: "root".to_string(),
        component_type_id: "editor.Sprite2D".to_string(),
        field_path: vec!["asset".to_string()],
        value: j(r#""enemy.png""#),
    };
    let inverse = apply(&mut doc, &cmd).unwrap();
    assert_eq!(back(&instance(&doc, "inst_1").component_overrides[0].value), sj(r#""enemy.png""#));
    apply(&mut doc, &inverse).unwrap();
    assert_eq!(back(&instance(&doc, "inst_1").component_overrides[0].value), sj(r#""cannon.png""#));
}

#[test]
fn test_revert_override_removes_matching() {
    let mut doc = make_instance("inst_1");
    instance_mut(&mut doc, "inst_1").component_overrides.push(sprite_override(r#""cannon.png""#));
    let cmd = Command::RevertOverride {
        instance_id: "inst_1".to_string(),
        target_local_id: "root".to_string(),
        component_type_id: "editor.Sprite2D".to_string(),
        field_path: vec!["asset".to_string()],
    };
    let inverse = apply(&mut doc, &cmd).unwrap();
    assert!(instance(&doc, "inst_1").component_overrides.is_empty());
    assert!(matches!(inverse, Command::UpsertOverride { .. }));
}

#[test]
fn test_revert_override_noop() {
    let mut doc = make_instance("inst_1");
    let cmd = Command::RevertOverride {
        instance_id: "inst_1".to_string(),
        target_local_id: "root".to_string(),
        component_type_id: "editor.Sprite2D".to_string(),
        field_path: vec!["asset".to_string()],
    };
    let inverse = apply(&mut doc, &cmd).unwrap();
    assert!(instance(&doc, "inst_1").component_overrides.is_empty());
    assert!(matches!(inverse, Command::RevertOverride { .. }));
}
