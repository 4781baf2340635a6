use editor_core::asset_command::{apply as asset_apply, AssetCommand};
use editor_core::command::Command;
use editor_core::document::{clone_document, ComponentInstance, Entity, SceneDocument, SceneInstance};
use editor_core::json::{JsonEntry, JsonValue};
use editor_core::logic_command::{apply as logic_apply, LogicCommand};
use editor_core::logic_graph::{clone_graph, LogicEdge, LogicGraphAsset, LogicNode, LogicNodeRole};
use editor_core::processor::{apply_with_context, ProcessorContext};
use editor_core::scene_asset::{SceneAssetDocument, SceneAssetEntity, SceneAssetRole};

fn obj() -> JsonValue {
    JsonValue::Object(Vec::<JsonEntry>::new())
}

fn ctx() -> ProcessorContext {
    ProcessorContext { schema_types: vec!["editor.Name".to_string(), "editor.Sprite2D".to_string()] }
}

fn doc() -> SceneDocument {
    SceneDocument {
        version: "0.1".to_string(),
        scene_id: "s".to_string(),
        name: "S".to_string(),
        entities: vec![
            Entity { id: "a".to_string(), local_id: "a".to_string(), name: "A".to_string(), parent: None, components: vec![] },
            Entity {
                id: "b".to_string(),
                local_id: "b".to_string(),
                name: "B".to_string(),
                parent: None,
                components: vec![
                    ComponentInstance { type_id: "editor.Sprite2D".to_string(), values: obj() },
                    ComponentInstance { type_id: "editor.Name".to_string(), values: obj() },
                ],
            },
        ],
        instances: vec![SceneInstance {
            instance_id: "i1".to_string(),
            asset_ref: "assets/x".to_string(),
            asset_version_seen: 1,
            id_map: vec![],
            instance_components: vec![],
            component_overrides: vec![],
            orphaned_component_overrides: vec![],
        }],
    }
}

fn same(a: &SceneDocument, b: &SceneDocument) -> bool {
    format!("{:?}", a) == format!("{:?}", b)
}

fn roundtrip(cmd: Command) -> bool {
    let before = doc();
    let mut d = clone_document(&before);
    let inv = apply_with_context(&mut d, &cmd, &ctx()).unwrap();
    apply_with_context(&mut d, &inv, &ctx()).unwrap();
    same(&d, &before)
}

#[test]
fn delete_of_last_parentless_entity_is_undone() {
    assert!(roundtrip(Command::DeleteEntity { id: "b".to_string() }));
    // Not the last entity: the recreated one lands at the end.
    assert!(!roundtrip(Command::DeleteEntity { id: "a".to_string() }));
}

#[test]
fn removal_of_last_component_is_undone() {
    assert!(roundtrip(Command::RemoveComponent { entity_id: "b".to_string(), type_id: "editor.Name".to_string() }));
    assert!(!roundtrip(Command::RemoveComponent { entity_id: "b".to_string(), type_id: "editor.Sprite2D".to_string() }));
}

#[test]
fn instance_removal_and_asset_replacement_are_undone() {
    assert!(roundtrip(Command::RemoveInstance { instance_id: "i1".to_string() }));
    assert!(roundtrip(Command::ReplaceInstanceAsset {
        instance_id: "i1".to_string(),
        new_asset_ref: "assets/y".to_string(),
        new_asset_version: 7,
        captured_old: None,
    }));
}

fn asset_doc() -> SceneAssetDocument {
    SceneAssetDocument {
        asset_id: "x".to_string(),
        logical_path: "assets/x".to_string(),
        role: SceneAssetRole::Actor,
        version: 1,
        entities: vec![
            SceneAssetEntity { local_id: "r".to_string(), local_path: "r".to_string(), name: "R".to_string(), components: vec![] },
            SceneAssetEntity {
                local_id: "c".to_string(),
                local_path: "r/c".to_string(),
                name: "C".to_string(),
                components: vec![ComponentInstance { type_id: "editor.Name".to_string(), values: obj() }],
            },
        ],
        relationships: vec![],
    }
}

#[test]
fn asset_removals_of_last_items_are_undone() {
    for cmd in [
        AssetCommand::RemoveEntity { local_id: "c".to_string() },
        AssetCommand::RemoveComponent { local_id: "c".to_string(), type_id: "editor.Name".to_string() },
    ] {
        let mut d = asset_doc();
        let inv = asset_apply(&mut d, &cmd).unwrap();
        asset_apply(&mut d, &inv).unwrap();
        assert_eq!(format!("{:?}", d), format!("{:?}", asset_doc()));
    }
}

fn graph() -> LogicGraphAsset {
    let node = |id: &str| LogicNode {
        node_id: id.to_string(),
        role: LogicNodeRole::Sensor,
        node_type_id: "sensor.always".to_string(),
        field_values: obj(),
        controller_id: None,
    };
    LogicGraphAsset {
        asset_id: "g".to_string(),
        logical_path: "logic/g".to_string(),
        version: 1,
        nodes: vec![node("a"), node("b"), node("lonely")],
        edges: vec![LogicEdge { from_node: "a".to_string(), from_port: "out".to_string(), to_node: "b".to_string(), to_port: "in".to_string() }],
        builtin: false,
    }
}

#[test]
fn logic_removals_of_last_items_are_undone() {
    for cmd in [
        LogicCommand::RemoveNode { node_id: "lonely".to_string() },
        LogicCommand::DisconnectPorts {
            from_node: "a".to_string(),
            from_port: "out".to_string(),
            to_node: "b".to_string(),
            to_port: "in".to_string(),
        },
    ] {
        let before = graph();
        let mut g = clone_graph(&before);
        let inv = logic_apply(&mut g, &cmd).unwrap();
        logic_apply(&mut g, &inv).unwrap();
        assert_eq!(format!("{:?}", g), format!("{:?}", before));
    }
    // A node with edges loses them for good.
    let mut g = graph();
    let inv = logic_apply(&mut g, &LogicCommand::RemoveNode { node_id: "a".to_string() }).unwrap();
    logic_apply(&mut g, &inv).unwrap();
    assert!(g.edges.is_empty());
}

#[test]
fn batch_of_undoable_commands_is_undone() {
    assert!(roundtrip(Command::Batch {
        label: "gesture".to_string(),
        commands: vec![
            Command::RenameEntity { entity_id: "a".to_string(), old_name: None, new_name: "A2".to_string() },
            Command::CreateEntity { id: "c".to_string(), name: "C".to_string(), components: vec![] },
            Command::ReparentEntity { entity_id: "c".to_string(), old_parent: None, new_parent: Some("a".to_string()) },
        ],
    }));
}
