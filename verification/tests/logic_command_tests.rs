use editor_core::json::{JsonEntry, JsonValue};
use editor_core::logic_command::{apply, set_field_path_vec, LogicCommand, LogicCommandError, LogicOperationLog};
use editor_core::logic_graph::{LogicEdge, LogicGraphAsset, LogicNode, LogicNodeRole};

fn conv(v: &serde_json::Value) -> JsonValue {
    match v {
        serde_json::Value::Null => JsonValue::Null,
        serde_json::Value::Bool(b) => JsonValue::Bool(*b),
        serde_json::Value::Number(n) => JsonValue::Number(n.to_string()),
        serde_json::Value::String(s) => JsonValue::Str(s.clone()),
        serde_json::Value::Array(a) => JsonValue::Array(a.iter().map(conv).collect()),
        serde_json::Value::Object(m) => JsonValue::Object(
            m.iter().map(|(k, x)| JsonEntry { key: k.clone(), value: conv(x) }).collect(),
        ),
    }
}

fn back(v: &JsonValue) -> serde_json::Value {
    match v {
        JsonValue::Null => serde_json::Value::Null,
        JsonValue::Bool(b) => serde_json::Value::Bool(*b),
        JsonValue::Number(n) => serde_json::from_str(n).unwrap(),
        JsonValue::Str(s) => serde_json::Value::String(s.clone()),
        JsonValue::Array(a) => serde_json::Value::Array(a.iter().map(back).collect()),
        JsonValue::Object(es) => {
            let mut m = serde_json::Map::new();
            for e in es {
                m.insert(e.key.clone(), back(&e.value));
            }
            serde_json::Value::Object(m)
        }
    }
}

/// A JSON value written as JSON text.
fn j(text: &str) -> JsonValue {
    conv(&sj(text))
}

fn sj(text: &str) -> serde_json::Value {
    serde_json::from_str(text).unwrap()
}

/// The member `k` of an object.
fn at<'a>(v: &'a JsonValue, k: &str) -> &'a JsonValue {
    match v {
        JsonValue::Object(es) => &es.iter().find(|e| e.key == k).expect("member").value,
        _ => panic!("not an object"),
    }
}

fn empty_graph() -> LogicGraphAsset {
    LogicGraphAsset {
        asset_id: "test_graph".to_string(),
        logical_path: "logic/test".to_string(),
        version: 1,
        nodes: vec![],
        edges: vec![],
        builtin: false,
    }
}

fn node(id: &str, role: LogicNodeRole, type_id: &str, fields: &str) -> LogicNode {
    LogicNode {
        node_id: id.to_string(),
        role,
        node_type_id: type_id.to_string(),
        field_values: j(fields),
        controller_id: None,
    }
}

fn add_node(id: &str, role: LogicNodeRole, type_id: &str, fields: &str) -> LogicCommand {
    LogicCommand::AddNode {
        node_id: id.to_string(),
        role,
        node_type_id: type_id.to_string(),
        field_values: j(fields),
        controller_id: None,
    }
}

fn edge(from: &str, fp: &str, to: &str, tp: &str) -> LogicEdge {
    LogicEdge { from_node: from.to_string(), from_port: fp.to_string(), to_node: to.to_string(), to_port: tp.to_string() }
}

fn two_nodes() -> LogicGraphAsset {
    let mut doc = empty_graph();
    doc.nodes.push(node("node_a", LogicNodeRole::Sensor, "sensor.key_down", "{}"));
    doc.nodes.push(node("node_b", LogicNodeRole::Actuator, "actuator.jump", "{}"));
    doc
}

fn connect(from: &str, to: &str) -> LogicCommand {
    LogicCommand::ConnectPorts {
        from_node: from.to_string(),
        from_port: "out".to_string(),
        to_node: to.to_string(),
        to_port: "in".to_string(),
    }
}

fn disconnect(from: &str, to: &str) -> LogicCommand {
    LogicCommand::DisconnectPorts {
        from_node: from.to_string(),
        from_port: "out".to_string(),
        to_node: to.to_string(),
        to_port: "in".to_string(),
    }
}

#[test]
fn test_add_node_applies_and_inverts() {
    let mut doc = empty_graph();
    let cmd = add_node("node_a", LogicNodeRole::Sensor, "sensor.key_down", r#"{"key": "Space"}"#);
    let inverse = apply(&mut doc, &cmd).unwrap();
    assert_eq!(doc.nodes.len(), 1);
    match inverse {
        LogicCommand::RemoveNode { node_id } => assert_eq!(node_id, "node_a"),
        _ => panic!("Expected RemoveNode inverse"),
    }
}

#[test]
fn test_add_node_duplicate_error() {
    let mut doc = empty_graph();
    let cmd = add_node("node_a", LogicNodeRole::Sensor, "sensor.key_down", "{}");
    apply(&mut doc, &cmd).unwrap();
    let result = apply(&mut doc, &cmd);
    assert!(matches!(result, Err(LogicCommandError::DuplicateNodeId(_))));
}

#[test]
fn test_add_node_reapply_inverse_leaves_empty() {
    let mut doc = empty_graph();
    let cmd = add_node("node_a", LogicNodeRole::Sensor, "sensor.key_down", "{}");
    let inverse = apply(&mut doc, &cmd).unwrap();
    assert_eq!(doc.nodes.len(), 1);
    apply(&mut doc, &inverse).unwrap();
    assert_eq!(doc.nodes.len(), 0);
}

#[test]
fn test_remove_node_inverse_contains_full_node() {
    let mut doc = empty_graph();
    doc.nodes.push(node("node_a", LogicNodeRole::Sensor, "sensor.key_down", r#"{"key": "Space"}"#));
    let inverse = apply(&mut doc, &LogicCommand::RemoveNode { node_id: "node_a".to_string() }).unwrap();
    assert_eq!(doc.nodes.len(), 0);
    match inverse {
        LogicCommand::AddNode { node_id, role, node_type_id, field_values, controller_id } => {
            assert_eq!(node_id, "node_a");
            assert_eq!(role, LogicNodeRole::Sensor);
            assert_eq!(node_type_id, "sensor.key_down");
            assert_eq!(back(at(&field_values, "key")), sj(r#""Space""#));
            assert!(controller_id.is_none());
        }
        _ => panic!("Expected AddNode inverse"),
    }
}

#[test]
fn test_remove_node_unknown_error() {
    let mut doc = empty_graph();
    let result = apply(&mut doc, &LogicCommand::RemoveNode { node_id: "node_unknown".to_string() });
    assert!(matches!(result, Err(LogicCommandError::NodeNotFound(_))));
}

#[test]
fn test_remove_node_removes_connected_edges() {
    let mut doc = two_nodes();
    doc.edges.push(edge("node_a", "out", "node_b", "in"));
    apply(&mut doc, &LogicCommand::RemoveNode { node_id: "node_a".to_string() }).unwrap();
    assert_eq!(doc.nodes.len(), 1);
    assert_eq!(doc.edges.len(), 0);
}

#[test]
fn test_connect_ports_applies_and_inverts() {
    let mut doc = two_nodes();
    let inverse = apply(&mut doc, &connect("node_a", "node_b")).unwrap();
    assert_eq!(doc.edges.len(), 1);
    match inverse {
        LogicCommand::DisconnectPorts { from_node, from_port, to_node, to_port } => {
            assert_eq!(from_node, "node_a");
            assert_eq!(from_port, "out");
            assert_eq!(to_node, "node_b");
            assert_eq!(to_port, "in");
        }
        _ => panic!("Expected DisconnectPorts inverse"),
    }
}

#[test]
fn test_connect_ports_deduplicates() {
    let mut doc = two_nodes();
    apply(&mut doc, &connect("node_a", "node_b")).unwrap();
    assert_eq!(doc.edges.len(), 1);
    apply(&mut doc, &connect("node_a", "node_b")).unwrap();
    assert_eq!(doc.edges.len(), 1);
}

#[test]
fn test_connect_ports_unknown_node_error() {
    let mut doc = empty_graph();
    doc.nodes.push(node("node_a", LogicNodeRole::Sensor, "sensor.key_down", "{}"));
    let result = apply(&mut doc, &connect("node_a", "node_unknown"));
    assert!(matches!(result, Err(LogicCommandError::NodeNotFound(_))));
}

#[test]
fn test_disconnect_ports_removes_edge() {
    let mut doc = two_nodes();
    doc.edges.push(edge("node_a", "out", "node_b", "in"));
    let inverse = apply(&mut doc, &disconnect("node_a", "node_b")).unwrap();
    assert_eq!(doc.edges.len(), 0);
    match inverse {
        LogicCommand::ConnectPorts { from_node, to_node, .. } => {
            assert_eq!(from_node, "node_a");
            assert_eq!(to_node, "node_b");
        }
        _ => panic!("Expected ConnectPorts inverse"),
    }
}

#[test]
fn test_disconnect_ports_unknown_node_error() {
    let mut doc = empty_graph();
    doc.nodes.push(node("node_a", LogicNodeRole::Sensor, "sensor.key_down", "{}"));
    let result = apply(&mut doc, &disconnect("node_a", "node_unknown"));
    assert!(matches!(result, Err(LogicCommandError::NodeNotFound(_))));
}

#[test]
fn test_set_node_field_inverse_restores_old_value() {
    let mut doc = empty_graph();
    doc.nodes.push(node("node_a", LogicNodeRole::Controller, "controller.if", r#"{"threshold": 0.5}"#));
    let cmd = LogicCommand::SetNodeField { node_id: "node_a".to_string(), field_path: vec!["threshold".to_string()], value: j("0.9") };
    let inverse = apply(&mut doc, &cmd).unwrap();
    assert_eq!(back(at(&doc.nodes[0].field_values, "threshold")), sj("0.9"));
    apply(&mut doc, &inverse).unwrap();
    assert_eq!(back(at(&doc.nodes[0].field_values, "threshold")), sj("0.5"));
}

#[test]
fn test_set_node_field_nested_path() {
    let mut doc = empty_graph();
    doc.nodes.push(node(
        "node_a",
        LogicNodeRole::Controller,
        "controller.if",
        r#"{"config": {"threshold": 0.5, "enabled": true}}"#,
    ));
    let cmd = LogicCommand::SetNodeField {
        node_id: "node_a".to_string(),
        field_path: vec!["config".to_string(), "threshold".to_string()],
        value: j("0.8"),
    };
    let inverse = apply(&mut doc, &cmd).unwrap();
    assert_eq!(back(at(at(&doc.nodes[0].field_values, "config"), "threshold")), sj("0.8"));
    apply(&mut doc, &inverse).unwrap();
    assert_eq!(back(at(at(&doc.nodes[0].field_values, "config"), "threshold")), sj("0.5"));
}

#[test]
fn test_set_node_field_unknown_node_error() {
    let mut doc = empty_graph();
    let cmd = LogicCommand::SetNodeField { node_id: "node_unknown".to_string(), field_path: vec!["threshold".to_string()], value: j("0.9") };
    let result = apply(&mut doc, &cmd);
    assert!(matches!(result, Err(LogicCommandError::NodeNotFound(_))));
}

#[test]
fn logic_command_test_batch_inverse_reverses_order() {
    let mut doc = empty_graph();
    let cmd = LogicCommand::Batch {
        label: "test".to_string(),
        commands: vec![
            add_node("node_a", LogicNodeRole::Sensor, "sensor.key_down", "{}"),
            add_node("node_b", LogicNodeRole::Actuator, "actuator.jump", "{}"),
        ],
    };
    let inverse = apply(&mut doc, &cmd).unwrap();
    assert_eq!(doc.nodes.len(), 2);
    apply(&mut doc, &inverse).unwrap();
    assert_eq!(doc.nodes.len(), 0);
}

#[test]
fn logic_command_test_set_field_path_vec_simple() {
    let mut v = j(r#"{"a": 1}"#);
    let old = set_field_path_vec(&mut v, &vec!["a".to_string()], j("99")).unwrap();
    assert_eq!(back(&old), sj("1"));
    assert_eq!(back(at(&v, "a")), sj("99"));
}

#[test]
fn logic_command_test_set_field_path_vec_nested() {
    let mut v = j(r#"{"a": {"b": {"c": 1}}}"#);
    let old = set_field_path_vec(&mut v, &vec!["a".to_string(), "b".to_string(), "c".to_string()], j("42")).unwrap();
    assert_eq!(back(&old), sj("1"));
    assert_eq!(back(at(at(at(&v, "a"), "b"), "c")), sj("42"));
}

#[test]
fn test_logic_operation_log_record_and_undo() {
    let mut log = LogicOperationLog::new_const();
    let mut doc = empty_graph();
    let cmd = add_node("node_a", LogicNodeRole::Sensor, "sensor.key_down", "{}");
    let inverse = apply(&mut doc, &cmd).unwrap();
    log.record(&cmd, inverse);
    assert!(log.can_undo());
    assert!(!log.can_redo());
    log.undo(&mut doc).unwrap();
    assert_eq!(doc.nodes.len(), 0);
    assert!(!log.can_undo());
    assert!(log.can_redo());
}

#[test]
fn test_logic_operation_log_redo() {
    let mut log = LogicOperationLog::new_const();
    let mut doc = empty_graph();
    let cmd = add_node("node_a", LogicNodeRole::Sensor, "sensor.key_down", "{}");
    let inverse = apply(&mut doc, &cmd).unwrap();
    log.record(&cmd, inverse);
    log.undo(&mut doc).unwrap();
    assert_eq!(doc.nodes.len(), 0);
    log.redo(&mut doc).unwrap();
    assert_eq!(doc.nodes.len(), 1);
}

#[test]
fn test_logic_operation_log_is_dirty() {
    let log = LogicOperationLog::new_const();
    assert!(!log.is_dirty());
}

#[test]
fn test_logic_operation_log_clear() {
    let mut log = LogicOperationLog::new_const();
    let mut doc = empty_graph();
    let cmd = add_node("node_a", LogicNodeRole::Sensor, "sensor.key_down", "{}");
    let inverse = apply(&mut doc, &cmd).unwrap();
    log.record(&cmd, inverse);
    log.clear();
    assert!(!log.can_undo());
    assert!(!log.can_redo());
    assert!(!log.is_dirty());
}

#[test]
fn test_logic_operation_log_undo_redo_roundtrip() {
    let mut log = LogicOperationLog::new_const();
    let mut doc = empty_graph();
    let cmd = add_node("node_a", LogicNodeRole::Sensor, "sensor.key_down", "{}");
    let inverse = apply(&mut doc, &cmd).unwrap();
    log.record(&cmd, inverse);
    log.undo(&mut doc).unwrap();
    assert!(!log.can_undo());
    assert!(log.can_redo());
    log.redo(&mut doc).unwrap();
    assert!(log.can_undo());
    assert!(!log.can_redo());
    assert_eq!(doc.nodes.len(), 1);
}

fn builtin_graph() -> LogicGraphAsset {
    LogicGraphAsset {
        asset_id: "lga_recipe_jump".to_string(),
        logical_path: "recipes/platformer_jump".to_string(),
        version: 1,
        builtin: true,
        nodes: vec![node("sensor_1", LogicNodeRole::Sensor, "sensor.key_pressed", "{}")],
        edges: vec![],
    }
}

#[test]
fn add_node_rejected_on_builtin() {
    let mut doc = builtin_graph();
    let result = apply(&mut doc, &add_node("node_new", LogicNodeRole::Actuator, "actuator.jump", "{}"));
    assert!(matches!(result, Err(LogicCommandError::RecipeImmutable(_))));
}

#[test]
fn remove_node_rejected_on_builtin() {
    let mut doc = builtin_graph();
    let result = apply(&mut doc, &LogicCommand::RemoveNode { node_id: "sensor_1".to_string() });
    assert!(matches!(result, Err(LogicCommandError::RecipeImmutable(_))));
}

#[test]
fn connect_ports_rejected_on_builtin() {
    let mut doc = builtin_graph();
    let result = apply(&mut doc, &connect("sensor_1", "node_new"));
    assert!(matches!(result, Err(LogicCommandError::RecipeImmutable(_))));
}

#[test]
fn disconnect_ports_rejected_on_builtin() {
    let mut doc = builtin_graph();
    let result = apply(&mut doc, &disconnect("sensor_1", "node_unknown"));
    assert!(matches!(result, Err(LogicCommandError::RecipeImmutable(_))));
}

#[test]
fn set_node_field_rejected_on_builtin() {
    let mut doc = builtin_graph();
    let cmd = LogicCommand::SetNodeField { node_id: "sensor_1".to_string(), field_path: vec!["key".to_string()], value: j(r#""Space""#) };
    let result = apply(&mut doc, &cmd);
    assert!(matches!(result, Err(LogicCommandError::RecipeImmutable(_))));
}

#[test]
fn batch_rollback_on_builtin() {
    let mut doc = builtin_graph();
    let cmd = LogicCommand::Batch {
        label: "try mutating builtin".to_string(),
        commands: vec![add_node("node_new", LogicNodeRole::Actuator, "actuator.jump", "{}")],
    };
    let result = apply(&mut doc, &cmd);
    assert!(matches!(result, Err(LogicCommandError::RecipeImmutable(_))));
    assert_eq!(doc.nodes.len(), 1);
    assert_eq!(doc.nodes[0].node_id, "sensor_1");
}

#[test]
fn failed_batch_leaves_graph_exactly_as_it_was() {
    let mut doc = two_nodes();
    doc.edges.push(edge("node_a", "out", "node_b", "in"));
    let ids_before: Vec<String> = doc.nodes.iter().map(|n| n.node_id.clone()).collect();
    let cmd = LogicCommand::Batch {
        label: "x".to_string(),
        commands: vec![
            LogicCommand::RemoveNode { node_id: "node_a".to_string() },
            LogicCommand::RemoveNode { node_id: "node_missing".to_string() },
        ],
    };
    let result = apply(&mut doc, &cmd);
    match result {
        Err(LogicCommandError::BatchFailed { index, source }) => {
            assert_eq!(index, 1);
            assert!(matches!(*source, LogicCommandError::NodeNotFound(ref n) if n.as_str() == "node_missing"));
        }
        _ => panic!("expected a failed batch"),
    }
    let ids_after: Vec<String> = doc.nodes.iter().map(|n| n.node_id.clone()).collect();
    assert_eq!(ids_after, ids_before);
    assert_eq!(doc.edges.len(), 1);
    assert_eq!(doc.edges[0].from_node, "node_a");
    assert_eq!(doc.edges[0].to_node, "node_b");
}
