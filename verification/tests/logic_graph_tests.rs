use editor_core::document::ComponentInstance;
use editor_core::json::{JsonEntry, JsonValue};
use editor_core::logic_graph::{
    count_logic_bindings, editor_logic_binding_component, find_dangling_edge_nodes, find_duplicate_node_id, LogicEdge,
    LogicGraphAsset, LogicInstance, LogicNode, LogicNodeRole,
};

fn conv(v: &serde_json::Value) -> JsonValue {
    match v {
        serde_json::Value::Null => JsonValue::Null,
        serde_json::Value::Bool(b) => JsonValue::Bool(*b),
        serde_json::Value::Number(n) => JsonValue::Number(n.to_string()),
        serde_json::Value::String(s) => JsonValue::Str(s.clone()),
        serde_json::Value::Array(a) => JsonValue::Array(a.iter().map(conv).collect()),
        serde_json::Value::Object(m) => JsonValue::Object(
            m.iter().map(|(k, x)| JsonEntry { key: k.clone(), value: conv(x) }).collect(),
        ),
    }
}

fn back(v: &JsonValue) -> serde_json::Value {
    match v {
        JsonValue::Null => serde_json::Value::Null,
        JsonValue::Bool(b) => serde_json::Value::Bool(*b),
        JsonValue::Number(n) => serde_json::from_str(n).unwrap(),
        JsonValue::Str(s) => serde_json::Value::String(s.clone()),
        JsonValue::Array(a) => serde_json::Value::Array(a.iter().map(back).collect()),
        JsonValue::Object(es) => {
            let mut m = serde_json::Map::new();
            for e in es {
                m.insert(e.key.clone(), back(&e.value));
            }
            serde_json::Value::Object(m)
        }
    }
}

/// A JSON value written as JSON text.
fn j(text: &str) -> JsonValue {
    conv(&sj(text))
}

fn sj(text: &str) -> serde_json::Value {
    serde_json::from_str(text).unwrap()
}

/// The member `k` of an object.
fn at<'a>(v: &'a JsonValue, k: &str) -> &'a JsonValue {
    match v {
        JsonValue::Object(es) => &es.iter().find(|e| e.key == k).expect("member").value,
        _ => panic!("not an object"),
    }
}

fn node(id: &str, role: LogicNodeRole, type_id: &str) -> LogicNode {
    LogicNode { node_id: id.to_string(), role, node_type_id: type_id.to_string(), field_values: j("{}"), controller_id: None }
}

fn graph(nodes: Vec<LogicNode>, edges: Vec<LogicEdge>) -> LogicGraphAsset {
    LogicGraphAsset {
        asset_id: "lga_test".to_string(),
        logical_path: "logic/test".to_string(),
        version: 1,
        nodes,
        edges,
        builtin: false,
    }
}

fn edge(from: &str, to: &str) -> LogicEdge {
    LogicEdge { from_node: from.to_string(), from_port: "out".to_string(), to_node: to.to_string(), to_port: "in".to_string() }
}

fn comp(type_id: &str, values: &str) -> ComponentInstance {
    ComponentInstance { type_id: type_id.to_string(), values: j(values) }
}

#[test]
fn logic_instance_projects_to_editor_logic_binding_component() {
    let instance = LogicInstance { asset_id: "lga_jump".to_string(), version: 3 };
    let component = editor_logic_binding_component(&instance);
    assert_eq!(component.type_id, "editor.LogicBinding");
    assert_eq!(back(at(&component.values, "asset_id")), sj(r#""lga_jump""#));
    assert_eq!(back(at(&component.values, "version")), sj("3"));
}

#[test]
fn find_duplicate_node_id_detects_duplicates() {
    let asset = graph(
        vec![node("node_x", LogicNodeRole::Sensor, "sensor.key_down"), node("node_x", LogicNodeRole::Actuator, "actuator.jump")],
        vec![],
    );
    let dups = find_duplicate_node_id(&asset);
    assert_eq!(dups.len(), 1);
    assert_eq!(dups[0].as_str(), "node_x");
}

#[test]
fn find_duplicate_node_id_returns_empty_when_unique() {
    let asset = graph(
        vec![node("node_a", LogicNodeRole::Sensor, "sensor.key_down"), node("node_b", LogicNodeRole::Actuator, "actuator.jump")],
        vec![],
    );
    assert!(find_duplicate_node_id(&asset).is_empty());
}

#[test]
fn find_dangling_edge_nodes_detects_missing_target() {
    let asset = graph(vec![node("node_a", LogicNodeRole::Sensor, "sensor.key_down")], vec![edge("node_a", "node_b")]);
    let dangling = find_dangling_edge_nodes(&asset);
    assert_eq!(dangling.len(), 1);
    assert_eq!(dangling[0].as_str(), "node_b");
}

#[test]
fn find_dangling_edge_nodes_returns_empty_when_all_valid() {
    let asset = graph(
        vec![node("node_a", LogicNodeRole::Sensor, "sensor.key_down"), node("node_b", LogicNodeRole::Actuator, "actuator.jump")],
        vec![edge("node_a", "node_b")],
    );
    assert!(find_dangling_edge_nodes(&asset).is_empty());
}

#[test]
fn count_logic_bindings_counts_editor_logic_binding() {
    let components = vec![
        comp("editor.Transform2D", "{}"),
        comp("editor.LogicBinding", r#"{"asset_id": "lga_1"}"#),
        comp("editor.Name", r#"{"name": "Bob"}"#),
        comp("editor.LogicBinding", r#"{"asset_id": "lga_2"}"#),
    ];
    assert_eq!(count_logic_bindings(&components), 2);
}

#[test]
fn count_logic_bindings_returns_zero_when_none() {
    let components = vec![comp("editor.Transform2D", "{}"), comp("editor.Name", r#"{"name": "Bob"}"#)];
    assert_eq!(count_logic_bindings(&components), 0);
}
