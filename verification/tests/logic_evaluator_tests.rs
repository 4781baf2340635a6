use editor_core::json::{JsonEntry, JsonValue};
use editor_core::logic_evaluator::{
    evaluate_builtin, evaluate_logic_binding, get_logic_graph_asset, register_logic_graph, seed_builtin_evaluators,
    EvaluatorKind, LogicError, LogicGraphRegistry, LogicNodeRegistry, NodeDescriptor, PortSpec, PortValue, PortValueType,
};
use editor_core::logic_graph::{LogicEdge, LogicGraphAsset, LogicNode, LogicNodeRole};
use editor_core::topo_order::topological_sort;

fn j(text: &str) -> JsonValue {
    match serde_json::from_str::<serde_json::Value>(text).unwrap() {
        serde_json::Value::Object(m) if m.is_empty() => JsonValue::Object(Vec::<JsonEntry>::new()),
        _ => panic!("only empty objects are used here"),
    }
}

fn seeded() -> LogicNodeRegistry {
    let mut registry = LogicNodeRegistry::new();
    seed_builtin_evaluators(&mut registry);
    registry
}

fn node(id: &str, role: LogicNodeRole, type_id: &str) -> LogicNode {
    LogicNode { node_id: id.to_string(), role, node_type_id: type_id.to_string(), field_values: j("{}"), controller_id: None }
}

fn edge(from: &str, fp: &str, to: &str, tp: &str) -> LogicEdge {
    LogicEdge { from_node: from.to_string(), from_port: fp.to_string(), to_node: to.to_string(), to_port: tp.to_string() }
}

fn graph(asset_id: &str, version: u32, nodes: Vec<LogicNode>, edges: Vec<LogicEdge>) -> LogicGraphAsset {
    LogicGraphAsset {
        asset_id: asset_id.to_string(),
        logical_path: asset_id.to_string(),
        version,
        nodes,
        edges,
        builtin: false,
    }
}

fn position(order: &[String], id: &str) -> usize {
    order.iter().position(|x| x == id).unwrap()
}

#[test]
fn port_value_has_bool_variant() {
    let v = PortValue::Bool(true);
    assert!(matches!(v, PortValue::Bool(true)));
}

#[test]
fn port_value_has_float_variant() {
    let v = PortValue::Float(3.14f32.to_bits());
    assert!(matches!(v, PortValue::Float(f) if f32::from_bits(f) == 3.14));
}

#[test]
fn port_value_has_vec2_variant() {
    let v = PortValue::Vec2 { x: 1.0f32.to_bits(), y: 2.0f32.to_bits() };
    assert!(matches!(v, PortValue::Vec2 { x, y } if f32::from_bits(x) == 1.0 && f32::from_bits(y) == 2.0));
}

#[test]
fn port_value_has_entity_ref_variant() {
    let v = PortValue::EntityRef("player".to_string());
    assert!(matches!(v, PortValue::EntityRef(s) if s == "player"));
}

#[test]
fn port_value_has_action_variant() {
    let v = PortValue::Action("jump".to_string());
    assert!(matches!(v, PortValue::Action(s) if s == "jump"));
}

#[test]
fn port_value_type_from_port_value_bool() {
    fn vt(v: &PortValue) -> PortValueType {
        match v {
            PortValue::Bool(_) => PortValueType::Bool,
            PortValue::Float(_) => PortValueType::Float,
            PortValue::Vec2 { .. } => PortValueType::Vec2,
            PortValue::EntityRef(_) => PortValueType::EntityRef,
            PortValue::Action(_) => PortValueType::Action,
        }
    }
    assert!(matches!(vt(&PortValue::Bool(true)), PortValueType::Bool));
    assert!(matches!(vt(&PortValue::Float(1.0f32.to_bits())), PortValueType::Float));
}

#[test]
fn get_evaluator_unknown_returns_none() {
    let registry = LogicNodeRegistry::new();
    assert!(registry.get_evaluator("unknown.node").is_none());
}

#[test]
fn get_controller_unknown_returns_none() {
    let registry = LogicNodeRegistry::new();
    assert!(registry.get_controller("unknown_controller").is_none());
}

#[test]
fn descriptor_unknown_returns_none() {
    let registry = LogicNodeRegistry::new();
    assert!(registry.descriptor("unknown.node").is_none());
}

#[test]
fn controller_if_condition_true() {
    let registry = seeded();
    let evaluator = registry.get_evaluator("controller.if").unwrap();
    let inputs = vec![PortValue::Bool(true), PortValue::Action("jump".to_string()), PortValue::Action("skip".to_string())];
    let outputs = evaluate_builtin(evaluator, &inputs);
    assert_eq!(outputs.len(), 1);
    assert!(matches!(&outputs[0], PortValue::Action(s) if s == "jump"));
}

#[test]
fn controller_if_condition_false() {
    let registry = seeded();
    let evaluator = registry.get_evaluator("controller.if").unwrap();
    let inputs = vec![PortValue::Bool(false), PortValue::Action("jump".to_string()), PortValue::Action("skip".to_string())];
    let outputs = evaluate_builtin(evaluator, &inputs);
    assert_eq!(outputs.len(), 1);
    assert!(matches!(&outputs[0], PortValue::Action(s) if s == "skip"));
}

#[test]
fn sensor_always_emits_true() {
    let registry = seeded();
    let evaluator = registry.get_evaluator("sensor.always").unwrap();
    let outputs = evaluate_builtin(evaluator, &vec![]);
    assert_eq!(outputs.len(), 1);
    assert!(matches!(outputs[0], PortValue::Bool(true)));
}

#[test]
fn controller_and_both_true() {
    let registry = seeded();
    let evaluator = registry.get_evaluator("controller.and").unwrap();
    let outputs = evaluate_builtin(evaluator, &vec![PortValue::Bool(true), PortValue::Bool(true)]);
    assert_eq!(outputs.len(), 1);
    assert!(matches!(outputs[0], PortValue::Bool(true)));
}

#[test]
fn controller_and_one_false() {
    let registry = seeded();
    let evaluator = registry.get_evaluator("controller.and").unwrap();
    let outputs = evaluate_builtin(evaluator, &vec![PortValue::Bool(true), PortValue::Bool(false)]);
    assert_eq!(outputs.len(), 1);
    assert!(matches!(outputs[0], PortValue::Bool(false)));
}

#[test]
fn ocp_extension_fourth_evaluator() {
    let mut registry = LogicNodeRegistry::new();
    seed_builtin_evaluators(&mut registry);
    assert!(registry.get_evaluator("controller.if").is_some());
    assert!(registry.get_evaluator("controller.and").is_some());
    assert!(registry.get_evaluator("sensor.always").is_some());
    registry.register_builtin(
        EvaluatorKind::And,
        NodeDescriptor {
            node_type_id: "controller.not".to_string(),
            role: LogicNodeRole::Controller,
            display_name: "Not".to_string(),
            category: "controller".to_string(),
            inputs: vec![PortSpec { port_id: "in".to_string(), value_type: PortValueType::Bool, display_name: "In".to_string() }],
            outputs: vec![PortSpec { port_id: "out".to_string(), value_type: PortValueType::Bool, display_name: "Out".to_string() }],
        },
    );
    assert!(registry.get_evaluator("controller.if").is_some());
    assert!(registry.get_evaluator("controller.and").is_some());
    assert!(registry.get_evaluator("sensor.always").is_some());
    assert!(registry.get_evaluator("controller.not").is_some());
    let evaluator = registry.get_evaluator("controller.if").unwrap();
    let inputs = vec![PortValue::Bool(true), PortValue::Action("a".to_string()), PortValue::Action("b".to_string())];
    let outputs = evaluate_builtin(evaluator, &inputs);
    assert_eq!(outputs.len(), 1);
    assert!(matches!(&outputs[0], PortValue::Action(s) if s == "a"));
}

#[test]
fn descriptor_known_returns_some() {
    let registry = seeded();
    let desc = registry.descriptor("controller.if");
    assert!(desc.is_some());
    assert_eq!(desc.unwrap().node_type_id.as_str(), "controller.if");
    assert_eq!(desc.unwrap().role, LogicNodeRole::Controller);
}

#[test]
fn get_evaluator_known_returns_some() {
    let registry = seeded();
    assert!(registry.get_evaluator("controller.if").is_some());
}

#[test]
fn test_topological_sort_simple() {
    let nodes = vec![
        node("sensor", LogicNodeRole::Sensor, "sensor.always"),
        node("controller", LogicNodeRole::Controller, "controller.if"),
        node("actuator", LogicNodeRole::Actuator, "actuator.translate"),
    ];
    let edges = vec![
        edge("sensor", "tick", "controller", "condition"),
        edge("controller", "done", "actuator", "trigger"),
    ];
    let order = topological_sort(&nodes, &edges);
    assert!(order.is_some());
    let order = order.unwrap();
    assert_eq!(order.len(), 3);
    assert!(position(&order, "sensor") < position(&order, "controller"));
    assert!(position(&order, "controller") < position(&order, "actuator"));
}

#[test]
fn test_topological_sort_diamond() {
    let nodes = vec![
        node("start", LogicNodeRole::Sensor, "sensor.always"),
        node("left", LogicNodeRole::Controller, "controller.if"),
        node("right", LogicNodeRole::Controller, "controller.and"),
        node("end", LogicNodeRole::Actuator, "actuator.translate"),
    ];
    let edges = vec![
        edge("start", "tick", "left", "condition"),
        edge("start", "tick", "right", "a"),
        edge("left", "done", "end", "trigger"),
        edge("right", "out", "end", "trigger"),
    ];
    let order = topological_sort(&nodes, &edges).unwrap();
    assert_eq!(order.len(), 4);
    let (s, l, r, e) = (position(&order, "start"), position(&order, "left"), position(&order, "right"), position(&order, "end"));
    assert!(s < l);
    assert!(s < r);
    assert!(l < e);
    assert!(r < e);
}

#[test]
fn test_topological_sort_cycle() {
    let nodes = vec![node("a", LogicNodeRole::Controller, "controller.if"), node("b", LogicNodeRole::Controller, "controller.and")];
    let edges = vec![edge("a", "done", "b", "a"), edge("b", "out", "a", "condition")];
    assert!(topological_sort(&nodes, &edges).is_none());
}

#[test]
fn topological_sort_keeps_input_order_without_edges() {
    let nodes = vec![node("z", LogicNodeRole::Sensor, "sensor.always"), node("a", LogicNodeRole::Sensor, "sensor.always")];
    let order = topological_sort(&nodes, &[]).unwrap();
    assert_eq!(order.len(), 2);
    assert!(order.contains(&"z".to_string()));
    assert!(order.contains(&"a".to_string()));
}

#[test]
fn test_evaluate_logic_binding_sensor_controller_chain() {
    let mut graphs = LogicGraphRegistry::new();
    let registry = seeded();
    register_logic_graph(
        &mut graphs,
        graph(
            "test/chain",
            1,
            vec![node("sensor", LogicNodeRole::Sensor, "sensor.always"), node("controller", LogicNodeRole::Controller, "controller.if")],
            vec![edge("sensor", "tick", "controller", "condition")],
        ),
    );
    let result = evaluate_logic_binding(&graphs, &registry, "test/chain", 1, 0);
    assert!(result.is_ok(), "expected ok, got {:?}", result);
    assert!(result.unwrap().is_empty());
}

#[test]
fn test_evaluate_logic_binding_version_mismatch() {
    let mut graphs = LogicGraphRegistry::new();
    let registry = seeded();
    register_logic_graph(&mut graphs, graph("test/version", 5, vec![node("sensor", LogicNodeRole::Sensor, "sensor.always")], vec![]));
    let result = evaluate_logic_binding(&graphs, &registry, "test/version", 99, 0);
    assert!(result.is_err());
    match result.unwrap_err() {
        LogicError::VersionMismatch { asset_id, expected, actual } => {
            assert_eq!(asset_id, "test/version");
            assert_eq!(expected, 99);
            assert_eq!(actual, 5);
        }
        e => panic!("expected VersionMismatch, got {:?}", e),
    }
}

#[test]
fn test_register_and_retrieve_graph() {
    let mut graphs = LogicGraphRegistry::new();
    register_logic_graph(&mut graphs, graph("test/retrieve", 2, vec![node("sensor", LogicNodeRole::Sensor, "sensor.always")], vec![]));
    let retrieved = get_logic_graph_asset(&graphs, "test/retrieve");
    assert!(retrieved.is_some());
    let retrieved = retrieved.unwrap();
    assert_eq!(retrieved.asset_id, "test/retrieve");
    assert_eq!(retrieved.version, 2);
    assert!(get_logic_graph_asset(&graphs, "test/other").is_none());
}

#[test]
fn test_end_to_end_actuator_pipeline() {
    let mut graphs = LogicGraphRegistry::new();
    let registry = seeded();
    register_logic_graph(
        &mut graphs,
        graph(
            "test/e2e",
            1,
            vec![
                node("sensor", LogicNodeRole::Sensor, "sensor.always"),
                node("controller", LogicNodeRole::Controller, "controller.and"),
                node("actuator", LogicNodeRole::Actuator, "actuator.translate"),
            ],
            vec![edge("sensor", "tick", "controller", "a"), edge("controller", "out", "actuator", "vector")],
        ),
    );
    let entity_bits: u64 = 9999;
    let result = evaluate_logic_binding(&graphs, &registry, "test/e2e", 1, entity_bits);
    assert!(result.is_ok(), "expected ok, got {:?}", result);
    let outputs = result.unwrap();
    assert!(!outputs.is_empty(), "expected at least one actuator output");
    let out = outputs.iter().find(|o| o.field == "translation").expect("translation output");
    assert_eq!(out.entity_bits, entity_bits);
    assert!(matches!(out.value, PortValue::Bool(_)), "got {:?}", out.value);
}

#[test]
fn evaluate_logic_binding_cycle_is_reported() {
    let mut graphs = LogicGraphRegistry::new();
    let registry = seeded();
    register_logic_graph(
        &mut graphs,
        graph(
            "test/cycle",
            1,
            vec![node("a", LogicNodeRole::Controller, "controller.if"), node("b", LogicNodeRole::Controller, "controller.and")],
            vec![edge("a", "done", "b", "a"), edge("b", "out", "a", "condition")],
        ),
    );
    let result = evaluate_logic_binding(&graphs, &registry, "test/cycle", 1, 0);
    assert!(matches!(result, Err(LogicError::CycleDetected)));
}
