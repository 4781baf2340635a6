use editor_core::json::{JsonEntry, JsonValue};
use editor_core::logic_evaluator::{seed_builtin_evaluators, LogicNodeRegistry};
use editor_core::logic_graph::{LogicEdge, LogicGraphAsset, LogicNode, LogicNodeRole};
use editor_core::logic_validation::{validate_logic_graph, LogicValidationIssue, LogicValidationIssueCode};

fn registry() -> LogicNodeRegistry {
    let mut r = LogicNodeRegistry::new();
    seed_builtin_evaluators(&mut r);
    r
}

fn make_asset(nodes: Vec<LogicNode>, edges: Vec<LogicEdge>) -> LogicGraphAsset {
    LogicGraphAsset {
        asset_id: "test_asset".to_string(),
        logical_path: "logic/test".to_string(),
        version: 1,
        nodes,
        edges,
        builtin: false,
    }
}

fn node(id: &str, role: LogicNodeRole, type_id: &str) -> LogicNode {
    LogicNode {
        node_id: id.to_string(),
        role,
        node_type_id: type_id.to_string(),
        field_values: JsonValue::Object(Vec::<JsonEntry>::new()),
        controller_id: None,
    }
}

fn controller(id: &str, type_id: &str, controller_id: Option<&str>) -> LogicNode {
    LogicNode { controller_id: controller_id.map(|s| s.to_string()), ..node(id, LogicNodeRole::Controller, type_id) }
}

fn edge(from: &str, fp: &str, to: &str, tp: &str) -> LogicEdge {
    LogicEdge { from_node: from.to_string(), from_port: fp.to_string(), to_node: to.to_string(), to_port: tp.to_string() }
}

fn with_code(issues: &[LogicValidationIssue], code: LogicValidationIssueCode) -> Vec<&LogicValidationIssue> {
    issues.iter().filter(|i| i.code == code).collect()
}

#[test]
fn validate_logic_graph_empty_asset_returns_empty() {
    let issues = validate_logic_graph(&make_asset(vec![], vec![]), &registry());
    assert!(issues.is_empty(), "empty asset should have no issues");
}

#[test]
fn validate_detects_duplicate_node_ids() {
    let asset = make_asset(
        vec![node("node_x", LogicNodeRole::Sensor, "sensor.always"), node("node_x", LogicNodeRole::Actuator, "actuator.jump")],
        vec![],
    );
    let issues = validate_logic_graph(&asset, &registry());
    let dup_issues = with_code(&issues, LogicValidationIssueCode::DuplicateNodeId);
    assert_eq!(dup_issues.len(), 1);
    assert_eq!(dup_issues[0].affected_node_ids[0].as_str(), "node_x");
}

#[test]
fn validate_no_duplicate_node_ids() {
    let asset = make_asset(
        vec![node("node_a", LogicNodeRole::Sensor, "sensor.always"), node("node_b", LogicNodeRole::Actuator, "actuator.jump")],
        vec![],
    );
    let issues = validate_logic_graph(&asset, &registry());
    assert!(with_code(&issues, LogicValidationIssueCode::DuplicateNodeId).is_empty());
}

#[test]
fn validate_detects_dangling_edge_endpoint() {
    let asset = make_asset(vec![node("node_a", LogicNodeRole::Sensor, "sensor.always")], vec![edge("node_a", "tick", "node_b", "cond")]);
    let issues = validate_logic_graph(&asset, &registry());
    let danglings = with_code(&issues, LogicValidationIssueCode::DanglingEdgeEndpoint);
    assert_eq!(danglings.len(), 1);
    assert_eq!(danglings[0].affected_node_ids[0].as_str(), "node_b");
}

#[test]
fn validate_no_dangling_edge_endpoints() {
    let asset = make_asset(
        vec![node("node_a", LogicNodeRole::Sensor, "sensor.always"), node("node_b", LogicNodeRole::Controller, "controller.and")],
        vec![edge("node_a", "tick", "node_b", "a")],
    );
    let issues = validate_logic_graph(&asset, &registry());
    assert!(with_code(&issues, LogicValidationIssueCode::DanglingEdgeEndpoint).is_empty());
}

#[test]
fn validate_detects_port_type_mismatch() {
    let asset = make_asset(
        vec![node("node_a", LogicNodeRole::Sensor, "sensor.always"), node("node_b", LogicNodeRole::Controller, "controller.and")],
        vec![edge("node_a", "nonexistent_out", "node_b", "a")],
    );
    let issues = validate_logic_graph(&asset, &registry());
    assert!(!with_code(&issues, LogicValidationIssueCode::InvalidPortType).is_empty());
}

#[test]
fn validate_unknown_node_type_skips_port_check() {
    let asset = make_asset(
        vec![node("node_a", LogicNodeRole::Sensor, "sensor.always"), node("node_b", LogicNodeRole::Actuator, "custom.user_node")],
        vec![edge("node_a", "tick", "node_b", "any_port")],
    );
    let issues = validate_logic_graph(&asset, &registry());
    assert!(with_code(&issues, LogicValidationIssueCode::InvalidPortType).is_empty());
}

#[test]
fn validate_detects_two_node_cycle() {
    let asset = make_asset(
        vec![controller("node_a", "controller.and", None), controller("node_b", "controller.if", None)],
        vec![edge("node_a", "out", "node_b", "condition"), edge("node_b", "done", "node_a", "a")],
    );
    let issues = validate_logic_graph(&asset, &registry());
    assert!(!with_code(&issues, LogicValidationIssueCode::Cycle).is_empty(), "A→B→A cycle should be detected");
}

#[test]
fn validate_detects_self_loop() {
    let asset = make_asset(vec![controller("node_a", "controller.and", None)], vec![edge("node_a", "out", "node_a", "a")]);
    let issues = validate_logic_graph(&asset, &registry());
    assert!(!with_code(&issues, LogicValidationIssueCode::Cycle).is_empty(), "self-loop should be detected as cycle");
}

#[test]
fn validate_no_cycle_in_acyclic_graph() {
    let asset = make_asset(
        vec![
            node("node_a", LogicNodeRole::Sensor, "sensor.always"),
            controller("node_b", "controller.and", None),
            controller("node_c", "controller.if", None),
        ],
        vec![edge("node_a", "tick", "node_b", "a"), edge("node_b", "out", "node_c", "condition")],
    );
    let issues = validate_logic_graph(&asset, &registry());
    assert!(with_code(&issues, LogicValidationIssueCode::Cycle).is_empty(), "linear chain should have no cycles");
}

#[test]
fn validate_detects_unknown_controller_id() {
    let asset = make_asset(vec![controller("ctrl_1", "rust-controller", Some("ghost.controller"))], vec![]);
    let issues = validate_logic_graph(&asset, &registry());
    let ctrl_issues = with_code(&issues, LogicValidationIssueCode::DanglingControllerRef);
    assert_eq!(ctrl_issues.len(), 1);
    assert!(ctrl_issues[0].message.contains("ghost.controller"));
}

#[test]
fn validate_detects_missing_controller_id_on_rust_controller() {
    let asset = make_asset(vec![controller("ctrl_1", "rust-controller", None)], vec![]);
    let issues = validate_logic_graph(&asset, &registry());
    assert_eq!(with_code(&issues, LogicValidationIssueCode::DanglingControllerRef).len(), 1);
}

#[test]
fn validate_no_dangling_controller_ref_for_non_rust_controller() {
    let asset = make_asset(vec![controller("ctrl_1", "controller.and", None)], vec![]);
    let issues = validate_logic_graph(&asset, &registry());
    assert!(with_code(&issues, LogicValidationIssueCode::DanglingControllerRef).is_empty());
}

#[test]
fn validate_clean_sensor_controller_actuator_chain_returns_empty() {
    let asset = make_asset(
        vec![
            node("sensor", LogicNodeRole::Sensor, "sensor.always"),
            controller("and", "controller.and", None),
            controller("if", "controller.if", None),
        ],
        vec![edge("sensor", "tick", "and", "a"), edge("and", "out", "if", "condition")],
    );
    let issues = validate_logic_graph(&asset, &registry());
    assert!(issues.is_empty(), "clean chain should return zero issues, got: {:?}", issues);
}

#[test]
fn issues_name_the_asset() {
    let asset = make_asset(vec![controller("ctrl_1", "rust-controller", None)], vec![]);
    let issues = validate_logic_graph(&asset, &registry());
    assert!(issues.iter().all(|i| i.asset_id == "test_asset"));
}
