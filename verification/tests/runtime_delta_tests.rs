use editor_core::json::{JsonEntry, JsonValue};
use editor_core::runtime_delta::{compute_runtime_deltas, RuntimeDelta};

fn conv(v: &serde_json::Value) -> JsonValue {
    match v {
        serde_json::Value::Null => JsonValue::Null,
        serde_json::Value::Bool(b) => JsonValue::Bool(*b),
        serde_json::Value::Number(n) => JsonValue::Number(n.to_string()),
        serde_json::Value::String(s) => JsonValue::Str(s.clone()),
        serde_json::Value::Array(a) => JsonValue::Array(a.iter().map(conv).collect()),
        serde_json::Value::Object(m) => JsonValue::Object(
            m.iter().map(|(k, x)| JsonEntry { key: k.clone(), value: conv(x) }).collect(),
        ),
    }
}

fn back(v: &JsonValue) -> serde_json::Value {
    match v {
        JsonValue::Null => serde_json::Value::Null,
        JsonValue::Bool(b) => serde_json::Value::Bool(*b),
        JsonValue::Number(n) => serde_json::from_str(n).unwrap(),
        JsonValue::Str(s) => serde_json::Value::String(s.clone()),
        JsonValue::Array(a) => serde_json::Value::Array(a.iter().map(back).collect()),
        JsonValue::Object(es) => {
            let mut m = serde_json::Map::new();
            for e in es {
                m.insert(e.key.clone(), back(&e.value));
            }
            serde_json::Value::Object(m)
        }
    }
}

fn entries(text: &str) -> Vec<JsonEntry> {
    match conv(&serde_json::from_str(text).unwrap()) {
        JsonValue::Object(es) => es,
        _ => panic!("not an object"),
    }
}

fn summary(d: &RuntimeDelta) -> (String, String, String, String, String, bool) {
    (
        d.instance_id.clone(),
        d.component_type_id.clone(),
        d.field_path.clone(),
        back(&d.baseline_value).to_string(),
        back(&d.runtime_value).to_string(),
        d.apply_back_eligible,
    )
}

fn s(x: &str) -> String {
    x.to_string()
}

#[test]
fn leaf_differences_are_reported_per_nested_field() {
    let baselines = entries(
        r#"{"inst1": {"editor.Transform2D": {"translation": {"x": 1, "y": 2}, "rotation": 0}}}"#,
    );
    let current = entries(
        r#"{"inst1": {"editor.Transform2D": {"translation": {"x": 10, "y": 2}, "rotation": 0}}}"#,
    );
    let deltas = compute_runtime_deltas(&baselines, &current, &Vec::new(), 42);
    let got: Vec<_> = deltas.iter().map(summary).collect();
    assert_eq!(got, vec![(s("inst1"), s("editor.Transform2D"), s("translation.x"), s("1"), s("10"), true)]);
    assert_eq!(deltas[0].captured_at_ms, 42);
    assert_eq!(deltas[0].target_local_id, "");
}

#[test]
fn unchanged_values_give_no_delta() {
    let text = r#"{"a": {"game.Health": {"hp": 3, "tags": ["x", "y"]}}}"#;
    let deltas = compute_runtime_deltas(&entries(text), &entries(text), &Vec::new(), 0);
    assert!(deltas.is_empty());
}

#[test]
fn missing_field_reports_null_and_object_replaced_reports_whole_value() {
    let baselines = entries(r#"{"a": {"game.Stats": {"hp": 3, "pos": {"x": 1}}}}"#);
    let current = entries(r#"{"a": {"game.Stats": {"pos": 5}}}"#);
    let got: Vec<_> = compute_runtime_deltas(&baselines, &current, &Vec::new(), 0)
        .iter()
        .map(summary)
        .collect();
    assert_eq!(
        got,
        vec![
            (s("a"), s("game.Stats"), s("hp"), s("3"), s("null"), true),
            (s("a"), s("game.Stats"), s("pos"), s("{\"x\":1}"), s("5"), true),
        ]
    );
}

#[test]
fn component_gone_at_runtime_reports_each_top_level_field_once() {
    let baselines = entries(r#"{"a": {"game.Speed": {"v": 2, "dir": {"x": 1}}}}"#);
    let current = entries(r#"{"a": {}}"#);
    let got: Vec<_> = compute_runtime_deltas(&baselines, &current, &Vec::new(), 0)
        .iter()
        .map(summary)
        .collect();
    assert_eq!(
        got,
        vec![
            (s("a"), s("game.Speed"), s("dir"), s("{\"x\":1}"), s("null"), true),
            (s("a"), s("game.Speed"), s("v"), s("2"), s("null"), true),
        ]
    );
}

#[test]
fn never_policy_marks_deltas_ineligible_and_unknown_instances_are_skipped() {
    let baselines = entries(r#"{"a": {"game.Secret": {"k": 1}}, "b": {"game.Secret": {"k": 1}}}"#);
    let current = entries(r#"{"a": {"game.Secret": {"k": 2}}}"#);
    let never = vec![s("game.Secret")];
    let got: Vec<_> = compute_runtime_deltas(&baselines, &current, &never, 0)
        .iter()
        .map(summary)
        .collect();
    assert_eq!(got, vec![(s("a"), s("game.Secret"), s("k"), s("1"), s("2"), false)]);
}
