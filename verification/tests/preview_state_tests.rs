use editor_core::document::ComponentInstance;
use editor_core::json::{JsonEntry, JsonValue};
use editor_core::preview_state::plan_spawn;

fn obj(pairs: Vec<(&str, JsonValue)>) -> JsonValue {
    JsonValue::Object(pairs.into_iter().map(|(k, v)| JsonEntry { key: k.to_string(), value: v }).collect())
}

fn s(x: &str) -> JsonValue {
    JsonValue::Str(x.to_string())
}

fn comp(t: &str, values: JsonValue) -> ComponentInstance {
    ComponentInstance { type_id: t.to_string(), values }
}

#[test]
fn spawn_plan_takes_last_name_and_anchor() {
    let cs = vec![
        comp("editor.Name", obj(vec![("name", s("First"))])),
        comp("editor.Sprite2D", obj(vec![("asset", s("a.png")), ("anchor", s("TopLeft"))])),
        comp("editor.Name", obj(vec![("name", JsonValue::Number("3".to_string()))])),
        comp("editor.Sprite2D", obj(vec![("asset", s("b.png"))])),
        comp("editor.Visible", obj(vec![])),
    ];
    let plan = plan_spawn(&cs);
    assert_eq!(plan.name, Some("First".to_string()));
    assert!(plan.transform.is_none());
    assert!(plan.sprite.is_some());
    assert_eq!(plan.anchor, "TopLeft");
    assert!(plan.anchor_known);
    assert!(plan.logic_binding.is_none());
}

#[test]
fn spawn_plan_flags_unknown_anchor_and_defaults_to_center() {
    let plan = plan_spawn(&vec![comp("editor.Sprite2D", obj(vec![("anchor", s("Middle"))]))]);
    assert_eq!(plan.anchor, "Middle");
    assert!(!plan.anchor_known);
    let plan = plan_spawn(&vec![
        comp("editor.Transform2D", obj(vec![])),
        comp("editor.LogicBinding", obj(vec![("asset_id", s("g"))])),
    ]);
    assert_eq!(plan.anchor, "Center");
    assert!(plan.anchor_known);
    assert!(plan.transform.is_some());
    assert!(plan.logic_binding.is_some());
    assert!(plan.name.is_none());
}
