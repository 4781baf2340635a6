use editor_core::document::{ComponentInstance, Entity, SceneDocument};
use editor_core::dynamic_scene::{plan_dynamic_scene, DynamicScenePlan};
use editor_core::json::{JsonEntry, JsonValue};

fn conv(v: &serde_json::Value) -> JsonValue {
    match v {
        serde_json::Value::Null => JsonValue::Null,
        serde_json::Value::Bool(b) => JsonValue::Bool(*b),
        serde_json::Value::Number(n) => JsonValue::Number(n.to_string()),
        serde_json::Value::String(s) => JsonValue::Str(s.clone()),
        serde_json::Value::Array(a) => JsonValue::Array(a.iter().map(conv).collect()),
        serde_json::Value::Object(m) => JsonValue::Object(
            m.iter().map(|(k, x)| JsonEntry { key: k.clone(), value: conv(x) }).collect(),
        ),
    }
}

fn back(v: &JsonValue) -> serde_json::Value {
    match v {
        JsonValue::Null => serde_json::Value::Null,
        JsonValue::Bool(b) => serde_json::Value::Bool(*b),
        JsonValue::Number(n) => serde_json::from_str(n).unwrap(),
        JsonValue::Str(s) => serde_json::Value::String(s.clone()),
        JsonValue::Array(a) => serde_json::Value::Array(a.iter().map(back).collect()),
        JsonValue::Object(es) => {
            let mut m = serde_json::Map::new();
            for e in es {
                m.insert(e.key.clone(), back(&e.value));
            }
            serde_json::Value::Object(m)
        }
    }
}

/// A JSON value written as JSON text.
fn j(text: &str) -> JsonValue {
    conv(&sj(text))
}

fn sj(text: &str) -> serde_json::Value {
    serde_json::from_str(text).unwrap()
}

/// The member `k` of an object.
fn at<'a>(v: &'a JsonValue, k: &str) -> &'a JsonValue {
    match v {
        JsonValue::Object(es) => &es.iter().find(|e| e.key == k).expect("member").value,
        _ => panic!("not an object"),
    }
}

fn make_doc(entities: Vec<Entity>) -> SceneDocument {
    SceneDocument {
        version: "0.1".to_string(),
        scene_id: "scene_001".to_string(),
        name: "Test".to_string(),
        entities,
        instances: vec![],
    }
}

fn name_component(name: &str) -> ComponentInstance {
    ComponentInstance { type_id: "editor.Name".to_string(), values: j(&format!(r#"{{"name": "{}"}}"#, name)) }
}

fn transform_component(translation: (f32, f32), rotation: f32, scale: (f32, f32)) -> ComponentInstance {
    ComponentInstance {
        type_id: "editor.Transform2D".to_string(),
        values: j(&format!(
            r#"{{"translation": {{"x": {:?}, "y": {:?}}}, "rotation": {:?}, "scale": {{"x": {:?}, "y": {:?}}}}}"#,
            translation.0, translation.1, rotation, scale.0, scale.1
        )),
    }
}

fn sprite_component(asset: &str, color: (f32, f32, f32, f32), anchor: &str) -> ComponentInstance {
    ComponentInstance {
        type_id: "editor.Sprite2D".to_string(),
        values: j(&format!(
            r#"{{"asset": "{}", "color": {{"r": {:?}, "g": {:?}, "b": {:?}, "a": {:?}}}, "anchor": "{}"}}"#,
            asset, color.0, color.1, color.2, color.3, anchor
        )),
    }
}

fn entity(id: &str, name: &str, components: Vec<ComponentInstance>) -> Entity {
    Entity { id: id.to_string(), local_id: id.to_string(), name: name.to_string(), parent: None, components }
}

fn child(id: &str, name: &str, parent_id: &str, components: Vec<ComponentInstance>) -> Entity {
    Entity { parent: Some(parent_id.to_string()), ..entity(id, name, components) }
}

fn export(doc: &SceneDocument) -> DynamicScenePlan {
    plan_dynamic_scene(doc)
}

fn component_count(plan: &DynamicScenePlan, i: usize) -> usize {
    let e = &plan.entities[i];
    e.bevy_name.is_some() as usize + e.transform.is_some() as usize + e.sprite.is_some() as usize
}

#[test]
fn test_export_empty_document() {
    let plan = export(&make_doc(vec![]));
    assert_eq!(plan.version, "0.1.0");
    assert_eq!(plan.source_scene_id, "scene_001");
    assert_eq!(plan.entities.len(), 0);
    assert_eq!(plan.warnings.len(), 0);
}

#[test]
fn test_export_name_component() {
    let export = export(&make_doc(vec![entity("ent_01", "Player", vec![name_component("Player")])]));
    assert_eq!(export.entities.len(), 1);
    assert_eq!(export.warnings.len(), 0);
    assert_eq!(export.entities[0].stable_id, "ent_01");
    assert_eq!(export.entities[0].name, "Player");
    assert_eq!(export.entities[0].parent_stable_id, None);
    assert_eq!(export.entities[0].bevy_name, Some("Player".to_string()));
}

#[test]
fn test_export_sprite_all_9_anchors() {
    let anchors = ["Center", "TopLeft", "TopRight", "BottomLeft", "BottomRight", "TopCenter", "BottomCenter", "CenterLeft", "CenterRight"];
    for anchor in anchors {
        let export = export(&make_doc(vec![entity("e1", "Sprite", vec![sprite_component("a.png", (1.0, 1.0, 1.0, 1.0), anchor)])]));
        assert_eq!(export.warnings.len(), 0, "anchor {} should not warn", anchor);
        assert_eq!(export.entities[0].sprite.as_ref().unwrap().anchor, anchor, "anchor {} should round-trip", anchor);
    }
}

#[test]
fn test_export_sprite_empty_asset_warning() {
    let export = export(&make_doc(vec![entity("e1", "Sprite", vec![sprite_component("", (1.0, 1.0, 1.0, 1.0), "Center")])]));
    assert!(export.entities[0].sprite.is_none());
    assert_eq!(export.warnings.len(), 1);
    assert_eq!(export.warnings[0].entity_stable_id, Some("e1".to_string()));
    assert_eq!(export.warnings[0].component_type_id, Some("editor.Sprite2D".to_string()));
    assert!(export.warnings[0].message.contains("empty asset"));
}

#[test]
fn test_export_sprite_missing_color_default() {
    let sprite = ComponentInstance { type_id: "editor.Sprite2D".to_string(), values: j(r#"{"asset": "a.png", "anchor": "Center"}"#) };
    let export = export(&make_doc(vec![entity("e1", "Sprite", vec![sprite])]));
    assert!(export.entities[0].sprite.as_ref().unwrap().color.is_none());
    assert_eq!(export.warnings.len(), 1);
    assert!(export.warnings[0].message.contains("color"));
}

#[test]
fn test_export_sprite_invalid_anchor_default() {
    let export = export(&make_doc(vec![entity("e1", "Sprite", vec![sprite_component("a.png", (1.0, 1.0, 1.0, 1.0), "NotAValidAnchor")])]));
    assert_eq!(export.entities[0].sprite.as_ref().unwrap().anchor, "Center");
    assert_eq!(export.warnings.len(), 1);
    assert!(export.warnings[0].message.contains("anchor"));
}

#[test]
fn test_export_editorial_components_silent() {
    let export = export(&make_doc(vec![entity(
        "e1",
        "E",
        vec![
            name_component("X"),
            ComponentInstance { type_id: "editor.Visible".to_string(), values: j(r#"{"visible": true}"#) },
            ComponentInstance { type_id: "editor.Locked".to_string(), values: j(r#"{"locked": false}"#) },
        ],
    )]));
    assert_eq!(component_count(&export, 0), 1);
    assert!(export.entities[0].bevy_name.is_some());
    assert_eq!(export.warnings.len(), 0);
}

#[test]
fn test_export_unknown_component_warning() {
    let export = export(&make_doc(vec![entity(
        "e1",
        "E",
        vec![name_component("X"), ComponentInstance { type_id: "game.PlayerHealth".to_string(), values: j(r#"{"hp": 100}"#) }],
    )]));
    assert_eq!(component_count(&export, 0), 1);
    assert_eq!(export.warnings.len(), 1);
    assert_eq!(export.warnings[0].component_type_id, Some("game.PlayerHealth".to_string()));
    assert!(export.warnings[0].message.contains("unknown") || export.warnings[0].message.contains("Skipping"));
}

#[test]
fn test_export_parent_child_hierarchy() {
    let export = export(&make_doc(vec![
        entity("a", "Parent", vec![name_component("Parent")]),
        child("b", "Child", "a", vec![name_component("Child")]),
    ]));
    assert_eq!(export.entities.len(), 2);
    assert_eq!(export.entities[0].parent_stable_id, None);
    assert_eq!(export.entities[1].parent_stable_id, Some("a".to_string()));
}

#[test]
fn test_export_orphan_promoted_to_root() {
    let export = export(&make_doc(vec![
        entity("a", "Root", vec![name_component("Root")]),
        child("b", "Orphan", "nonexistent", vec![name_component("Orphan")]),
    ]));
    assert_eq!(export.entities[1].parent_stable_id, None);
    assert_eq!(export.warnings.len(), 1);
    assert_eq!(export.warnings[0].entity_stable_id, Some("b".to_string()));
    assert!(export.warnings[0].message.contains("parent"));
}

#[test]
fn test_export_invalid_vec2_default() {
    let bad = ComponentInstance { type_id: "editor.Transform2D".to_string(), values: j(r#"{"translation": {"x": "not_a_number"}}"#) };
    let export = export(&make_doc(vec![entity("e1", "T", vec![bad])]));
    assert!(export.entities[0].transform.as_ref().unwrap().translation.is_none());
    assert!(export.warnings[0].message.contains("translation"));
}

#[test]
fn test_export_default_transform() {
    let empty = ComponentInstance { type_id: "editor.Transform2D".to_string(), values: j("{}") };
    let export = export(&make_doc(vec![entity("e1", "T", vec![empty])]));
    let t = export.entities[0].transform.as_ref().unwrap();
    assert!(t.translation.is_none());
    assert!(t.rotation.is_none());
    assert!(t.scale.is_none());
    assert_eq!(export.warnings.len(), 0);
}

#[test]
fn test_export_50_entities() {
    let entities: Vec<Entity> = (0..50)
        .map(|i| entity(&format!("e{:03}", i), &format!("E{}", i), vec![name_component(&format!("E{}", i)), transform_component((0.0, 0.0), 0.0, (1.0, 1.0))]))
        .collect();
    let export = export(&make_doc(entities));
    assert_eq!(export.entities.len(), 50);
    assert_eq!(export.warnings.len(), 0);
}

#[test]
fn test_export_missing_name_warning() {
    let bad_name = ComponentInstance { type_id: "editor.Name".to_string(), values: j("{}") };
    let export = export(&make_doc(vec![entity("e1", "E", vec![bad_name])]));
    assert_eq!(export.entities[0].bevy_name, Some(String::new()));
    assert!(export.warnings[0].message.contains("Name"));
}

#[test]
fn transform_numbers_are_kept_as_written() {
    let export = export(&make_doc(vec![entity("e1", "T", vec![transform_component((100.0, 200.0), 0.5, (2.0, 3.0))])]));
    let t = export.entities[0].transform.as_ref().unwrap();
    assert_eq!(t.translation, Some(("100.0".to_string(), "200.0".to_string())));
    assert_eq!(t.rotation, Some("0.5".to_string()));
    assert_eq!(t.scale, Some(("2.0".to_string(), "3.0".to_string())));
    let rot_bad = ComponentInstance { type_id: "editor.Transform2D".to_string(), values: j(r#"{"rotation": "x", "scale": 4}"#) };
    let export = plan_dynamic_scene(&make_doc(vec![entity("e2", "T", vec![rot_bad])]));
    let msgs: Vec<&str> = export.warnings.iter().map(|w| w.message.as_str()).collect();
    assert_eq!(msgs, vec!["Transform2D rotation invalid on entity e2; using 0", "Transform2D scale invalid on entity e2; using default"]);
}

#[test]
fn test_export_transform_translation_z_zero() {
    let export = export(&make_doc(vec![entity("e1", "T", vec![transform_component((100.0, 200.0), 0.0, (1.0, 1.0))])]));
    let t = export.entities[0].transform.as_ref().unwrap();
    let (x, y) = t.translation.clone().unwrap();
    assert_eq!((x.parse::<f64>().unwrap(), y.parse::<f64>().unwrap()), (100.0, 200.0));
    let (sx, sy) = t.scale.clone().unwrap();
    assert_eq!((sx.parse::<f64>().unwrap(), sy.parse::<f64>().unwrap()), (1.0, 1.0));
}

#[test]
fn test_export_transform_scale_z_one() {
    let export = export(&make_doc(vec![entity("e1", "T", vec![transform_component((0.0, 0.0), 0.0, (2.0, 3.0))])]));
    let (sx, sy) = export.entities[0].transform.as_ref().unwrap().scale.clone().unwrap();
    assert_eq!((sx.parse::<f64>().unwrap(), sy.parse::<f64>().unwrap()), (2.0, 3.0));
}

#[test]
fn test_export_sprite_all_fields() {
    let export = export(&make_doc(vec![entity(
        "e1",
        "Sprite",
        vec![sprite_component("assets/player.png", (1.0, 0.0, 0.0, 1.0), "Center")],
    )]));
    let s = export.entities[0].sprite.as_ref().unwrap();
    assert_eq!(s.asset, "assets/player.png");
    let (r, g, b, a) = s.color.clone().unwrap();
    let rgba: Vec<f64> = [r, g, b, a].iter().map(|c| c.parse::<f64>().unwrap()).collect();
    assert_eq!(rgba, vec![1.0, 0.0, 0.0, 1.0]);
    assert_eq!(s.anchor, "Center");
    assert_eq!(export.warnings.len(), 0);
}

#[test]
fn test_export_deterministic() {
    let mut entities = vec![];
    for i in 0..10 {
        entities.push(entity(
            &format!("e{}", i),
            &format!("E{}", i),
            vec![
                name_component(&format!("E{}", i)),
                transform_component((i as f32, i as f32 * 2.0), 0.1, (1.0, 1.0)),
                sprite_component("a.png", (1.0, 0.5, 0.25, 1.0), "Center"),
            ],
        ));
    }
    let doc = make_doc(entities);
    assert_eq!(format!("{:?}", export(&doc)), format!("{:?}", export(&doc)));
}

#[test]
fn test_export_component_order_independent() {
    let doc1 = make_doc(vec![entity("e1", "E", vec![name_component("X"), transform_component((0.0, 0.0), 0.0, (1.0, 1.0))])]);
    let doc2 = make_doc(vec![entity("e1", "E", vec![transform_component((0.0, 0.0), 0.0, (1.0, 1.0)), name_component("X")])]);
    assert_eq!(format!("{:?}", export(&doc1)), format!("{:?}", export(&doc2)));
}
