use editor_core::bsn_export::{
    bsn_component_text, emit_struct_fields, escape_string, export_bsn_ir, format_bsn_literal, pascal_case_struct_name,
    BsnComponentText, BsnExportError,
};
use editor_core::bsn_ir::bsn_ir_from_scene_asset;
use editor_core::bsn_layout::{bsn_lines, export_bsn_lines, indented_line, write_text_lines, BsnLine};
use editor_core::document::ComponentInstance;
use editor_core::instance_projection::root_local_ids;
use editor_core::json::{JsonEntry, JsonValue};
use editor_core::scene_asset::{RelationshipKind, SceneAssetDocument, SceneAssetEntity, SceneAssetRelationship, SceneAssetRole};

fn conv(v: &serde_json::Value) -> JsonValue {
    match v {
        serde_json::Value::Null => JsonValue::Null,
        serde_json::Value::Bool(b) => JsonValue::Bool(*b),
        serde_json::Value::Number(n) => JsonValue::Number(n.to_string()),
        serde_json::Value::String(s) => JsonValue::Str(s.clone()),
        serde_json::Value::Array(a) => JsonValue::Array(a.iter().map(conv).collect()),
        serde_json::Value::Object(m) => JsonValue::Object(
            m.iter().map(|(k, x)| JsonEntry { key: k.clone(), value: conv(x) }).collect(),
        ),
    }
}

fn back(v: &JsonValue) -> serde_json::Value {
    match v {
        JsonValue::Null => serde_json::Value::Null,
        JsonValue::Bool(b) => serde_json::Value::Bool(*b),
        JsonValue::Number(n) => serde_json::from_str(n).unwrap(),
        JsonValue::Str(s) => serde_json::Value::String(s.clone()),
        JsonValue::Array(a) => serde_json::Value::Array(a.iter().map(back).collect()),
        JsonValue::Object(es) => {
            let mut m = serde_json::Map::new();
            for e in es {
                m.insert(e.key.clone(), back(&e.value));
            }
            serde_json::Value::Object(m)
        }
    }
}

/// A JSON value written as JSON text.
fn j(text: &str) -> JsonValue {
    conv(&sj(text))
}

fn sj(text: &str) -> serde_json::Value {
    serde_json::from_str(text).unwrap()
}

/// The member `k` of an object.
fn at<'a>(v: &'a JsonValue, k: &str) -> &'a JsonValue {
    match v {
        JsonValue::Object(es) => &es.iter().find(|e| e.key == k).expect("member").value,
        _ => panic!("not an object"),
    }
}

fn make_asset(entities: Vec<SceneAssetEntity>, relationships: Vec<SceneAssetRelationship>) -> SceneAssetDocument {
    SceneAssetDocument {
        asset_id: "test-asset".to_string(),
        logical_path: "assets/test.bsn".to_string(),
        role: SceneAssetRole::Actor,
        version: 1,
        entities,
        relationships,
    }
}

fn ent(id: &str, path: &str, name: &str) -> SceneAssetEntity {
    SceneAssetEntity { local_id: id.to_string(), local_path: path.to_string(), name: name.to_string(), components: vec![] }
}

fn child(from: &str, to: &str) -> SceneAssetRelationship {
    SceneAssetRelationship { from_local_id: from.to_string(), to_local_id: to.to_string(), kind: RelationshipKind::Child, field_path: None }
}

fn name_comp(name: &str) -> ComponentInstance {
    ComponentInstance { type_id: "editor.Name".to_string(), values: j(&format!(r#"{{"name": "{}"}}"#, name)) }
}

#[test]
fn root_local_ids_empty_asset_returns_empty() {
    let roots = root_local_ids(&make_asset(vec![], vec![]));
    assert!(roots.is_empty(), "Empty asset should have 0 roots");
}

#[test]
fn root_local_ids_single_entity_returns_that_entity() {
    let roots = root_local_ids(&make_asset(vec![ent("root", "root", "Single Entity")], vec![]));
    assert_eq!(roots.len(), 1, "Single entity should have 1 root");
    assert_eq!(roots[0].as_str(), "root");
}

#[test]
fn root_local_ids_multi_entity_hierarchy_returns_only_toplevel() {
    let asset = make_asset(vec![ent("root", "root", "Root"), ent("child", "root/child", "Child")], vec![child("root", "child")]);
    let roots = root_local_ids(&asset);
    assert_eq!(roots.len(), 1, "Hierarchy should have 1 root");
    assert_eq!(roots[0].as_str(), "root");
}

#[test]
fn root_local_ids_two_roots_no_relationships() {
    let asset = make_asset(vec![ent("entity1", "entity1", "Entity 1"), ent("entity2", "entity2", "Entity 2")], vec![]);
    assert_eq!(root_local_ids(&asset).len(), 2, "Two unrelated entities should both be roots");
}

#[test]
fn root_local_ids_deep_hierarchy_only_top_level_returned() {
    let asset = make_asset(
        vec![ent("root", "root", "Root"), ent("child1", "root/child1", "Child1"), ent("grandchild", "root/child1/grandchild", "Grandchild")],
        vec![child("root", "child1"), child("child1", "grandchild")],
    );
    let roots = root_local_ids(&asset);
    assert_eq!(roots.len(), 1, "Deep hierarchy should have only 1 root");
    assert_eq!(roots[0].as_str(), "root");
}

#[test]
fn root_local_ids_multiple_roots_with_relationships() {
    let asset = make_asset(
        vec![ent("root1", "root1", "Root1"), ent("child1", "root1/child1", "Child1"), ent("root2", "root2", "Root2")],
        vec![child("root1", "child1")],
    );
    let roots = root_local_ids(&asset);
    assert_eq!(roots.len(), 2, "Two separate trees should have 2 roots");
    assert!(roots.iter().any(|r| r.as_str() == "root1"));
    assert!(roots.iter().any(|r| r.as_str() == "root2"));
}

#[test]
fn empty_doc_rejected() {
    let doc = make_asset(vec![], vec![]);
    let result = export_bsn_ir(&doc);
    assert!(matches!(result, Err(BsnExportError::EmptyScene)));
}

#[test]
fn logic_role_doc_rejected_with_unsupported_shape() {
    let mut root = ent("root", "root", "Root");
    root.components.push(name_comp("Root"));
    let mut doc = make_asset(vec![root], vec![]);
    doc.role = SceneAssetRole::Logic;
    let result = export_bsn_ir(&doc);
    assert!(matches!(result, Err(BsnExportError::UnsupportedShape(ref s)) if s.contains("logic")));
}

#[test]
fn bsn_export_error_messages() {
    assert_eq!(BsnExportError::EmptyScene.to_string(), "SceneAssetDocument has no entities; nothing to export");
    assert_eq!(BsnExportError::UnsupportedShape("x".to_string()).to_string(), "Unsupported BSN shape: x");
    assert_eq!(BsnExportError::IoError("disk".to_string()).to_string(), "BSN export IO error: disk");
}

#[test]
fn projection_root_children_and_refs() {
    let mut root = ent("root", "root", "Root");
    root.components.push(name_comp("Root"));
    root.components.push(ComponentInstance { type_id: "editor.Name".to_string(), values: j(r#"{"name": "Renamed"}"#) });
    root.components.push(ComponentInstance { type_id: "a.First".to_string(), values: j("{}") });
    let doc = make_asset(
        vec![root, ent("other", "other", "Other"), ent("kid", "root/kid", "Kid")],
        vec![child("root", "kid"), child("other", "root")],
    );
    let ir = bsn_ir_from_scene_asset(&doc);
    assert_eq!(ir.scene_root.identifier, "root");
    let keys: Vec<&str> = ir.scene_root.components.iter().map(|(k, _)| k.as_str()).collect();
    assert_eq!(keys, vec!["a.First", "editor.Name"]);
    assert_eq!(back(at(&ir.scene_root.components[1].1, "name")), sj(r#""Renamed""#));
    assert_eq!(ir.scene_root.children.len(), 1);
    assert_eq!(ir.scene_root.children[0].identifier, "kid");
    assert_eq!(ir.scene_root.relationships.len(), 1);
    assert_eq!(ir.scene_root.relationships[0].kind, "child");
    assert_eq!(ir.scene_root.relationships[0].target_identifier, "kid");
    assert!(ir.asset_refs.is_empty());
    assert!(ir.patches.is_empty());
}

#[test]
fn projection_of_empty_document() {
    let mut doc = make_asset(vec![], vec![]);
    doc.logical_path = String::new();
    let ir = bsn_ir_from_scene_asset(&doc);
    assert_eq!(ir.scene_root.identifier, "empty");
    assert!(ir.scene_root.components.is_empty());
    assert!(ir.scene_root.children.is_empty());
    assert!(ir.asset_refs.is_empty());
}

#[test]
fn escape_and_literals() {
    assert_eq!(escape_string(r#"a"b\c"#), r#"a\"b\\c"#);
    assert_eq!(format_bsn_literal(&j("true")), "true");
    assert_eq!(format_bsn_literal(&j("12")), "12");
    assert_eq!(format_bsn_literal(&j(r#""hi""#)), r#""hi""#);
    assert_eq!(format_bsn_literal(&j("null")), "");
    assert_eq!(format_bsn_literal(&j("[1]")), "");
    assert_eq!(emit_struct_fields(&j(r#"{"hp": 10, "skip": null, "tag": "x"}"#)), r#"hp: 10, tag: "x""#);
    assert_eq!(emit_struct_fields(&j("3")), "");
}

#[test]
fn pascal_case_names() {
    assert_eq!(pascal_case_struct_name("game.player_health"), "PlayerHealth");
    assert_eq!(pascal_case_struct_name("game.enemy-ai"), "EnemyAi");
    assert_eq!(pascal_case_struct_name("plain"), "Plain");
}

#[test]
fn component_text_by_type() {
    assert!(matches!(bsn_component_text("editor.Visible", &j("{}")), BsnComponentText::Skip));
    assert!(matches!(bsn_component_text("editor.Locked", &j("{}")), BsnComponentText::Skip));
    assert!(matches!(bsn_component_text("editor.Transform2D", &j("{}")), BsnComponentText::Transform2D));
    assert!(matches!(bsn_component_text("editor.Sprite2D", &j("{}")), BsnComponentText::Sprite2D));
    match bsn_component_text("editor.Name", &j(r#"{"name": "Ro\"ot"}"#)) {
        BsnComponentText::Line(s) => assert_eq!(s, r#"Name("Ro\"ot")"#),
        other => panic!("{:?}", other),
    }
    match bsn_component_text("game.player_health", &j(r#"{"hp": 3}"#)) {
        BsnComponentText::Line(s) => assert_eq!(s, "PlayerHealth { hp: 3 }"),
        other => panic!("{:?}", other),
    }
    match bsn_component_text("vendor.Thing", &j("{}")) {
        BsnComponentText::Line(s) => assert_eq!(s, "// unknown component type: vendor.Thing"),
        other => panic!("{:?}", other),
    }
}

/// The `.bsn` text of a document whose components hold no transform or sprite.
fn bsn_text(doc: &SceneAssetDocument) -> Result<String, BsnExportError> {
    export_bsn_lines(doc).map(|lines| write_text_lines(&lines).expect("no numeric slot"))
}

fn named_root() -> SceneAssetDocument {
    make_asset(vec![SceneAssetEntity { components: vec![name_comp("Root")], ..ent("root", "root", "Root") }], vec![])
}

#[test]
fn non_empty_doc_emits_bsn_block() {
    let text = bsn_text(&named_root()).unwrap();
    assert!(text.contains("bsn!{"));
    assert!(text.contains("#root"));
    assert!(text.contains("Name(\"Root\")"));
    assert_eq!(text, "bsn!{\n#root\n    Name(\"Root\")\n}\n");
}

#[test]
fn actor_role_still_exports_successfully() {
    let text = bsn_text(&named_root()).unwrap();
    assert!(text.contains("bsn!{"));
    assert!(text.contains("#root"));
    assert!(text.contains("Name(\"Root\")"));
}

#[test]
fn no_legacy_commands_wrapper() {
    let text = bsn_text(&make_asset(vec![ent("root", "root", "Root")], vec![])).unwrap();
    assert!(!text.contains("commands.spawn_scene_list"));
    assert!(!text.contains("bsn_list!["));
    assert!(!text.contains(".unwrap();"));
}

#[test]
fn children_blocks_use_bsn_native_commas() {
    let doc = make_asset(vec![ent("root", "root", "Root"), ent("child", "root/child", "Child")], vec![child("root", "child")]);
    let text = bsn_text(&doc).unwrap();
    assert!(text.contains("Children ["));
    let child_open_idx = text.find("#child").unwrap();
    let child_close_idx = text[child_open_idx..].find("}").unwrap() + child_open_idx;
    let children_close_idx = text[child_close_idx..].rfind("]").unwrap() + child_close_idx;
    let between = &text[child_close_idx + 1..children_close_idx];
    assert!(!between.contains(','), "between child close and Children close found: {:?}", between);
    assert_eq!(
        text,
        "bsn!{\n#root\nChildren [\n    bsn!{\n    #child\n    }\n]\n}\n"
    );
}

#[test]
fn transform_and_sprite_are_left_as_slots() {
    let comps = vec![
        ComponentInstance { type_id: "editor.Transform2D".to_string(), values: j(r#"{"rotation": 0.5}"#) },
        ComponentInstance { type_id: "editor.Sprite2D".to_string(), values: j(r#"{"asset": "a.png"}"#) },
        ComponentInstance { type_id: "editor.Visible".to_string(), values: j("{}") },
    ];
    let doc = make_asset(vec![SceneAssetEntity { components: comps, ..ent("root", "root", "Root") }], vec![]);
    let lines = export_bsn_lines(&doc).unwrap();
    assert_eq!(lines.len(), 5);
    assert!(matches!(lines[2], BsnLine::Sprite { indent: 1, .. }));
    assert!(matches!(lines[3], BsnLine::Transform { indent: 1, .. }));
    assert!(write_text_lines(&lines).is_none());
}

#[test]
fn placeholder_root_writes_nothing_and_lines_indent_by_four() {
    let mut doc = make_asset(vec![], vec![]);
    doc.logical_path = String::new();
    let ir = bsn_ir_from_scene_asset(&doc);
    assert!(bsn_lines(&ir).is_empty());
    assert_eq!(indented_line(2, "x"), "        x\n");
    assert_eq!(indented_line(0, ""), "\n");
}
