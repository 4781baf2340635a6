//! Pieces of the scene export to the runtime: sprite anchors, export warnings and
//! errors, and the resolution of parent references.

use vstd::prelude::*;
use vstd::string::*;
use crate::document::{Entity, EntityV, ComponentV, ComponentInstance, SceneDocument, opt_view, ents_view, comps_view};
use crate::json::{JsonValue, JsonV, strs_view, json_get, find_key};
use crate::text::{str_equal, concat3, to_owned_string};

verus! {

/// A non-fatal problem met while exporting a scene.
#[derive(Debug, Clone, PartialEq)]
pub struct ExportWarning {
    /// The entity concerned, if any.
    pub entity_stable_id: Option<String>,
    /// The component type concerned, if any.
    pub component_type_id: Option<String>,
    pub message: String,
}

/// Errors of a scene export.
#[derive(Debug)]
pub enum ExportError {
    ParseError(String),
    SerializeError(String),
}

/// The nine anchor names a sprite can use.
pub open spec fn anchor_names() -> Seq<Seq<char>> {
    seq![
        "Center"@,
        "TopLeft"@,
        "TopCenter"@,
        "TopRight"@,
        "CenterLeft"@,
        "CenterRight"@,
        "BottomLeft"@,
        "BottomCenter"@,
        "BottomRight"@,
    ]
}

/// Whether `s` is one of the nine anchor names.
pub fn is_known_anchor_str(s: &str) -> (r: bool)
    ensures
        r == anchor_names().contains(s@),
{
    let names: [&str; 9] = ["Center", "TopLeft", "TopCenter", "TopRight", "CenterLeft", "CenterRight", "BottomLeft", "BottomCenter", "BottomRight"];
    let ghost a = anchor_names();
    let mut i: usize = 0;
    while i < 9
        invariant
            i <= 9,
            a == anchor_names(),
            forall|k: int| 0 <= k < 9 ==> (#[trigger] names@[k])@ == a[k],
            forall|k: int| 0 <= k < i ==> a[k] != s@,
        decreases 9 - i,
    {
        if str_equal(s, names[i]) {
            assert(a[i as int] == s@);
            return true;
        }
        i += 1;
    }
    proof {
        if a.contains(s@) {
            let k = choose|k: int| 0 <= k < a.len() && a[k] == s@;
        }
    }
    false
}

/// The runtime's name of anchor `s`: the same name when it is one of the nine.
pub fn anchor_str_to_bevy(s: &str) -> (r: Option<&'static str>)
    ensures
        match r {
            Some(n) => anchor_names().contains(s@) && n@ == s@,
            None => !anchor_names().contains(s@),
        },
{
    let names: [&'static str; 9] = ["Center", "TopLeft", "TopCenter", "TopRight", "CenterLeft", "CenterRight", "BottomLeft", "BottomCenter", "BottomRight"];
    let ghost a = anchor_names();
    let mut i: usize = 0;
    while i < 9
        invariant
            i <= 9,
            a == anchor_names(),
            forall|k: int| 0 <= k < 9 ==> (#[trigger] names@[k])@ == a[k],
            forall|k: int| 0 <= k < i ==> a[k] != s@,
        decreases 9 - i,
    {
        if str_equal(s, names[i]) {
            assert(a[i as int] == s@);
            return Some(names[i]);
        }
        i += 1;
    }
    proof {
        if a.contains(s@) {
            let k = choose|k: int| 0 <= k < a.len() && a[k] == s@;
        }
    }
    None
}

/// The warning for an entity whose parent is not in the scene.
pub open spec fn orphan_message(id: Seq<char>, parent: Seq<char>) -> Seq<char> {
    "Entity "@ + id + " parent "@ + parent + " not found in scene; exporting as root"@
}

/// The parent to export for `entity`: its parent when that id is among `valid_ids`;
/// otherwise none, and a warning is added when it named a parent.
pub fn resolve_parent(entity: &Entity, valid_ids: &Vec<String>, warnings: &mut Vec<ExportWarning>) -> (r: Option<String>)
    ensures
        match entity.parent {
            None => r is None && final(warnings)@ == old(warnings)@,
            Some(p) => if strs_view(valid_ids@).contains(p@) {
                opt_view(r) == Some(p@) && final(warnings)@ == old(warnings)@
            } else {
                &&& r is None
                &&& final(warnings)@.len() == old(warnings)@.len() + 1
                &&& final(warnings)@.subrange(0, old(warnings)@.len() as int) == old(warnings)@
                &&& opt_view(final(warnings)@.last().entity_stable_id) == Some(entity.id@)
                &&& final(warnings)@.last().component_type_id is None
                &&& final(warnings)@.last().message@ == orphan_message(entity.id@, p@)
            },
        },
{
    match &entity.parent {
        None => None,
        Some(p) => {
            let mut i: usize = 0;
            while i < valid_ids.len()
                invariant
                    i <= valid_ids.len(),
                    entity.parent == Some(*p),
                    warnings@ == old(warnings)@,
                    forall|k: int| 0 <= k < i ==> valid_ids@[k]@ != p@,
                decreases valid_ids.len() - i,
            {
                if str_equal(valid_ids[i].as_str(), p.as_str()) {
                    assert(strs_view(valid_ids@)[i as int] == p@);
                    return Some(p.clone());
                }
                i += 1;
            }
            proof {
                if strs_view(valid_ids@).contains(p@) {
                    let k = choose|k: int| 0 <= k < strs_view(valid_ids@).len() && strs_view(valid_ids@)[k] == p@;
                    assert(valid_ids@[k]@ == p@);
                }
            }
            let mut m = String::from_str("Entity ");
            m.append(entity.id.as_str());
            m.append(" parent ");
            m.append(p.as_str());
            m.append(" not found in scene; exporting as root");
            let ghost w0 = warnings@;
            warnings.push(ExportWarning { entity_stable_id: Some(entity.id.clone()), component_type_id: None, message: m });
            assert(warnings@.subrange(0, w0.len() as int) =~= w0);
            None
        },
    }
}

/// Model of a warning: the entity, the component type, the message.
pub type WarnV = (Option<Seq<char>>, Option<Seq<char>>, Seq<char>);

/// The model of a warning.
pub open spec fn warn_view(w: ExportWarning) -> WarnV {
    (opt_view(w.entity_stable_id), opt_view(w.component_type_id), w.message@)
}

/// The models of a list of warnings.
pub open spec fn warns_view(ws: Seq<ExportWarning>) -> Seq<WarnV> {
    ws.map_values(|w: ExportWarning| warn_view(w))
}

/// A warning about component type `t` of entity `id`.
pub open spec fn comp_warn(id: Seq<char>, t: Seq<char>, m: Seq<char>) -> WarnV {
    (Some(id), Some(t), m)
}

/// The text of a JSON number, when `v` is one.
pub open spec fn num_text(v: Option<JsonV>) -> Option<Seq<char>> {
    match v {
        Some(JsonV::Number(n)) => Some(n),
        _ => None,
    }
}

/// The characters of a JSON string, when `v` is one.
pub open spec fn str_text(v: Option<JsonV>) -> Option<Seq<char>> {
    match v {
        Some(JsonV::Str(s)) => Some(s),
        _ => None,
    }
}

/// The `x` and `y` numbers of `v`, when both are there.
pub open spec fn vec2_of(v: JsonV) -> Option<(Seq<char>, Seq<char>)> {
    match (num_text(json_get(v, "x"@)), num_text(json_get(v, "y"@))) {
        (Some(x), Some(y)) => Some((x, y)),
        _ => None,
    }
}

/// A vector field of a transform: absent is silently the default; present but without
/// numeric `x` and `y` is the default with a warning.
pub open spec fn vec2_step(v: Option<JsonV>, field: Seq<char>, id: Seq<char>) -> (Option<(Seq<char>, Seq<char>)>, Seq<WarnV>) {
    match v {
        None => (None, Seq::empty()),
        Some(x) => match vec2_of(x) {
            Some(p) => (Some(p), Seq::empty()),
            None => (None, seq![comp_warn(id, "editor.Transform2D"@, "Transform2D "@ + field + " invalid on entity "@ + id + "; using default"@)]),
        },
    }
}

/// The rotation of a transform: absent is silently zero; present but not a number is
/// zero with a warning.
pub open spec fn rotation_step(v: Option<JsonV>, id: Seq<char>) -> (Option<Seq<char>>, Seq<WarnV>) {
    match v {
        None => (None, Seq::empty()),
        Some(JsonV::Number(n)) => (Some(n), Seq::empty()),
        Some(_) => (None, seq![comp_warn(id, "editor.Transform2D"@, "Transform2D rotation invalid on entity "@ + id + "; using 0"@)]),
    }
}

/// Model of an exported transform: the numbers found, or none where the default applies.
pub struct TransformV {
    pub translation: Option<(Seq<char>, Seq<char>)>,
    pub rotation: Option<Seq<char>>,
    pub scale: Option<(Seq<char>, Seq<char>)>,
}

/// The transform exported from `values`, with its warnings in order.
pub open spec fn transform_export(values: JsonV, id: Seq<char>) -> (TransformV, Seq<WarnV>) {
    let (t, w1) = vec2_step(json_get(values, "translation"@), "translation"@, id);
    let (r, w2) = rotation_step(json_get(values, "rotation"@), id);
    let (s, w3) = vec2_step(json_get(values, "scale"@), "scale"@, id);
    (TransformV { translation: t, rotation: r, scale: s }, w1 + w2 + w3)
}

/// The `r`, `g`, `b`, `a` numbers of the `color` member of `values`, when all are there.
pub open spec fn color_of(values: JsonV) -> Option<(Seq<char>, Seq<char>, Seq<char>, Seq<char>)> {
    match json_get(values, "color"@) {
        Some(c) => match (num_text(json_get(c, "r"@)), num_text(json_get(c, "g"@)), num_text(json_get(c, "b"@)), num_text(json_get(c, "a"@))) {
            (Some(r), Some(g), Some(b), Some(a)) => Some((r, g, b, a)),
            _ => None,
        },
        None => None,
    }
}

/// Model of an exported sprite: its asset, its color numbers (none means white), its anchor.
pub struct SpriteV {
    pub asset: Seq<char>,
    pub color: Option<(Seq<char>, Seq<char>, Seq<char>, Seq<char>)>,
    pub anchor: Seq<char>,
}

/// The sprite exported from `values` and its warnings: none with an empty asset path; a
/// missing color is white and an unknown anchor is `Center`, each with a warning.
pub open spec fn sprite_export(values: JsonV, id: Seq<char>) -> (Option<SpriteV>, Seq<WarnV>) {
    let asset = match str_text(json_get(values, "asset"@)) {
        Some(a) => a,
        None => Seq::empty(),
    };
    if asset.len() == 0 {
        (None, seq![comp_warn(id, "editor.Sprite2D"@, "Sprite2D on entity "@ + id + " has empty asset path; Sprite omitted"@)])
    } else {
        let c = color_of(values);
        let w1 = if c is None {
            seq![comp_warn(id, "editor.Sprite2D"@, "Sprite2D color invalid or missing on entity "@ + id + "; using white"@)]
        } else {
            Seq::empty()
        };
        let a = match str_text(json_get(values, "anchor"@)) {
            Some(n) => if anchor_names().contains(n) { Some(n) } else { None },
            None => None,
        };
        let w2 = if a is None {
            seq![comp_warn(id, "editor.Sprite2D"@, "Sprite2D anchor invalid on entity "@ + id + "; using Center"@)]
        } else {
            Seq::empty()
        };
        (Some(SpriteV { asset: asset, color: c, anchor: match a { Some(n) => n, None => "Center"@ } }), w1 + w2)
    }
}

/// The name exported from `values`: its `name` string, or the empty string with a warning.
pub open spec fn name_export(values: JsonV, id: Seq<char>) -> (Seq<char>, Seq<WarnV>) {
    match str_text(json_get(values, "name"@)) {
        Some(n) => (n, Seq::empty()),
        None => (Seq::empty(), seq![comp_warn(id, "editor.Name"@, "Name missing on entity "@ + id + "; using empty string"@)]),
    }
}

/// Model of the runtime components of an entity: at most one name, transform and sprite.
pub struct SlotsV {
    pub name: Option<Seq<char>>,
    pub transform: Option<TransformV>,
    pub sprite: Option<SpriteV>,
}

/// The runtime components exported from `cs[..n]` of entity `id`, with the warnings in
/// order. A later component of a kind replaces an earlier one; editor-only components are
/// dropped silently, unknown ones with a warning.
pub open spec fn components_export(id: Seq<char>, cs: Seq<ComponentV>, n: int) -> (SlotsV, Seq<WarnV>)
    decreases n,
{
    if n <= 0 || n > cs.len() {
        (SlotsV { name: None, transform: None, sprite: None }, Seq::empty())
    } else {
        let (s, w) = components_export(id, cs, n - 1);
        let c = cs[n - 1];
        if c.type_id == "editor.Name"@ {
            let (nm, w1) = name_export(c.values, id);
            (SlotsV { name: Some(nm), ..s }, w + w1)
        } else if c.type_id == "editor.Transform2D"@ {
            let (t, w1) = transform_export(c.values, id);
            (SlotsV { transform: Some(t), ..s }, w + w1)
        } else if c.type_id == "editor.Sprite2D"@ {
            let (sp, w1) = sprite_export(c.values, id);
            (match sp { Some(x) => SlotsV { sprite: Some(x), ..s }, None => s }, w + w1)
        } else if c.type_id == "editor.Visible"@ || c.type_id == "editor.Locked"@ {
            (s, w)
        } else {
            (s, w.push(comp_warn(id, c.type_id, "Skipping unknown component '"@ + c.type_id + "' on entity "@ + id)))
        }
    }
}

/// The member `k` of `v`, when `v` is an object that has it.
fn member<'a>(v: &'a JsonValue, k: &str) -> (r: Option<&'a JsonValue>)
    ensures
        match r {
            Some(x) => json_get(v@, k@) == Some(x@),
            None => json_get(v@, k@) is None,
        },
{
    match v {
        JsonValue::Object(es) => match find_key(es, k) {
            Some(i) => {
                assert(v@->Object_0[i as int] == (es@[i as int].key@, es@[i as int].value@));
                Some(&es[i].value)
            },
            None => None,
        },
        _ => None,
    }
}

fn num_member(v: &JsonValue, k: &str) -> (r: Option<String>)
    ensures
        opt_view(r) == num_text(json_get(v@, k@)),
{
    match member(v, k) {
        Some(JsonValue::Number(n)) => Some(n.clone()),
        _ => None,
    }
}

fn str_member(v: &JsonValue, k: &str) -> (r: Option<String>)
    ensures
        opt_view(r) == str_text(json_get(v@, k@)),
{
    match member(v, k) {
        Some(JsonValue::Str(s)) => Some(s.clone()),
        _ => None,
    }
}

/// The model of an optional pair of numbers.
pub open spec fn pair_view(p: Option<(String, String)>) -> Option<(Seq<char>, Seq<char>)> {
    match p {
        Some((a, b)) => Some((a@, b@)),
        None => None,
    }
}

fn push_comp_warn(warnings: &mut Vec<ExportWarning>, id: &String, t: &str, m: String)
    ensures
        warns_view(final(warnings)@) == warns_view(old(warnings)@).push(comp_warn(id@, t@, m@)),
{
    warnings.push(ExportWarning { entity_stable_id: Some(id.clone()), component_type_id: Some(to_owned_string(t)), message: m });
    assert(warns_view(warnings@) =~= warns_view(old(warnings)@).push(comp_warn(id@, t@, m@)));
}

fn vec2_exec(values: &JsonValue, field: &str, id: &String, warnings: &mut Vec<ExportWarning>) -> (r: Option<(String, String)>)
    ensures
        pair_view(r) == vec2_step(json_get(values@, field@), field@, id@).0,
        warns_view(final(warnings)@) == warns_view(old(warnings)@) + vec2_step(json_get(values@, field@), field@, id@).1,
{
    match member(values, field) {
        None => {
            assert(warns_view(warnings@) =~= warns_view(old(warnings)@) + Seq::<WarnV>::empty());
            None
        },
        Some(v) => {
            let x = num_member(v, "x");
            let y = num_member(v, "y");
            match (x, y) {
                (Some(x), Some(y)) => {
                    assert(warns_view(warnings@) =~= warns_view(old(warnings)@) + Seq::<WarnV>::empty());
                    Some((x, y))
                },
                _ => {
                    let mut m = concat3("Transform2D ", field, " invalid on entity ");
                    m.append(id.as_str());
                    m.append("; using default");
                    push_comp_warn(warnings, id, "editor.Transform2D", m);
                    None
                },
            }
        },
    }
}

/// An exported transform: the numbers found, by their text, or none where the default applies.
#[derive(Debug)]
pub struct TransformExport {
    pub translation: Option<(String, String)>,
    pub rotation: Option<String>,
    pub scale: Option<(String, String)>,
}

impl TransformExport {
    pub open spec fn view(&self) -> TransformV {
        TransformV { translation: pair_view(self.translation), rotation: opt_view(self.rotation), scale: pair_view(self.scale) }
    }
}

fn transform_exec(values: &JsonValue, id: &String, warnings: &mut Vec<ExportWarning>) -> (r: TransformExport)
    ensures
        r@ == transform_export(values@, id@).0,
        warns_view(final(warnings)@) == warns_view(old(warnings)@) + transform_export(values@, id@).1,
{
    let ghost w0 = warns_view(warnings@);
    let translation = vec2_exec(values, "translation", id, warnings);
    let ghost w1 = warns_view(warnings@);
    let rotation = match member(values, "rotation") {
        None => None,
        Some(JsonValue::Number(n)) => Some(n.clone()),
        Some(_) => {
            let m = concat3("Transform2D rotation invalid on entity ", id.as_str(), "; using 0");
            push_comp_warn(warnings, id, "editor.Transform2D", m);
            None
        },
    };
    let ghost w2 = warns_view(warnings@);
    assert(w2 =~= w1 + rotation_step(json_get(values@, "rotation"@), id@).1);
    let scale = vec2_exec(values, "scale", id, warnings);
    let r = TransformExport { translation, rotation, scale };
    proof {
        let (t, a) = vec2_step(json_get(values@, "translation"@), "translation"@, id@);
        let (ro, b) = rotation_step(json_get(values@, "rotation"@), id@);
        let (sc, c) = vec2_step(json_get(values@, "scale"@), "scale"@, id@);
        assert(warns_view(warnings@) =~= w0 + (a + b + c));
    }
    r
}

/// An exported sprite: its asset path, its color numbers by their text (none means white),
/// and its anchor name.
#[derive(Debug)]
pub struct SpriteExport {
    pub asset: String,
    pub color: Option<(String, String, String, String)>,
    pub anchor: String,
}

/// The model of an optional color.
pub open spec fn color_view(c: Option<(String, String, String, String)>) -> Option<(Seq<char>, Seq<char>, Seq<char>, Seq<char>)> {
    match c {
        Some((r, g, b, a)) => Some((r@, g@, b@, a@)),
        None => None,
    }
}

impl SpriteExport {
    pub open spec fn view(&self) -> SpriteV {
        SpriteV { asset: self.asset@, color: color_view(self.color), anchor: self.anchor@ }
    }
}

/// The model of an optional sprite.
pub open spec fn opt_sprite_view(s: Option<SpriteExport>) -> Option<SpriteV> {
    match s {
        Some(x) => Some(x@),
        None => None,
    }
}

fn color_exec(values: &JsonValue) -> (r: Option<(String, String, String, String)>)
    ensures
        color_view(r) == color_of(values@),
{
    match member(values, "color") {
        None => None,
        Some(c) => {
            let r = num_member(c, "r");
            let g = num_member(c, "g");
            let b = num_member(c, "b");
            let a = num_member(c, "a");
            match (r, g, b, a) {
                (Some(r), Some(g), Some(b), Some(a)) => Some((r, g, b, a)),
                _ => None,
            }
        },
    }
}

fn sprite_exec(values: &JsonValue, id: &String, warnings: &mut Vec<ExportWarning>) -> (r: Option<SpriteExport>)
    ensures
        opt_sprite_view(r) == sprite_export(values@, id@).0,
        warns_view(final(warnings)@) == warns_view(old(warnings)@) + sprite_export(values@, id@).1,
{
    let ghost w0 = warns_view(warnings@);
    let asset = match str_member(values, "asset") {
        Some(a) => a,
        None => String::new(),
    };
    if asset.unicode_len() == 0 {
        let m = concat3("Sprite2D on entity ", id.as_str(), " has empty asset path; Sprite omitted");
        push_comp_warn(warnings, id, "editor.Sprite2D", m);
        return None;
    }
    let color = color_exec(values);
    if color.is_none() {
        let m = concat3("Sprite2D color invalid or missing on entity ", id.as_str(), "; using white");
        push_comp_warn(warnings, id, "editor.Sprite2D", m);
    }
    let ghost w1 = warns_view(warnings@);
    let anchor: Option<&'static str> = match str_member(values, "anchor") {
        Some(n) => anchor_str_to_bevy(n.as_str()),
        None => None,
    };
    let anchor_name = match anchor {
        Some(n) => to_owned_string(n),
        None => {
            let m = concat3("Sprite2D anchor invalid on entity ", id.as_str(), "; using Center");
            push_comp_warn(warnings, id, "editor.Sprite2D", m);
            to_owned_string("Center")
        },
    };
    proof {
        let c = color_of(values@);
        let wa = if c is None {
            seq![comp_warn(id@, "editor.Sprite2D"@, "Sprite2D color invalid or missing on entity "@ + id@ + "; using white"@)]
        } else {
            Seq::<WarnV>::empty()
        };
        assert(w1 =~= w0 + wa);
        let a = match str_text(json_get(values@, "anchor"@)) {
            Some(n) => if anchor_names().contains(n) { Some(n) } else { None },
            None => None,
        };
        let wb = if a is None {
            seq![comp_warn(id@, "editor.Sprite2D"@, "Sprite2D anchor invalid on entity "@ + id@ + "; using Center"@)]
        } else {
            Seq::<WarnV>::empty()
        };
        assert(warns_view(warnings@) =~= w0 + (wa + wb));
    }
    Some(SpriteExport { asset, color, anchor: anchor_name })
}

fn name_exec(values: &JsonValue, id: &String, warnings: &mut Vec<ExportWarning>) -> (r: String)
    ensures
        r@ == name_export(values@, id@).0,
        warns_view(final(warnings)@) == warns_view(old(warnings)@) + name_export(values@, id@).1,
{
    match str_member(values, "name") {
        Some(n) => {
            assert(warns_view(warnings@) =~= warns_view(old(warnings)@) + Seq::<WarnV>::empty());
            n
        },
        None => {
            let m = concat3("Name missing on entity ", id.as_str(), "; using empty string");
            push_comp_warn(warnings, id, "editor.Name", m);
            String::new()
        },
    }
}

/// One exported entity: its id, name and parent, and its runtime components.
#[derive(Debug)]
pub struct EntityExportPlan {
    pub stable_id: String,
    pub name: String,
    pub parent_stable_id: Option<String>,
    /// The runtime name, when the entity has a name component.
    pub bevy_name: Option<String>,
    pub transform: Option<TransformExport>,
    pub sprite: Option<SpriteExport>,
}

/// The model of an optional transform.
pub open spec fn opt_transform_view(t: Option<TransformExport>) -> Option<TransformV> {
    match t {
        Some(x) => Some(x@),
        None => None,
    }
}

impl EntityExportPlan {
    /// The runtime components of the entity.
    pub open spec fn slots(&self) -> SlotsV {
        SlotsV { name: opt_view(self.bevy_name), transform: opt_transform_view(self.transform), sprite: opt_sprite_view(self.sprite) }
    }
}

fn components_exec(id: &String, cs: &Vec<ComponentInstance>, warnings: &mut Vec<ExportWarning>) -> (r: (Option<String>, Option<TransformExport>, Option<SpriteExport>))
    ensures
        (SlotsV { name: opt_view(r.0), transform: opt_transform_view(r.1), sprite: opt_sprite_view(r.2) }, warns_view(final(warnings)@))
            == ({
                let (sl, w) = components_export(id@, comps_view(cs@), cs@.len() as int);
                (sl, warns_view(old(warnings)@) + w)
            }),
{
    proof {
        reveal_strlit("editor.Name");
        reveal_strlit("editor.Transform2D");
        reveal_strlit("editor.Sprite2D");
        reveal_strlit("editor.Visible");
        reveal_strlit("editor.Locked");
    }
    let ghost cv = comps_view(cs@);
    let ghost w0 = warns_view(warnings@);
    let mut name: Option<String> = None;
    let mut transform: Option<TransformExport> = None;
    let mut sprite: Option<SpriteExport> = None;
    let mut i: usize = 0;
    assert(w0 =~= w0 + Seq::<WarnV>::empty());
    while i < cs.len()
        invariant
            cv == comps_view(cs@),
            i <= cs.len(),
            (SlotsV { name: opt_view(name), transform: opt_transform_view(transform), sprite: opt_sprite_view(sprite) }, warns_view(warnings@))
                == ({
                    let (sl, w) = components_export(id@, cv, i as int);
                    (sl, w0 + w)
                }),
        decreases cs.len() - i,
    {
        let c = &cs[i];
        assert(cv[i as int] == c@);
        let ghost wb = warns_view(warnings@);
        let ghost prev = components_export(id@, cv, i as int);
        let t = c.type_id.as_str();
        if str_equal(t, "editor.Name") {
            name = Some(name_exec(&c.values, id, warnings));
            proof {
                assert(warns_view(warnings@) =~= w0 + (prev.1 + name_export(c.values@, id@).1));
            }
        } else if str_equal(t, "editor.Transform2D") {
            transform = Some(transform_exec(&c.values, id, warnings));
            proof {
                assert(warns_view(warnings@) =~= w0 + (prev.1 + transform_export(c.values@, id@).1));
            }
        } else if str_equal(t, "editor.Sprite2D") {
            match sprite_exec(&c.values, id, warnings) {
                Some(x) => {
                    sprite = Some(x);
                },
                None => {},
            }
            proof {
                assert(warns_view(warnings@) =~= w0 + (prev.1 + sprite_export(c.values@, id@).1));
            }
        } else if str_equal(t, "editor.Visible") || str_equal(t, "editor.Locked") {
        } else {
            let mut m = concat3("Skipping unknown component '", t, "' on entity ");
            m.append(id.as_str());
            push_comp_warn(warnings, id, t, m);
            proof {
                assert(warns_view(warnings@) =~= w0 + prev.1.push(comp_warn(id@, c.type_id@, "Skipping unknown component '"@ + c.type_id@ + "' on entity "@ + id@)));
            }
        }
        i += 1;
    }
    (name, transform, sprite)
}

/// The version of the export format.
pub const EXPORT_VERSION: &'static str = "0.1.0";

/// Model of an exported entity.
pub struct EntityPlanV {
    pub stable_id: Seq<char>,
    pub name: Seq<char>,
    pub parent: Option<Seq<char>>,
    pub slots: SlotsV,
}

impl EntityExportPlan {
    pub open spec fn view(&self) -> EntityPlanV {
        EntityPlanV { stable_id: self.stable_id@, name: self.name@, parent: opt_view(self.parent_stable_id), slots: self.slots() }
    }
}

/// The ids of the entities.
pub open spec fn entity_ids(es: Seq<EntityV>) -> Seq<Seq<char>> {
    es.map_values(|e: EntityV| e.id)
}

/// The exported parent of `e`: its parent when that is one of `ids`; otherwise none, with
/// a warning when it named a parent.
pub open spec fn parent_export(e: EntityV, ids: Seq<Seq<char>>) -> (Option<Seq<char>>, Seq<WarnV>) {
    match e.parent {
        None => (None, Seq::empty()),
        Some(p) => if ids.contains(p) {
            (Some(p), Seq::empty())
        } else {
            (None, seq![(Some(e.id), None::<Seq<char>>, orphan_message(e.id, p))])
        },
    }
}

/// The export of the entities `es[..n]`, in document order, and all warnings in order:
/// for each entity, its parent warning and then its component warnings.
pub open spec fn scene_export(es: Seq<EntityV>, ids: Seq<Seq<char>>, n: int) -> (Seq<EntityPlanV>, Seq<WarnV>)
    decreases n,
{
    if n <= 0 || n > es.len() {
        (Seq::empty(), Seq::empty())
    } else {
        let (ps, w) = scene_export(es, ids, n - 1);
        let e = es[n - 1];
        let (p, w1) = parent_export(e, ids);
        let (sl, w2) = components_export(e.id, e.components, e.components.len() as int);
        (ps.push(EntityPlanV { stable_id: e.id, name: e.name, parent: p, slots: sl }), w + w1 + w2)
    }
}

/// The export of a scene to the runtime, before numbers are converted: one entry per
/// entity in document order, and the warnings met.
#[derive(Debug)]
pub struct DynamicScenePlan {
    pub version: String,
    pub source_scene_id: String,
    pub entities: Vec<EntityExportPlan>,
    pub warnings: Vec<ExportWarning>,
}

/// Maps a scene document onto the runtime's components. Never fails: a missing parent, an
/// unknown component or an invalid value becomes a warning and a default.
pub fn plan_dynamic_scene(doc: &SceneDocument) -> (r: DynamicScenePlan)
    ensures
        r.version@ == EXPORT_VERSION@,
        r.source_scene_id@ == doc.scene_id@,
        r.entities@.map_values(|e: EntityExportPlan| e@) == scene_export(ents_view(doc.entities@), entity_ids(ents_view(doc.entities@)), doc.entities@.len() as int).0,
        warns_view(r.warnings@) == scene_export(ents_view(doc.entities@), entity_ids(ents_view(doc.entities@)), doc.entities@.len() as int).1,
{
    let ghost es = ents_view(doc.entities@);
    let ghost ids = entity_ids(es);
    let mut valid_ids: Vec<String> = Vec::new();
    let mut k: usize = 0;
    while k < doc.entities.len()
        invariant
            es == ents_view(doc.entities@),
            ids == entity_ids(es),
            k <= doc.entities.len(),
            strs_view(valid_ids@) == ids.subrange(0, k as int),
        decreases doc.entities.len() - k,
    {
        assert(es[k as int] == doc.entities@[k as int]@);
        assert(ids[k as int] == doc.entities@[k as int].id@);
        let ghost before = strs_view(valid_ids@);
        valid_ids.push(doc.entities[k].id.clone());
        proof {
            assert(ids.len() == doc.entities@.len());
            assert(strs_view(valid_ids@) =~= before.push(ids[k as int]));
            assert(ids.subrange(0, k + 1) =~= ids.subrange(0, k as int).push(ids[k as int]));
        }
        k += 1;
    }
    assert(ids.subrange(0, doc.entities@.len() as int) =~= ids);
    let mut entities: Vec<EntityExportPlan> = Vec::new();
    let mut warnings: Vec<ExportWarning> = Vec::new();
    let mut i: usize = 0;
    assert(entities@.map_values(|e: EntityExportPlan| e@) =~= Seq::<EntityPlanV>::empty());
    assert(warns_view(warnings@) =~= Seq::<WarnV>::empty());
    while i < doc.entities.len()
        invariant
            es == ents_view(doc.entities@),
            ids == entity_ids(es),
            strs_view(valid_ids@) == ids,
            i <= doc.entities.len(),
            entities@.map_values(|e: EntityExportPlan| e@) == scene_export(es, ids, i as int).0,
            warns_view(warnings@) == scene_export(es, ids, i as int).1,
        decreases doc.entities.len() - i,
    {
        let e = &doc.entities[i];
        assert(es[i as int] == e@);
        let ghost prev = scene_export(es, ids, i as int);
        let ghost wb = warnings@;
        let parent = resolve_parent(e, &valid_ids, &mut warnings);
        proof {
            let (p, w1) = parent_export(e@, ids);
            assert(opt_view(parent) == p);
            if e.parent is Some && !ids.contains(e.parent->0@) {
                assert(warnings@ =~= wb.push(warnings@.last()));
            }
            assert(warns_view(warnings@) =~= prev.1 + w1);
        }
        let ghost wp = warns_view(warnings@);
        let (bevy_name, transform, sprite) = components_exec(&e.id, &e.components, &mut warnings);
        let plan = EntityExportPlan {
            stable_id: e.id.clone(),
            name: e.name.clone(),
            parent_stable_id: parent,
            bevy_name,
            transform,
            sprite,
        };
        let ghost pv = plan@;
        entities.push(plan);
        proof {
            let (p, w1) = parent_export(e@, ids);
            let (sl, w2) = components_export(e@.id, e@.components, e@.components.len() as int);
            assert(pv == EntityPlanV { stable_id: e@.id, name: e@.name, parent: p, slots: sl });
            assert(entities@.map_values(|x: EntityExportPlan| x@) =~= prev.0.push(pv));
            assert(warns_view(warnings@) =~= prev.1 + w1 + w2);
        }
        i += 1;
    }
    DynamicScenePlan { version: to_owned_string(EXPORT_VERSION), source_scene_id: doc.scene_id.clone(), entities, warnings }
}

/// The color of an exported sprite is read member by member: when the component's `color`
/// object holds numbers under `r`, `g`, `b` and `a`, the sprite's color is those four
/// numbers in that order; when any of them is missing or not a number, the sprite is white
/// (no color) and a warning says so.
pub proof fn law_sprite_color_is_read_by_channel(values: JsonV, id: Seq<char>)
    requires
        sprite_export(values, id).0 is Some,
    ensures
        ({
            let s = sprite_export(values, id).0->Some_0;
            match json_get(values, "color"@) {
                Some(c) => match (json_get(c, "r"@), json_get(c, "g"@), json_get(c, "b"@), json_get(c, "a"@)) {
                    (Some(JsonV::Number(r)), Some(JsonV::Number(g)), Some(JsonV::Number(b)), Some(JsonV::Number(a))) => s.color
                        == Some((r, g, b, a)),
                    _ => s.color is None,
                },
                None => s.color is None,
            }
        }),
        sprite_export(values, id).0->Some_0.color is None ==> sprite_export(values, id).1.contains(
            comp_warn(id, "editor.Sprite2D"@, "Sprite2D color invalid or missing on entity "@ + id + "; using white"@),
        ),
{
    let c = color_of(values);
    if c is None {
        let w = comp_warn(id, "editor.Sprite2D"@, "Sprite2D color invalid or missing on entity "@ + id + "; using white"@);
        let w2 = sprite_export(values, id).1;
        assert(w2[0] == w);
    }
}

/// The `x`/`y` pair read from member `key` of `values`: `Some(Some((x, y)))` when that
/// member holds numbers under `x` and `y`, `Some(None)` when it is present otherwise, and
/// `None` when it is absent.
pub open spec fn pair_member(values: JsonV, key: Seq<char>) -> Option<Option<(Seq<char>, Seq<char>)>> {
    match json_get(values, key) {
        None => None,
        Some(v) => match (json_get(v, "x"@), json_get(v, "y"@)) {
            (Some(JsonV::Number(x)), Some(JsonV::Number(y))) => Some(Some((x, y))),
            _ => Some(None),
        },
    }
}

/// An exported transform reads each member by name: the translation and scale are the
/// numbers under `x` and `y`, in that order, of the members `translation` and `scale`,
/// and the rotation is the number under `rotation`; a member that is absent or malformed
/// leaves the default. An exported sprite keeps the component's `asset` text, and its
/// anchor is the component's `anchor` when that names a known anchor, else `Center`.
pub proof fn law_transform_and_sprite_fields_are_read_by_name(values: JsonV, id: Seq<char>)
    ensures
        ({
            let t = transform_export(values, id).0;
            &&& t.translation == match pair_member(values, "translation"@) {
                Some(Some(p)) => Some(p),
                _ => None::<(Seq<char>, Seq<char>)>,
            }
            &&& t.scale == match pair_member(values, "scale"@) {
                Some(Some(p)) => Some(p),
                _ => None::<(Seq<char>, Seq<char>)>,
            }
            &&& t.rotation == match json_get(values, "rotation"@) {
                Some(JsonV::Number(r)) => Some(r),
                _ => None::<Seq<char>>,
            }
        }),
        sprite_export(values, id).0 is Some ==> {
            let s = sprite_export(values, id).0->Some_0;
            &&& json_get(values, "asset"@) == Some(JsonV::Str(s.asset))
            &&& s.asset.len() > 0
            &&& match json_get(values, "anchor"@) {
                Some(JsonV::Str(n)) => s.anchor == if anchor_names().contains(n) { n } else { "Center"@ },
                _ => s.anchor == "Center"@,
            }
        },
{
}

} // verus!
