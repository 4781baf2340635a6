//! What the preview keeps between frames, and what it spawns for each entity.

use vstd::prelude::*;
use vstd::string::*;
use crate::document::{ComponentInstance, ComponentV, comps_view, opt_view};
use crate::dynamic_scene::{anchor_names, is_known_anchor_str};
use crate::json::{find_key, json_clone, json_get, JsonV, JsonValue};
use crate::text::{str_equal, to_owned_string};

verus! {

/// The rebuild count after one more rebuild: one more, staying at the largest `u32`
/// once there.
pub fn next_rebuild_count(count: u32) -> (r: u32)
    ensures
        r == (if count < u32::MAX { count + 1 } else { count as int }),
{
    count.saturating_add(1)
}

/// The string under key `k` of an object, if it is a string.
pub open spec fn str_member(v: JsonV, k: Seq<char>) -> Option<Seq<char>> {
    match json_get(v, k) {
        Some(JsonV::Str(s)) => Some(s),
        _ => None,
    }
}

fn str_member_exec(v: &JsonValue, k: &str) -> (r: Option<String>)
    ensures
        match r {
            Some(s) => str_member(v@, k@) == Some(s@),
            None => str_member(v@, k@) is None,
        },
{
    match v {
        JsonValue::Object(es) => match find_key(es, k) {
            Some(i) => {
                assert(v@->Object_0[i as int] == (es@[i as int].key@, es@[i as int].value@));
                match &es[i].value {
                    JsonValue::Str(s) => Some(s.clone()),
                    _ => None,
                }
            },
            None => None,
        },
        _ => None,
    }
}

/// What the preview spawns for one entity: its name, the values of its transform and
/// sprite (whose numbers the engine reads), the sprite's anchor name and whether it is
/// one of the nine known anchors, and the values of its logic binding.
#[derive(Debug)]
pub struct SpawnPlan {
    pub name: Option<String>,
    pub transform: Option<JsonValue>,
    pub sprite: Option<JsonValue>,
    /// The anchor name read from the sprite, `Center` when none was given.
    pub anchor: String,
    /// The anchor is one of the nine names; an unknown one falls back to the centre with
    /// a warning.
    pub anchor_known: bool,
    pub logic_binding: Option<JsonValue>,
}

/// Model of a spawn plan, before the anchor's default.
pub struct SpawnV {
    pub name: Option<Seq<char>>,
    pub transform: Option<JsonV>,
    pub sprite: Option<JsonV>,
    pub anchor: Option<Seq<char>>,
    pub logic_binding: Option<JsonV>,
}

/// The model of an optional JSON value.
pub open spec fn opt_json(v: Option<JsonValue>) -> Option<JsonV> {
    match v {
        Some(x) => Some(x@),
        None => None,
    }
}

/// Reading the components `cs[..n]` in order: a name component with a string name sets
/// the name; the last transform, sprite and logic binding win; a sprite with a string
/// anchor sets the anchor; every other component is skipped.
pub open spec fn spawn_fold(cs: Seq<ComponentV>, n: int) -> SpawnV
    decreases n,
{
    if n <= 0 || n > cs.len() {
        SpawnV { name: None, transform: None, sprite: None, anchor: None, logic_binding: None }
    } else {
        let p = spawn_fold(cs, n - 1);
        let c = cs[n - 1];
        if c.type_id == "editor.Name"@ {
            match str_member(c.values, "name"@) {
                Some(s) => SpawnV { name: Some(s), ..p },
                None => p,
            }
        } else if c.type_id == "editor.Transform2D"@ {
            SpawnV { transform: Some(c.values), ..p }
        } else if c.type_id == "editor.Sprite2D"@ {
            match str_member(c.values, "anchor"@) {
                Some(a) => SpawnV { sprite: Some(c.values), anchor: Some(a), ..p },
                None => SpawnV { sprite: Some(c.values), ..p },
            }
        } else if c.type_id == "editor.LogicBinding"@ {
            SpawnV { logic_binding: Some(c.values), ..p }
        } else {
            p
        }
    }
}

/// The anchor name used: the one read, else `Center`.
pub open spec fn anchor_or_center(a: Option<Seq<char>>) -> Seq<char> {
    match a {
        Some(s) => s,
        None => "Center"@,
    }
}

/// The spawn plan of an entity with components `components`.
pub fn plan_spawn(components: &Vec<ComponentInstance>) -> (r: SpawnPlan)
    ensures
        ({
            let f = spawn_fold(comps_view(components@), components@.len() as int);
            &&& opt_view(r.name) == f.name
            &&& opt_json(r.transform) == f.transform
            &&& opt_json(r.sprite) == f.sprite
            &&& opt_json(r.logic_binding) == f.logic_binding
            &&& r.anchor@ == anchor_or_center(f.anchor)
            &&& r.anchor_known == anchor_names().contains(anchor_or_center(f.anchor))
        }),
{
    let ghost cs = comps_view(components@);
    let mut name: Option<String> = None;
    let mut transform: Option<JsonValue> = None;
    let mut sprite: Option<JsonValue> = None;
    let mut anchor: Option<String> = None;
    let mut logic_binding: Option<JsonValue> = None;
    let mut i: usize = 0;
    while i < components.len()
        invariant
            i <= components.len(),
            cs == comps_view(components@),
            ({
                let f = spawn_fold(cs, i as int);
                &&& opt_view(name) == f.name
                &&& opt_json(transform) == f.transform
                &&& opt_json(sprite) == f.sprite
                &&& opt_view(anchor) == f.anchor
                &&& opt_json(logic_binding) == f.logic_binding
            }),
        decreases components.len() - i,
    {
        let c = &components[i];
        assert(cs[i as int] == c@);
        proof {
            reveal_strlit("editor.Name");
            reveal_strlit("editor.Transform2D");
            reveal_strlit("editor.Sprite2D");
            reveal_strlit("editor.LogicBinding");
        }
        let t = c.type_id.as_str();
        if str_equal(t, "editor.Name") {
            match str_member_exec(&c.values, "name") {
                Some(s) => {
                    name = Some(s);
                },
                None => {},
            }
        } else if str_equal(t, "editor.Transform2D") {
            transform = Some(json_clone(&c.values));
        } else if str_equal(t, "editor.Sprite2D") {
            sprite = Some(json_clone(&c.values));
            match str_member_exec(&c.values, "anchor") {
                Some(a) => {
                    anchor = Some(a);
                },
                None => {},
            }
        } else if str_equal(t, "editor.LogicBinding") {
            logic_binding = Some(json_clone(&c.values));
        }
        i += 1;
    }
    let a = match anchor {
        Some(s) => s,
        None => to_owned_string("Center"),
    };
    let known = is_known_anchor_str(a.as_str());
    SpawnPlan { name, transform, sprite, anchor: a, anchor_known: known, logic_binding }
}

} // verus!
