//! The scene document: entities with components, and placed scene instances.

use vstd::prelude::*;
use crate::json::{JsonValue, JsonV, json_clone, strs_view};

verus! {

/// A component attached to an entity: its schema type and its field values.
#[derive(Debug)]
pub struct ComponentInstance {
    pub type_id: String,
    pub values: JsonValue,
}

/// Model of a component.
pub struct ComponentV {
    pub type_id: Seq<char>,
    pub values: JsonV,
}

impl ComponentInstance {
    pub open spec fn view(&self) -> ComponentV {
        ComponentV { type_id: self.type_id@, values: self.values@ }
    }
}

/// The models of a list of components.
pub open spec fn comps_view(cs: Seq<ComponentInstance>) -> Seq<ComponentV> {
    cs.map_values(|c: ComponentInstance| c@)
}

/// An entity of the scene document.
#[derive(Debug)]
pub struct Entity {
    pub id: String,
    pub local_id: String,
    pub name: String,
    pub parent: Option<String>,
    pub components: Vec<ComponentInstance>,
}

/// Model of an entity.
pub struct EntityV {
    pub id: Seq<char>,
    pub local_id: Seq<char>,
    pub name: Seq<char>,
    pub parent: Option<Seq<char>>,
    pub components: Seq<ComponentV>,
}

/// The model of an optional string.
pub open spec fn opt_view(o: Option<String>) -> Option<Seq<char>> {
    match o {
        Some(s) => Some(s@),
        None => None,
    }
}

impl Entity {
    pub open spec fn view(&self) -> EntityV {
        EntityV {
            id: self.id@,
            local_id: self.local_id@,
            name: self.name@,
            parent: opt_view(self.parent),
            components: comps_view(self.components@),
        }
    }
}

/// The models of a list of entities.
pub open spec fn ents_view(es: Seq<Entity>) -> Seq<EntityV> {
    es.map_values(|e: Entity| e@)
}

/// Whether an override is still bound to an existing field of its asset.
#[derive(Debug, Clone, Copy, PartialEq, Eq, Structural)]
pub enum ComponentOverrideStatus {
    Active,
    Orphaned,
}

/// An instance-level change of one field of one component of one asset entity.
#[derive(Debug)]
pub struct ComponentOverride {
    pub target_local_id: String,
    pub component_type_id: String,
    pub field_path: Vec<String>,
    pub value: JsonValue,
    pub status: ComponentOverrideStatus,
}

/// Model of an override.
pub struct OverrideV {
    pub target_local_id: Seq<char>,
    pub component_type_id: Seq<char>,
    pub field_path: Seq<Seq<char>>,
    pub value: JsonV,
    pub status: ComponentOverrideStatus,
}

impl ComponentOverride {
    pub open spec fn view(&self) -> OverrideV {
        OverrideV {
            target_local_id: self.target_local_id@,
            component_type_id: self.component_type_id@,
            field_path: strs_view(self.field_path@),
            value: self.value@,
            status: self.status,
        }
    }
}

/// The models of a list of overrides.
pub open spec fn ovs_view(os: Seq<ComponentOverride>) -> Seq<OverrideV> {
    os.map_values(|o: ComponentOverride| o@)
}

/// One pair of the local-id to stable-id map of a scene instance.
#[derive(Debug)]
pub struct IdMapEntry {
    pub local_id: String,
    pub stable_id: String,
}

/// The models of an id map.
pub open spec fn idmap_view(m: Seq<IdMapEntry>) -> Seq<(Seq<char>, Seq<char>)> {
    m.map_values(|e: IdMapEntry| (e.local_id@, e.stable_id@))
}

/// A scene asset placed into the document.
#[derive(Debug)]
pub struct SceneInstance {
    pub instance_id: String,
    pub asset_ref: String,
    pub asset_version_seen: u32,
    pub id_map: Vec<IdMapEntry>,
    pub instance_components: Vec<ComponentInstance>,
    pub component_overrides: Vec<ComponentOverride>,
    pub orphaned_component_overrides: Vec<ComponentOverride>,
}

/// Model of a scene instance.
pub struct InstanceV {
    pub instance_id: Seq<char>,
    pub asset_ref: Seq<char>,
    pub asset_version_seen: u32,
    pub id_map: Seq<(Seq<char>, Seq<char>)>,
    pub instance_components: Seq<ComponentV>,
    pub component_overrides: Seq<OverrideV>,
    pub orphaned_component_overrides: Seq<OverrideV>,
}

impl SceneInstance {
    pub open spec fn view(&self) -> InstanceV {
        InstanceV {
            instance_id: self.instance_id@,
            asset_ref: self.asset_ref@,
            asset_version_seen: self.asset_version_seen,
            id_map: idmap_view(self.id_map@),
            instance_components: comps_view(self.instance_components@),
            component_overrides: ovs_view(self.component_overrides@),
            orphaned_component_overrides: ovs_view(self.orphaned_component_overrides@),
        }
    }
}

/// The models of a list of instances.
pub open spec fn insts_view(s: Seq<SceneInstance>) -> Seq<InstanceV> {
    s.map_values(|i: SceneInstance| i@)
}

/// A scene document: its entities and its scene instances (keyed by `instance_id`).
#[derive(Debug)]
pub struct SceneDocument {
    pub version: String,
    pub scene_id: String,
    pub name: String,
    pub entities: Vec<Entity>,
    pub instances: Vec<SceneInstance>,
}

/// Model of a scene document.
pub struct DocV {
    pub version: Seq<char>,
    pub scene_id: Seq<char>,
    pub name: Seq<char>,
    pub entities: Seq<EntityV>,
    pub instances: Seq<InstanceV>,
}

impl SceneDocument {
    pub open spec fn view(&self) -> DocV {
        DocV {
            version: self.version@,
            scene_id: self.scene_id@,
            name: self.name@,
            entities: ents_view(self.entities@),
            instances: insts_view(self.instances@),
        }
    }
}

/// A copy of a list of strings.
pub fn clone_strings(v: &Vec<String>) -> (r: Vec<String>)
    ensures
        strs_view(r@) == strs_view(v@),
{
    let mut out: Vec<String> = Vec::new();
    let mut i: usize = 0;
    while i < v.len()
        invariant
            i <= v.len(),
            out.len() == i,
            forall|k: int| 0 <= k < i ==> (#[trigger] out@[k])@ == v@[k]@,
        decreases v.len() - i,
    {
        out.push(v[i].clone());
        i += 1;
    }
    assert(strs_view(out@) =~= strs_view(v@));
    out
}

/// A copy of an optional string.
pub fn clone_opt_string(o: &Option<String>) -> (r: Option<String>)
    ensures
        opt_view(r) == opt_view(*o),
{
    match o {
        Some(s) => Some(s.clone()),
        None => None,
    }
}

/// A copy of a component.
pub fn clone_component(c: &ComponentInstance) -> (r: ComponentInstance)
    ensures
        r@ == c@,
{
    ComponentInstance { type_id: c.type_id.clone(), values: json_clone(&c.values) }
}

/// A copy of a list of components.
pub fn clone_components(v: &Vec<ComponentInstance>) -> (r: Vec<ComponentInstance>)
    ensures
        comps_view(r@) == comps_view(v@),
{
    let mut out: Vec<ComponentInstance> = Vec::new();
    let mut i: usize = 0;
    while i < v.len()
        invariant
            i <= v.len(),
            out.len() == i,
            forall|k: int| 0 <= k < i ==> (#[trigger] out@[k])@ == v@[k]@,
        decreases v.len() - i,
    {
        out.push(clone_component(&v[i]));
        i += 1;
    }
    assert(comps_view(out@) =~= comps_view(v@));
    out
}

/// A copy of an entity.
pub fn clone_entity(e: &Entity) -> (r: Entity)
    ensures
        r@ == e@,
{
    Entity {
        id: e.id.clone(),
        local_id: e.local_id.clone(),
        name: e.name.clone(),
        parent: clone_opt_string(&e.parent),
        components: clone_components(&e.components),
    }
}

/// A copy of an override.
pub fn clone_override(o: &ComponentOverride) -> (r: ComponentOverride)
    ensures
        r@ == o@,
{
    ComponentOverride {
        target_local_id: o.target_local_id.clone(),
        component_type_id: o.component_type_id.clone(),
        field_path: clone_strings(&o.field_path),
        value: json_clone(&o.value),
        status: o.status,
    }
}

/// A copy of a list of overrides.
pub fn clone_overrides(v: &Vec<ComponentOverride>) -> (r: Vec<ComponentOverride>)
    ensures
        ovs_view(r@) == ovs_view(v@),
{
    let mut out: Vec<ComponentOverride> = Vec::new();
    let mut i: usize = 0;
    while i < v.len()
        invariant
            i <= v.len(),
            out.len() == i,
            forall|k: int| 0 <= k < i ==> (#[trigger] out@[k])@ == v@[k]@,
        decreases v.len() - i,
    {
        out.push(clone_override(&v[i]));
        i += 1;
    }
    assert(ovs_view(out@) =~= ovs_view(v@));
    out
}

/// A copy of an id map.
pub fn clone_id_map(v: &Vec<IdMapEntry>) -> (r: Vec<IdMapEntry>)
    ensures
        idmap_view(r@) == idmap_view(v@),
{
    let mut out: Vec<IdMapEntry> = Vec::new();
    let mut i: usize = 0;
    while i < v.len()
        invariant
            i <= v.len(),
            out.len() == i,
            forall|k: int|
                0 <= k < i ==> (#[trigger] out@[k]).local_id@ == v@[k].local_id@ && out@[k].stable_id@
                    == v@[k].stable_id@,
        decreases v.len() - i,
    {
        out.push(IdMapEntry { local_id: v[i].local_id.clone(), stable_id: v[i].stable_id.clone() });
        i += 1;
    }
    assert(idmap_view(out@) =~= idmap_view(v@));
    out
}

/// A copy of a scene instance.
pub fn clone_instance(s: &SceneInstance) -> (r: SceneInstance)
    ensures
        r@ == s@,
{
    SceneInstance {
        instance_id: s.instance_id.clone(),
        asset_ref: s.asset_ref.clone(),
        asset_version_seen: s.asset_version_seen,
        id_map: clone_id_map(&s.id_map),
        instance_components: clone_components(&s.instance_components),
        component_overrides: clone_overrides(&s.component_overrides),
        orphaned_component_overrides: clone_overrides(&s.orphaned_component_overrides),
    }
}

/// A copy of a whole scene document.
pub fn clone_document(d: &SceneDocument) -> (r: SceneDocument)
    ensures
        r@ == d@,
{
    let mut es: Vec<Entity> = Vec::new();
    let mut i: usize = 0;
    while i < d.entities.len()
        invariant
            i <= d.entities.len(),
            es.len() == i,
            forall|k: int| 0 <= k < i ==> (#[trigger] es@[k])@ == d.entities@[k]@,
        decreases d.entities.len() - i,
    {
        es.push(clone_entity(&d.entities[i]));
        i += 1;
    }
    let mut ins: Vec<SceneInstance> = Vec::new();
    let mut j: usize = 0;
    while j < d.instances.len()
        invariant
            j <= d.instances.len(),
            ins.len() == j,
            forall|k: int| 0 <= k < j ==> (#[trigger] ins@[k])@ == d.instances@[k]@,
        decreases d.instances.len() - j,
    {
        ins.push(clone_instance(&d.instances[j]));
        j += 1;
    }
    let r = SceneDocument {
        version: d.version.clone(),
        scene_id: d.scene_id.clone(),
        name: d.name.clone(),
        entities: es,
        instances: ins,
    };
    assert(ents_view(r.entities@) =~= ents_view(d.entities@));
    assert(insts_view(r.instances@) =~= insts_view(d.instances@));
    r
}

} // verus!
