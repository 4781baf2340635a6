//! Scene asset documents: reusable authoring documents whose entities are named by
//! asset-local ids, with parent/child relationships between them.

use vstd::prelude::*;
use crate::document::{ComponentInstance, ComponentV, comps_view, opt_view, clone_components, clone_opt_string};

verus! {

/// What a scene asset is authored for.
#[derive(Debug, Clone, Copy, PartialEq, Eq, Structural)]
pub enum SceneAssetRole {
    Actor,
    Fragment,
    Screen,
    Level,
    Ui,
    Effect,
    Logic,
}

/// The kind of a relationship between two entities of an asset.
#[derive(Debug)]
pub enum RelationshipKind {
    /// The target is a child of the source.
    Child,
    /// Any other named relationship.
    Other(String),
}

/// A relationship from one entity of the asset to another.
#[derive(Debug)]
pub struct SceneAssetRelationship {
    pub from_local_id: String,
    pub to_local_id: String,
    pub kind: RelationshipKind,
    pub field_path: Option<String>,
}

/// An entity of a scene asset.
#[derive(Debug)]
pub struct SceneAssetEntity {
    pub local_id: String,
    pub local_path: String,
    pub name: String,
    pub components: Vec<ComponentInstance>,
}

/// Model of an asset entity.
pub struct AssetEntityV {
    pub local_id: Seq<char>,
    pub local_path: Seq<char>,
    pub name: Seq<char>,
    pub components: Seq<ComponentV>,
}

impl SceneAssetEntity {
    pub open spec fn view(&self) -> AssetEntityV {
        AssetEntityV {
            local_id: self.local_id@,
            local_path: self.local_path@,
            name: self.name@,
            components: comps_view(self.components@),
        }
    }
}

/// The models of a list of asset entities.
pub open spec fn asset_ents_view(es: Seq<SceneAssetEntity>) -> Seq<AssetEntityV> {
    es.map_values(|e: SceneAssetEntity| e@)
}

/// Model of a relationship: source, target, whether it is a child link, its field path.
pub open spec fn rel_view(r: SceneAssetRelationship) -> (Seq<char>, Seq<char>, bool, Option<Seq<char>>) {
    (r.from_local_id@, r.to_local_id@, r.kind is Child, opt_view(r.field_path))
}

/// A scene asset document.
#[derive(Debug)]
pub struct SceneAssetDocument {
    pub asset_id: String,
    pub logical_path: String,
    pub role: SceneAssetRole,
    pub version: u32,
    pub entities: Vec<SceneAssetEntity>,
    pub relationships: Vec<SceneAssetRelationship>,
}

/// A copy of an asset entity.
pub fn clone_asset_entity(e: &SceneAssetEntity) -> (r: SceneAssetEntity)
    ensures
        r@ == e@,
{
    SceneAssetEntity {
        local_id: e.local_id.clone(),
        local_path: e.local_path.clone(),
        name: e.name.clone(),
        components: clone_components(&e.components),
    }
}

/// A copy of a relationship.
pub fn clone_relationship(r: &SceneAssetRelationship) -> (c: SceneAssetRelationship)
    ensures
        rel_view(c) == rel_view(*r),
        c.from_local_id@ == r.from_local_id@,
        c.to_local_id@ == r.to_local_id@,
{
    SceneAssetRelationship {
        from_local_id: r.from_local_id.clone(),
        to_local_id: r.to_local_id.clone(),
        kind: match &r.kind {
            RelationshipKind::Child => RelationshipKind::Child,
            RelationshipKind::Other(s) => RelationshipKind::Other(s.clone()),
        },
        field_path: clone_opt_string(&r.field_path),
    }
}

} // verus!
