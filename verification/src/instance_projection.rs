//! Which entities of a scene asset are top-level (those that no child relationship
//! points at), and the placement of a single-rooted asset as a scene instance.

use vstd::prelude::*;
use crate::scene_asset::{SceneAssetDocument, RelationshipKind, AssetEntityV, asset_ents_view, rel_view};
use crate::bsn_ir::rels_view;
use crate::text::{concat2, concat3, str_equal, to_owned_string, u64_to_hex, usize_to_decimal, decimal, hex};
use crate::command::{Command, CommandV};
use crate::document::{ComponentInstance, ComponentV, IdMapEntry};
use crate::json::{JsonEntry, JsonV, JsonValue};

verus! {

/// Whether some child relationship of `rs` points at `id`.
pub open spec fn is_child_target(rs: Seq<(Seq<char>, Seq<char>, bool, Option<Seq<char>>)>, id: Seq<char>) -> bool {
    exists|k: int| 0 <= k < rs.len() && (#[trigger] rs[k]).2 && rs[k].1 == id
}

/// The local ids of the entities `es[..n]` that no child relationship points at, in order.
pub open spec fn roots_of(es: Seq<AssetEntityV>, rs: Seq<(Seq<char>, Seq<char>, bool, Option<Seq<char>>)>, n: int) -> Seq<Seq<char>>
    decreases n,
{
    if n <= 0 || n > es.len() {
        Seq::empty()
    } else {
        let p = roots_of(es, rs, n - 1);
        if is_child_target(rs, es[n - 1].local_id) {
            p
        } else {
            p.push(es[n - 1].local_id)
        }
    }
}

fn child_target_exec(asset: &SceneAssetDocument, id: &str) -> (r: bool)
    ensures
        r == is_child_target(rels_view(asset.relationships@), id@),
{
    let ghost rs = rels_view(asset.relationships@);
    let mut k: usize = 0;
    while k < asset.relationships.len()
        invariant
            rs == rels_view(asset.relationships@),
            k <= asset.relationships.len(),
            forall|j: int| 0 <= j < k ==> !((#[trigger] rs[j]).2 && rs[j].1 == id@),
        decreases asset.relationships.len() - k,
    {
        let r = &asset.relationships[k];
        assert(rs[k as int] == rel_view(*r));
        let is_child = match &r.kind {
            RelationshipKind::Child => true,
            RelationshipKind::Other(_) => false,
        };
        if is_child && str_equal(r.to_local_id.as_str(), id) {
            return true;
        }
        k += 1;
    }
    false
}

/// The local ids of the top-level entities of `asset`, in entity order: those that no
/// child relationship points at.
pub fn root_local_ids(asset: &SceneAssetDocument) -> (r: Vec<String>)
    ensures
        r@.map_values(|s: String| s@) == roots_of(asset_ents_view(asset.entities@), rels_view(asset.relationships@), asset.entities@.len() as int),
{
    let ghost es = asset_ents_view(asset.entities@);
    let ghost rs = rels_view(asset.relationships@);
    let mut out: Vec<String> = Vec::new();
    let mut i: usize = 0;
    while i < asset.entities.len()
        invariant
            es == asset_ents_view(asset.entities@),
            rs == rels_view(asset.relationships@),
            i <= asset.entities.len(),
            out@.map_values(|s: String| s@) == roots_of(es, rs, i as int),
        decreases asset.entities.len() - i,
    {
        let e = &asset.entities[i];
        assert(es[i as int] == e@);
        if !child_target_exec(asset, e.local_id.as_str()) {
            out.push(e.local_id.clone());
        }
        proof {
            assert(out@.map_values(|s: String| s@) =~= roots_of(es, rs, i + 1));
        }
        i += 1;
    }
    out
}

/// Why a scene asset cannot be placed as an instance.
#[derive(Debug)]
pub enum PlacementError {
    /// The asset has no entity.
    EmptyAsset,
    /// The asset has this many top-level entities instead of one.
    MultipleRoots(usize),
    /// The placement translation is not readable JSON; the reader's message.
    TranslationUnreadable(String),
    /// The placement translation is not a JSON object.
    TranslationNotObject,
}

/// Model of a placement error.
pub enum PlacementErrorV {
    EmptyAsset,
    MultipleRoots(nat),
    TranslationUnreadable(Seq<char>),
    TranslationNotObject,
}

impl PlacementError {
    pub open spec fn view(&self) -> PlacementErrorV {
        match self {
            PlacementError::EmptyAsset => PlacementErrorV::EmptyAsset,
            PlacementError::MultipleRoots(n) => PlacementErrorV::MultipleRoots(*n as nat),
            PlacementError::TranslationUnreadable(m) => PlacementErrorV::TranslationUnreadable(m@),
            PlacementError::TranslationNotObject => PlacementErrorV::TranslationNotObject,
        }
    }

    /// The message shown to the user.
    pub fn to_string(&self) -> (r: String)
        ensures
            r@ == placement_message(self@),
    {
        match self {
            PlacementError::EmptyAsset => to_owned_string("Empty asset: cannot place instance with zero entities"),
            PlacementError::MultipleRoots(n) => {
                let d = usize_to_decimal(*n);
                concat3("Multiple roots: asset has ", d.as_str(), " root entities, expected 1")
            },
            PlacementError::TranslationUnreadable(m) => concat2("Invalid translation JSON: ", m.as_str()),
            PlacementError::TranslationNotObject => to_owned_string(
                "Invalid translation JSON: expected an object with `translation` or full Transform2D fields",
            ),
        }
    }
}

/// The message of a placement error.
pub open spec fn placement_message(e: PlacementErrorV) -> Seq<char> {
    match e {
        PlacementErrorV::EmptyAsset => "Empty asset: cannot place instance with zero entities"@,
        PlacementErrorV::MultipleRoots(n) => "Multiple roots: asset has "@ + decimal(n) + " root entities, expected 1"@,
        PlacementErrorV::TranslationUnreadable(m) => "Invalid translation JSON: "@ + m,
        PlacementErrorV::TranslationNotObject => "Invalid translation JSON: expected an object with `translation` or full Transform2D fields"@,
    }
}

/// The stable id of the entity `local_id` of instance `instance_id`.
pub open spec fn instance_entity_id(instance_id: Seq<char>, local_id: Seq<char>) -> Seq<char> {
    instance_id + "_"@ + local_id
}

/// The id map of a new instance: each entity of the asset, in order, to its stable id.
pub open spec fn placement_id_map(instance_id: Seq<char>, es: Seq<AssetEntityV>) -> Seq<(Seq<char>, Seq<char>)> {
    es.map_values(|e: AssetEntityV| (e.local_id, instance_entity_id(instance_id, e.local_id)))
}

/// The component a placement translation becomes: a transform holding only it.
pub open spec fn placement_transform(t: JsonV) -> ComponentV {
    ComponentV { type_id: "editor.Transform2D"@, values: JsonV::Object(seq![("translation"@, t)]) }
}

/// The command that places `asset` as instance `instance_id`, or why it cannot: the
/// asset must have exactly one top-level entity, and a translation, when given, must be
/// readable and an object.
pub open spec fn placement(
    es: Seq<AssetEntityV>,
    rs: Seq<(Seq<char>, Seq<char>, bool, Option<Seq<char>>)>,
    asset_ref: Seq<char>,
    asset_version: u32,
    instance_id: Seq<char>,
    translation: Option<Result<JsonV, Seq<char>>>,
) -> Result<CommandV, PlacementErrorV> {
    let roots = roots_of(es, rs, es.len() as int).len();
    if roots == 0 {
        Err(PlacementErrorV::EmptyAsset)
    } else if roots > 1 {
        Err(PlacementErrorV::MultipleRoots(roots))
    } else {
        match translation {
            Some(Err(m)) => Err(PlacementErrorV::TranslationUnreadable(m)),
            Some(Ok(t)) => if t is Object {
                Ok(CommandV::PlaceInstance {
                    instance_id,
                    asset_ref,
                    asset_version,
                    id_map: placement_id_map(instance_id, es),
                    instance_components: seq![placement_transform(t)],
                    component_overrides: Seq::empty(),
                    orphaned_component_overrides: Seq::empty(),
                })
            } else {
                Err(PlacementErrorV::TranslationNotObject)
            },
            None => Ok(CommandV::PlaceInstance {
                instance_id,
                asset_ref,
                asset_version,
                id_map: placement_id_map(instance_id, es),
                instance_components: Seq::empty(),
                component_overrides: Seq::empty(),
                orphaned_component_overrides: Seq::empty(),
            }),
        }
    }
}

/// The model of a placement outcome.
pub open spec fn placement_view(r: Result<Command, PlacementError>) -> Result<CommandV, PlacementErrorV> {
    match r {
        Ok(c) => Ok(c@),
        Err(e) => Err(e@),
    }
}

/// The model of a translation as read by the caller.
pub open spec fn translation_view(t: Option<Result<JsonValue, String>>) -> Option<Result<JsonV, Seq<char>>> {
    match t {
        Some(Ok(v)) => Some(Ok(v@)),
        Some(Err(m)) => Some(Err(m@)),
        None => None,
    }
}

/// The command that places `asset` (at `asset_ref`, version `asset_version`) as the new
/// instance `instance_id`, with the placement translation as the caller read it.
pub fn plan_instance_placement(
    asset: &SceneAssetDocument,
    asset_ref: &str,
    asset_version: u32,
    instance_id: &str,
    translation: Option<Result<JsonValue, String>>,
) -> (r: Result<Command, PlacementError>)
    ensures
        placement_view(r) == placement(
            asset_ents_view(asset.entities@),
            rels_view(asset.relationships@),
            asset_ref@,
            asset_version,
            instance_id@,
            translation_view(translation),
        ),
{
    let ghost es = asset_ents_view(asset.entities@);
    let roots = root_local_ids(asset);
    assert(roots@.map_values(|s: String| s@).len() == roots@.len());
    if roots.len() == 0 {
        return Err(PlacementError::EmptyAsset);
    }
    if roots.len() > 1 {
        return Err(PlacementError::MultipleRoots(roots.len()));
    }
    let mut id_map: Vec<IdMapEntry> = Vec::new();
    let mut i: usize = 0;
    while i < asset.entities.len()
        invariant
            i <= asset.entities.len(),
            es == asset_ents_view(asset.entities@),
            crate::document::idmap_view(id_map@) == placement_id_map(instance_id@, es.subrange(0, i as int)),
        decreases asset.entities.len() - i,
    {
        let lid = asset.entities[i].local_id.as_str();
        let entry = IdMapEntry { local_id: asset.entities[i].local_id.clone(), stable_id: concat3(instance_id, "_", lid) };
        let ghost before = crate::document::idmap_view(id_map@);
        id_map.push(entry);
        proof {
            assert(crate::document::idmap_view(id_map@) =~= before.push(
                (es[i as int].local_id, instance_entity_id(instance_id@, es[i as int].local_id)),
            ));
            assert(es.subrange(0, i + 1) =~= es.subrange(0, i as int).push(es[i as int]));
            assert(placement_id_map(instance_id@, es.subrange(0, i + 1)) =~= placement_id_map(
                instance_id@,
                es.subrange(0, i as int),
            ).push((es[i as int].local_id, instance_entity_id(instance_id@, es[i as int].local_id))));
        }
        i += 1;
    }
    assert(es.subrange(0, es.len() as int) =~= es);
    let mut components: Vec<ComponentInstance> = Vec::new();
    match translation {
        Some(Err(m)) => {
            return Err(PlacementError::TranslationUnreadable(m));
        },
        Some(Ok(t)) => {
            let is_object = match &t {
                JsonValue::Object(_) => true,
                _ => false,
            };
            if !is_object {
                return Err(PlacementError::TranslationNotObject);
            }
            let ghost tv = t@;
            let values = JsonValue::Object(vec![JsonEntry { key: to_owned_string("translation"), value: t }]);
            assert(values@ == JsonV::Object(seq![("translation"@, tv)])) by {
                assert(values@->Object_0 =~= seq![("translation"@, tv)]);
            }
            components.push(ComponentInstance { type_id: to_owned_string("editor.Transform2D"), values });
            assert(crate::document::comps_view(components@) =~= seq![placement_transform(tv)]);
        },
        None => {
            assert(crate::document::comps_view(components@) =~= Seq::<ComponentV>::empty());
        },
    }
    let overrides: Vec<crate::document::ComponentOverride> = Vec::new();
    let orphaned: Vec<crate::document::ComponentOverride> = Vec::new();
    assert(crate::document::ovs_view(overrides@) =~= Seq::empty());
    assert(crate::document::ovs_view(orphaned@) =~= Seq::empty());
    let c = Command::PlaceInstance {
        instance_id: to_owned_string(instance_id),
        asset_ref: to_owned_string(asset_ref),
        asset_version,
        id_map,
        instance_components: components,
        component_overrides: overrides,
        orphaned_component_overrides: orphaned,
    };
    Ok(c)
}

/// Nanoseconds since the Unix epoch now, truncated to 64 bits; 0 when the clock reads
/// before the epoch. Nothing is promised of the value: it is the clock's.
#[verifier::external_body]
fn current_time_nanos() -> u64 {
    match std::time::SystemTime::now().duration_since(std::time::UNIX_EPOCH) {
        Ok(d) => d.as_nanos() as u64,
        Err(_) => 0,
    }
}

/// The instance id minted from clock reading `n`: `inst_` and `n` in hexadecimal.
pub open spec fn minted_instance_id(n: u64) -> Seq<char> {
    "inst_"@ + hex(n as nat)
}

/// A fresh instance id from the clock: `inst_` and the nanoseconds since the epoch in
/// hexadecimal.
pub fn mint_instance_id() -> (r: String)
    ensures
        exists|n: u64| r@ == minted_instance_id(n),
{
    let n = current_time_nanos();
    let h = u64_to_hex(n);
    let r = concat2("inst_", h.as_str());
    assert(r@ == minted_instance_id(n));
    r
}

/// Place `asset` as a new instance with a freshly minted id: the placement command, or
/// why the asset cannot be placed.
pub fn place_instance(
    asset: &SceneAssetDocument,
    asset_ref: &str,
    asset_version: u32,
    translation: Option<Result<JsonValue, String>>,
) -> (r: Result<Command, PlacementError>)
    ensures
        exists|n: u64|
            placement_view(r) == #[trigger] placement(
                asset_ents_view(asset.entities@),
                rels_view(asset.relationships@),
                asset_ref@,
                asset_version,
                minted_instance_id(n),
                translation_view(translation),
            ),
{
    let id = mint_instance_id();
    plan_instance_placement(asset, asset_ref, asset_version, id.as_str(), translation)
}

} // verus!
