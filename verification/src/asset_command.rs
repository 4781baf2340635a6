//! Commands on scene asset documents, with their inverses and their own undo log.
//!
//! Entities of an asset are addressed by their local id. Every command either fails
//! without touching the document, or succeeds and yields the command that undoes it.
//! A batch that fails part-way leaves the entities exactly as they were before it.

use vstd::prelude::*;
use vstd::string::*;
use crate::document::{ComponentInstance, ComponentV, comps_view, opt_view, clone_components, clone_opt_string};
use crate::json::{JsonValue, JsonV, json_clone, json_set_path, json_set_path_exec, strs_view};
use crate::scene_asset::{SceneAssetDocument, SceneAssetEntity, AssetEntityV, asset_ents_view, clone_asset_entity};
use crate::seqs::{first_match, lemma_first_match, lemma_first_match_at, lemma_first_match_none, lemma_first_match_push, lemma_first_match_update};
use crate::json::lemma_set_set_restores;
use crate::processor::{comp_type_is, find_component_index};
use crate::history::{History, recorded_entries};
use crate::document::clone_strings;
use crate::text::{str_equal, concat2, concat3, decimal, usize_to_decimal};

verus! {

/// A command on a scene asset document.
#[derive(Debug)]
pub enum AssetCommand {
    /// Append a new entity.
    AddEntity { local_id: String, name: String, local_path: String, components: Vec<ComponentInstance> },
    /// Remove an entity.
    RemoveEntity { local_id: String },
    /// Rename an entity; `old_name` is filled in by the inverse.
    RenameEntity { local_id: String, old_name: Option<String>, new_name: String },
    /// Append a component to an entity.
    AddComponent { local_id: String, type_id: String, values: JsonValue },
    /// Remove the first component of a type from an entity (no-op when absent).
    RemoveComponent { local_id: String, type_id: String },
    /// Set one field, addressed by a list of keys, of a component of an entity.
    SetComponentValue { local_id: String, type_id: String, field_path: Vec<String>, value: JsonValue },
    /// Apply several commands as one history entry.
    Batch { label: String, commands: Vec<AssetCommand> },
}

/// Model of an asset command.
pub enum AssetCommandV {
    AddEntity { local_id: Seq<char>, name: Seq<char>, local_path: Seq<char>, components: Seq<ComponentV> },
    RemoveEntity { local_id: Seq<char> },
    RenameEntity { local_id: Seq<char>, old_name: Option<Seq<char>>, new_name: Seq<char> },
    AddComponent { local_id: Seq<char>, type_id: Seq<char>, values: JsonV },
    RemoveComponent { local_id: Seq<char>, type_id: Seq<char> },
    SetComponentValue { local_id: Seq<char>, type_id: Seq<char>, field_path: Seq<Seq<char>>, value: JsonV },
    Batch { label: Seq<char>, commands: Seq<AssetCommandV> },
}

impl AssetCommand {
    pub open spec fn view(&self) -> AssetCommandV
        decreases self,
    {
        match self {
            AssetCommand::AddEntity { local_id, name, local_path, components } => AssetCommandV::AddEntity {
                local_id: local_id@,
                name: name@,
                local_path: local_path@,
                components: comps_view(components@),
            },
            AssetCommand::RemoveEntity { local_id } => AssetCommandV::RemoveEntity { local_id: local_id@ },
            AssetCommand::RenameEntity { local_id, old_name, new_name } => AssetCommandV::RenameEntity {
                local_id: local_id@,
                old_name: opt_view(*old_name),
                new_name: new_name@,
            },
            AssetCommand::AddComponent { local_id, type_id, values } => AssetCommandV::AddComponent {
                local_id: local_id@,
                type_id: type_id@,
                values: values@,
            },
            AssetCommand::RemoveComponent { local_id, type_id } => AssetCommandV::RemoveComponent {
                local_id: local_id@,
                type_id: type_id@,
            },
            AssetCommand::SetComponentValue { local_id, type_id, field_path, value } => AssetCommandV::SetComponentValue {
                local_id: local_id@,
                type_id: type_id@,
                field_path: strs_view(field_path@),
                value: value@,
            },
            AssetCommand::Batch { label, commands } => AssetCommandV::Batch {
                label: label@,
                commands: Seq::new(
                    commands@.len(),
                    |i: int|
                        if 0 <= i < commands@.len() {
                            commands@[i].view()
                        } else {
                            AssetCommandV::RemoveEntity { local_id: Seq::empty() }
                        },
                ),
            },
        }
    }
}

/// Errors of asset commands.
#[derive(Debug)]
pub enum AssetCommandError {
    EntityNotFound(String),
    DuplicateLocalId(String),
    ComponentNotFound(String),
    FieldNotFound(Vec<String>),
    BatchFailed { index: usize, source: Box<AssetCommandError> },
    JsonError(String),
}

/// Model of an asset command error.
pub enum AssetErrV {
    EntityNotFound(Seq<char>),
    DuplicateLocalId(Seq<char>),
    ComponentNotFound(Seq<char>),
    FieldNotFound(Seq<Seq<char>>),
    BatchFailed { index: int, source: Box<AssetErrV> },
    JsonError(Seq<char>),
}

impl AssetCommandError {
    pub open spec fn view(&self) -> AssetErrV
        decreases self,
    {
        match self {
            AssetCommandError::EntityNotFound(s) => AssetErrV::EntityNotFound(s@),
            AssetCommandError::DuplicateLocalId(s) => AssetErrV::DuplicateLocalId(s@),
            AssetCommandError::ComponentNotFound(s) => AssetErrV::ComponentNotFound(s@),
            AssetCommandError::FieldNotFound(p) => AssetErrV::FieldNotFound(strs_view(p@)),
            AssetCommandError::BatchFailed { index, source } => AssetErrV::BatchFailed {
                index: *index as int,
                source: Box::new((**source).view()),
            },
            AssetCommandError::JsonError(s) => AssetErrV::JsonError(s@),
        }
    }
}

/// How a list of strings is written by Rust's `Debug` formatting, e.g. `["a", "b"]`.
pub uninterp spec fn debug_strings(v: Seq<Seq<char>>) -> Seq<char>;

/// `format!("{:?}", v)`: the `Debug` rendering of a list of strings. It depends on the
/// strings alone; its exact escaping rules are std's and are not restated here.
#[verifier::external_body]
fn debug_string_list(v: &Vec<String>) -> (r: String)
    ensures
        r@ == debug_strings(strs_view(v@)),
{
    format!("{:?}", v)
}

/// The message an asset command error displays.
pub open spec fn asset_err_message(e: AssetErrV) -> Seq<char>
    decreases e,
{
    match e {
        AssetErrV::EntityNotFound(s) => "entity not found: "@ + s,
        AssetErrV::DuplicateLocalId(s) => "duplicate local_id: "@ + s,
        AssetErrV::ComponentNotFound(s) => "component not found: "@ + s,
        AssetErrV::FieldNotFound(p) => "field not found: "@ + debug_strings(p),
        AssetErrV::BatchFailed { index, source } => "batch failed at "@ + decimal(index as nat) + ": "@
            + asset_err_message(*source),
        AssetErrV::JsonError(s) => "JSON error: "@ + s,
    }
}

impl AssetCommandError {
    /// The human-readable message of this error.
    pub fn to_string(&self) -> (r: String)
        ensures
            r@ == asset_err_message(self@),
        decreases self,
    {
        match self {
            AssetCommandError::EntityNotFound(s) => concat2("entity not found: ", s.as_str()),
            AssetCommandError::DuplicateLocalId(s) => concat2("duplicate local_id: ", s.as_str()),
            AssetCommandError::ComponentNotFound(s) => concat2("component not found: ", s.as_str()),
            AssetCommandError::FieldNotFound(p) => {
                let d = debug_string_list(p);
                concat2("field not found: ", d.as_str())
            },
            AssetCommandError::BatchFailed { index, source } => {
                let n = usize_to_decimal(*index);
                let inner = (**source).to_string();
                let mut r = concat3("batch failed at ", n.as_str(), ": ");
                r.append(inner.as_str());
                r
            },
            AssetCommandError::JsonError(s) => concat2("JSON error: ", s.as_str()),
        }
    }
}

/// Predicate "this asset entity has local id `id`".
pub open spec fn lid_is(id: Seq<char>) -> spec_fn(AssetEntityV) -> bool {
    |e: AssetEntityV| e.local_id == id
}

/// Position of the entity with local id `id`, or -1.
pub open spec fn find_asset_ent(es: Seq<AssetEntityV>, id: Seq<char>) -> int {
    first_match(es, lid_is(id))
}

/// How deeply batches nest in `c`: 0 for a plain command.
pub open spec fn asset_depth(c: AssetCommandV) -> nat
    decreases c, 0int,
{
    match c {
        AssetCommandV::Batch { commands, .. } => 1 + max_depth(commands, commands.len() as int),
        _ => 0,
    }
}

/// The largest depth among the first `n` commands of `cs`.
pub open spec fn max_depth(cs: Seq<AssetCommandV>, n: int) -> nat
    decreases cs, n,
{
    if n <= 0 || n > cs.len() {
        0
    } else {
        let a = max_depth(cs, n - 1);
        let b = asset_depth(cs[n - 1]);
        if a >= b { a } else { b }
    }
}

proof fn lemma_max_depth(cs: Seq<AssetCommandV>, n: int, k: int)
    requires
        0 <= k < n <= cs.len(),
    ensures
        asset_depth(cs[k]) <= max_depth(cs, n),
    decreases n,
{
    if k < n - 1 {
        lemma_max_depth(cs, n - 1, k);
    }
}

/// Applying `c` to the entities `es` of an asset: the entities afterwards, and the
/// inverse command or the error. A command that fails, a batch included, leaves `es`
/// as it was. `fuel` is carried through nested batches and does not change the result.
pub open spec fn spec_asset_apply(es: Seq<AssetEntityV>, c: AssetCommandV, fuel: nat) -> (Seq<AssetEntityV>, Result<AssetCommandV, AssetErrV>)
    decreases fuel, c, 0int,
{
    match c {
        AssetCommandV::AddEntity { local_id, name, local_path, components } => {
            if find_asset_ent(es, local_id) >= 0 {
                (es, Err(AssetErrV::DuplicateLocalId(local_id)))
            } else {
                (
                    es.push(AssetEntityV { local_id, local_path, name, components }),
                    Ok(AssetCommandV::RemoveEntity { local_id }),
                )
            }
        },
        AssetCommandV::RemoveEntity { local_id } => {
            let i = find_asset_ent(es, local_id);
            if i < 0 {
                (es, Err(AssetErrV::EntityNotFound(local_id)))
            } else {
                (
                    es.remove(i),
                    Ok(AssetCommandV::AddEntity {
                        local_id: es[i].local_id,
                        name: es[i].name,
                        local_path: es[i].local_path,
                        components: es[i].components,
                    }),
                )
            }
        },
        AssetCommandV::RenameEntity { local_id, new_name, .. } => {
            let i = find_asset_ent(es, local_id);
            if i < 0 {
                (es, Err(AssetErrV::EntityNotFound(local_id)))
            } else {
                (
                    es.update(i, AssetEntityV { name: new_name, ..es[i] }),
                    Ok(AssetCommandV::RenameEntity { local_id, old_name: Some(es[i].name), new_name: es[i].name }),
                )
            }
        },
        AssetCommandV::AddComponent { local_id, type_id, values } => {
            let i = find_asset_ent(es, local_id);
            if i < 0 {
                (es, Err(AssetErrV::EntityNotFound(local_id)))
            } else {
                (
                    es.update(i, AssetEntityV { components: es[i].components.push(ComponentV { type_id, values }), ..es[i] }),
                    Ok(AssetCommandV::RemoveComponent { local_id, type_id }),
                )
            }
        },
        AssetCommandV::RemoveComponent { local_id, type_id } => {
            let i = find_asset_ent(es, local_id);
            if i < 0 {
                (es, Err(AssetErrV::EntityNotFound(local_id)))
            } else {
                let cs = es[i].components;
                let j = first_match(cs, comp_type_is(type_id));
                if j < 0 {
                    (es, Ok(AssetCommandV::RemoveComponent { local_id, type_id }))
                } else {
                    (
                        es.update(i, AssetEntityV { components: cs.remove(j), ..es[i] }),
                        Ok(AssetCommandV::AddComponent { local_id, type_id: cs[j].type_id, values: cs[j].values }),
                    )
                }
            }
        },
        AssetCommandV::SetComponentValue { local_id, type_id, field_path, value } => {
            let i = find_asset_ent(es, local_id);
            if i < 0 {
                (es, Err(AssetErrV::EntityNotFound(local_id)))
            } else {
                let cs = es[i].components;
                let j = first_match(cs, comp_type_is(type_id));
                if j < 0 {
                    (es, Err(AssetErrV::ComponentNotFound(type_id)))
                } else {
                    match json_set_path(cs[j].values, field_path, 0, value) {
                        Ok((u, old)) => (
                            es.update(i, AssetEntityV { components: cs.update(j, ComponentV { type_id: cs[j].type_id, values: u }), ..es[i] }),
                            Ok(AssetCommandV::SetComponentValue { local_id, type_id, field_path, value: old }),
                        ),
                        Err(_) => (es, Err(AssetErrV::FieldNotFound(field_path))),
                    }
                }
            }
        },
        AssetCommandV::Batch { commands, .. } => {
            let (es1, r) = batch_run(es, commands, 0, Seq::empty(), fuel);
            match r {
                Ok(invs) => (es1, Ok(AssetCommandV::Batch { label: "inverse"@, commands: invs.reverse() })),
                Err((i, e)) => (es, Err(AssetErrV::BatchFailed { index: i, source: Box::new(e) })),
            }
        },
    }
}

/// Running the commands `cs[k..]` of a batch after the ones that produced the inverses
/// `invs`: the entities afterwards, and all inverses in order of application, or the
/// failing index and error.
pub open spec fn batch_run(
    es: Seq<AssetEntityV>,
    cs: Seq<AssetCommandV>,
    k: int,
    invs: Seq<AssetCommandV>,
    fuel: nat,
) -> (Seq<AssetEntityV>, Result<Seq<AssetCommandV>, (int, AssetErrV)>)
    decreases fuel, cs, cs.len() - k,
{
    if k < 0 || k >= cs.len() {
        (es, Ok(invs))
    } else {
        let (es1, r) = spec_asset_apply(es, cs[k], fuel);
        match r {
            Ok(inv) => batch_run(es1, cs, k + 1, invs.push(inv), fuel),
            Err(e) => (es1, Err((k, e))),
        }
    }
}

/// Position of the entity with local id `id`.
fn find_asset_entity_index(es: &Vec<SceneAssetEntity>, id: &str) -> (r: Option<usize>)
    ensures
        match r {
            Some(i) => find_asset_ent(asset_ents_view(es@), id@) == i && i < es.len(),
            None => find_asset_ent(asset_ents_view(es@), id@) == -1,
        },
{
    let ghost ev = asset_ents_view(es@);
    let mut i: usize = 0;
    while i < es.len()
        invariant
            ev == asset_ents_view(es@),
            i <= es.len(),
            forall|j: int| 0 <= j < i ==> !lid_is(id@)(#[trigger] ev[j]),
        decreases es.len() - i,
    {
        if str_equal(es[i].local_id.as_str(), id) {
            proof {
                lemma_first_match_at(ev, lid_is(id@), i as int);
            }
            return Some(i);
        }
        i += 1;
    }
    proof {
        lemma_first_match_none(ev, lid_is(id@));
    }
    None
}

/// Set the field at `path` of the JSON object `value` to `new` and return the value it
/// replaced. Every key of the path must exist, each step through an object; otherwise
/// the error names the whole path and `value` is unchanged.
pub fn set_field_path_vec(value: &mut JsonValue, path: &Vec<String>, new: JsonValue) -> (r: Result<JsonValue, AssetCommandError>)
    ensures
        match json_set_path(old(value)@, strs_view(path@), 0, new@) {
            Ok((u, o)) => r is Ok && r->Ok_0@ == o && final(value)@ == u,
            Err(_) => r is Err && r->Err_0@ == AssetErrV::FieldNotFound(strs_view(path@)) && final(value)@ == old(value)@,
        },
{
    if path.len() == 0 {
        return Err(AssetCommandError::FieldNotFound(clone_strings(path)));
    }
    match json_set_path_exec(value, path, 0, new) {
        Ok((u, o)) => {
            *value = u;
            Ok(o)
        },
        Err(_) => Err(AssetCommandError::FieldNotFound(clone_strings(path))),
    }
}

/// The view of an apply result.
pub open spec fn asset_res_view(r: Result<AssetCommand, AssetCommandError>) -> Result<AssetCommandV, AssetErrV> {
    match r {
        Ok(c) => Ok(c@),
        Err(e) => Err(e@),
    }
}

/// A deep copy of an asset command.
pub fn clone_asset_command(c: &AssetCommand) -> (r: AssetCommand)
    ensures
        r@ == c@,
    decreases c,
{
    match c {
        AssetCommand::AddEntity { local_id, name, local_path, components } => AssetCommand::AddEntity {
            local_id: local_id.clone(),
            name: name.clone(),
            local_path: local_path.clone(),
            components: clone_components(components),
        },
        AssetCommand::RemoveEntity { local_id } => AssetCommand::RemoveEntity { local_id: local_id.clone() },
        AssetCommand::RenameEntity { local_id, old_name, new_name } => AssetCommand::RenameEntity {
            local_id: local_id.clone(),
            old_name: clone_opt_string(old_name),
            new_name: new_name.clone(),
        },
        AssetCommand::AddComponent { local_id, type_id, values } => AssetCommand::AddComponent {
            local_id: local_id.clone(),
            type_id: type_id.clone(),
            values: json_clone(values),
        },
        AssetCommand::RemoveComponent { local_id, type_id } => AssetCommand::RemoveComponent {
            local_id: local_id.clone(),
            type_id: type_id.clone(),
        },
        AssetCommand::SetComponentValue { local_id, type_id, field_path, value } => AssetCommand::SetComponentValue {
            local_id: local_id.clone(),
            type_id: type_id.clone(),
            field_path: clone_strings(field_path),
            value: json_clone(value),
        },
        AssetCommand::Batch { label, commands } => {
            let mut out: Vec<AssetCommand> = Vec::new();
            let mut i: usize = 0;
            while i < commands.len()
                invariant
                    (*c)->Batch_commands == *commands,
                    *c is Batch,
                    i <= commands.len(),
                    out.len() == i,
                    forall|k: int| 0 <= k < i ==> (#[trigger] out@[k])@ == commands@[k]@,
                decreases commands.len() - i,
            {
                proof {
                    assert(decreases_to!(*c => (*c)->Batch_commands));
                    assert(decreases_to!((*c)->Batch_commands => (*c)->Batch_commands@));
                    assert(decreases_to!(c => commands@[i as int]));
                }
                out.push(clone_asset_command(&commands[i]));
                i += 1;
            }
            let r = AssetCommand::Batch { label: label.clone(), commands: out };
            assert(r@->Batch_commands =~= c@->Batch_commands);
            r
        },
    }
}

/// The models of a list of asset commands.
pub open spec fn asset_cmds_view(cs: Seq<AssetCommand>) -> Seq<AssetCommandV> {
    cs.map_values(|c: AssetCommand| c@)
}

proof fn lemma_max_depth_bound(cs: Seq<AssetCommandV>, n: int, b: nat)
    requires
        n <= cs.len(),
        forall|k: int| 0 <= k < n ==> asset_depth(#[trigger] cs[k]) <= b,
    ensures
        max_depth(cs, n) <= b,
    decreases n,
{
    if n > 0 {
        lemma_max_depth_bound(cs, n - 1, b);
    }
}

/// Apply an entity-level command (add, remove, rename).
fn apply_entity_command(es: &mut Vec<SceneAssetEntity>, cmd: &AssetCommand) -> (r: Result<AssetCommand, AssetCommandError>)
    requires
        cmd is AddEntity || cmd is RemoveEntity || cmd is RenameEntity,
    ensures
        spec_asset_apply(asset_ents_view(old(es)@), cmd@, 0) == (asset_ents_view(final(es)@), asset_res_view(r)),
        r is Ok ==> asset_depth(r->Ok_0@) == 0,
{
    let ghost e0 = asset_ents_view(es@);
    match cmd {
        AssetCommand::AddEntity { local_id, name, local_path, components } => {
            match find_asset_entity_index(es, local_id.as_str()) {
                Some(_) => Err(AssetCommandError::DuplicateLocalId(local_id.clone())),
                None => {
                    es.push(SceneAssetEntity {
                        local_id: local_id.clone(),
                        local_path: local_path.clone(),
                        name: name.clone(),
                        components: clone_components(components),
                    });
                    assert(asset_ents_view(es@) =~= e0.push(
                        AssetEntityV { local_id: local_id@, local_path: local_path@, name: name@, components: comps_view(components@) },
                    ));
                    Ok(AssetCommand::RemoveEntity { local_id: local_id.clone() })
                },
            }
        },
        AssetCommand::RemoveEntity { local_id } => {
            match find_asset_entity_index(es, local_id.as_str()) {
                None => Err(AssetCommandError::EntityNotFound(local_id.clone())),
                Some(i) => {
                    let removed = es.remove(i);
                    assert(asset_ents_view(es@) =~= e0.remove(i as int));
                    Ok(AssetCommand::AddEntity {
                        local_id: removed.local_id,
                        name: removed.name,
                        local_path: removed.local_path,
                        components: removed.components,
                    })
                },
            }
        },
        AssetCommand::RenameEntity { local_id, new_name, .. } => {
            match find_asset_entity_index(es, local_id.as_str()) {
                None => Err(AssetCommandError::EntityNotFound(local_id.clone())),
                Some(i) => {
                    let mut e = es.remove(i);
                    let old_name = e.name.clone();
                    e.name = new_name.clone();
                    es.insert(i, e);
                    assert(asset_ents_view(es@) =~= e0.update(i as int, AssetEntityV { name: new_name@, ..e0[i as int] }));
                    Ok(AssetCommand::RenameEntity { local_id: local_id.clone(), old_name: Some(old_name.clone()), new_name: old_name })
                },
            }
        },
        _ => {
            proof {
                assert(false);
            }
            Err(AssetCommandError::JsonError(String::new()))
        },
    }
}

/// Apply a component-level command (add, remove, set a field).
fn apply_component_command(es: &mut Vec<SceneAssetEntity>, cmd: &AssetCommand) -> (r: Result<AssetCommand, AssetCommandError>)
    requires
        cmd is AddComponent || cmd is RemoveComponent || cmd is SetComponentValue,
    ensures
        spec_asset_apply(asset_ents_view(old(es)@), cmd@, 0) == (asset_ents_view(final(es)@), asset_res_view(r)),
        r is Ok ==> asset_depth(r->Ok_0@) == 0,
{
    let ghost e0 = asset_ents_view(es@);
    match cmd {
        AssetCommand::AddComponent { local_id, type_id, values } => {
            match find_asset_entity_index(es, local_id.as_str()) {
                None => Err(AssetCommandError::EntityNotFound(local_id.clone())),
                Some(i) => {
                    let mut e = es.remove(i);
                    e.components.push(ComponentInstance { type_id: type_id.clone(), values: json_clone(values) });
                    es.insert(i, e);
                    proof {
                        let ev = e0[i as int];
                        assert(comps_view(es@[i as int].components@) =~= ev.components.push(
                            ComponentV { type_id: type_id@, values: values@ },
                        ));
                        assert(asset_ents_view(es@) =~= e0.update(i as int, es@[i as int]@));
                    }
                    Ok(AssetCommand::RemoveComponent { local_id: local_id.clone(), type_id: type_id.clone() })
                },
            }
        },
        AssetCommand::RemoveComponent { local_id, type_id } => {
            match find_asset_entity_index(es, local_id.as_str()) {
                None => Err(AssetCommandError::EntityNotFound(local_id.clone())),
                Some(i) => {
                    match find_component_index(&es[i].components, type_id.as_str()) {
                        None => Ok(AssetCommand::RemoveComponent { local_id: local_id.clone(), type_id: type_id.clone() }),
                        Some(j) => {
                            let mut e = es.remove(i);
                            let removed = e.components.remove(j);
                            es.insert(i, e);
                            proof {
                                let ev = e0[i as int];
                                assert(comps_view(es@[i as int].components@) =~= ev.components.remove(j as int));
                                assert(asset_ents_view(es@) =~= e0.update(i as int, es@[i as int]@));
                            }
                            Ok(AssetCommand::AddComponent { local_id: local_id.clone(), type_id: removed.type_id, values: removed.values })
                        },
                    }
                },
            }
        },
        AssetCommand::SetComponentValue { local_id, type_id, field_path, value } => {
            match find_asset_entity_index(es, local_id.as_str()) {
                None => Err(AssetCommandError::EntityNotFound(local_id.clone())),
                Some(i) => {
                    match find_component_index(&es[i].components, type_id.as_str()) {
                        None => Err(AssetCommandError::ComponentNotFound(type_id.clone())),
                        Some(j) => {
                            let ghost cs0 = e0[i as int].components;
                            let mut e = es.remove(i);
                            let mut comp = e.components.remove(j);
                            let res = set_field_path_vec(&mut comp.values, field_path, json_clone(value));
                            let ghost cv = comp@;
                            e.components.insert(j, comp);
                            es.insert(i, e);
                            match res {
                                Ok(old) => {
                                    proof {
                                        assert(comps_view(es@[i as int].components@) =~= cs0.update(j as int, cv));
                                        assert(asset_ents_view(es@) =~= e0.update(i as int, es@[i as int]@));
                                    }
                                    Ok(AssetCommand::SetComponentValue {
                                        local_id: local_id.clone(),
                                        type_id: type_id.clone(),
                                        field_path: clone_strings(field_path),
                                        value: old,
                                    })
                                },
                                Err(er) => {
                                    proof {
                                        assert(comps_view(es@[i as int].components@) =~= cs0);
                                        assert(asset_ents_view(es@) =~= e0);
                                    }
                                    Err(er)
                                },
                            }
                        },
                    }
                },
            }
        },
        _ => {
            proof {
                assert(false);
            }
            Err(AssetCommandError::JsonError(String::new()))
        },
    }
}

/// Apply `cmd` to the entities `es`; `fuel` bounds the nesting of batches.
fn apply_entities(es: &mut Vec<SceneAssetEntity>, cmd: &AssetCommand, Ghost(fuel): Ghost<nat>) -> (r: Result<AssetCommand, AssetCommandError>)
    requires
        fuel >= asset_depth(cmd@),
    ensures
        spec_asset_apply(asset_ents_view(old(es)@), cmd@, fuel) == (asset_ents_view(final(es)@), asset_res_view(r)),
        r is Ok ==> asset_depth(r->Ok_0@) <= asset_depth(cmd@),
    decreases asset_depth(cmd@), 2int,
{
    match cmd {
        AssetCommand::AddEntity { .. } => apply_entity_command(es, cmd),
        AssetCommand::RemoveEntity { .. } => apply_entity_command(es, cmd),
        AssetCommand::RenameEntity { .. } => apply_entity_command(es, cmd),
        AssetCommand::AddComponent { .. } => apply_component_command(es, cmd),
        AssetCommand::RemoveComponent { .. } => apply_component_command(es, cmd),
        AssetCommand::SetComponentValue { .. } => apply_component_command(es, cmd),
        AssetCommand::Batch { .. } => apply_batch_entities(es, cmd, Ghost(fuel)),
    }
}

/// A copy of the entities.
fn clone_entities(es: &Vec<SceneAssetEntity>) -> (r: Vec<SceneAssetEntity>)
    ensures
        asset_ents_view(r@) == asset_ents_view(es@),
{
    let mut out: Vec<SceneAssetEntity> = Vec::new();
    let mut i: usize = 0;
    while i < es.len()
        invariant
            i <= es.len(),
            asset_ents_view(out@) == asset_ents_view(es@).subrange(0, i as int),
        decreases es.len() - i,
    {
        let ghost before = asset_ents_view(out@);
        let c = clone_asset_entity(&es[i]);
        out.push(c);
        assert(asset_ents_view(out@) =~= before.push(es@[i as int]@));
        assert(asset_ents_view(out@) =~= asset_ents_view(es@).subrange(0, i + 1));
        i += 1;
    }
    assert(asset_ents_view(es@).subrange(0, es.len() as int) =~= asset_ents_view(es@));
    out
}

/// Apply the batch `cmd` to the entities `es`.
fn apply_batch_entities(es: &mut Vec<SceneAssetEntity>, cmd: &AssetCommand, Ghost(fuel): Ghost<nat>) -> (r: Result<AssetCommand, AssetCommandError>)
    requires
        cmd is Batch,
        fuel >= asset_depth(cmd@),
    ensures
        spec_asset_apply(asset_ents_view(old(es)@), cmd@, fuel) == (asset_ents_view(final(es)@), asset_res_view(r)),
        r is Ok ==> asset_depth(r->Ok_0@) <= asset_depth(cmd@),
    decreases asset_depth(cmd@), 1int,
{
    let ghost e0 = asset_ents_view(es@);
    match cmd {
        AssetCommand::Batch { commands, .. } => {
            let ghost cs = cmd@->Batch_commands;
            let ghost d = asset_depth(cmd@);
            let saved = clone_entities(es);
            let mut inverses: Vec<AssetCommand> = Vec::new();
            let mut i: usize = 0;
            assert(asset_cmds_view(inverses@) =~= Seq::<AssetCommandV>::empty());
            while i < commands.len()
                invariant
                    (*cmd)->Batch_commands == *commands,
                    *cmd is Batch,
                    cmd@ is Batch,
                    cs == cmd@->Batch_commands,
                    cs.len() == commands@.len(),
                    forall|k: int| 0 <= k < cs.len() ==> cs[k] == (#[trigger] commands@[k])@,
                    d == asset_depth(cmd@),
                    d == 1 + max_depth(cs, cs.len() as int),
                    fuel >= d,
                    e0 == asset_ents_view(old(es)@),
                    asset_ents_view(saved@) == e0,
                    i <= commands.len(),
                    inverses.len() == i,
                    forall|k: int| 0 <= k < i ==> asset_depth(#[trigger] inverses@[k]@) <= d - 1,
                    batch_run(e0, cs, 0, Seq::empty(), fuel) == batch_run(asset_ents_view(es@), cs, i as int, asset_cmds_view(inverses@), fuel),
                decreases commands.len() - i,
            {
                proof {
                    lemma_max_depth(cs, cs.len() as int, i as int);
                    assert(cs[i as int] == commands@[i as int]@);
                }
                let ghost ivs = asset_cmds_view(inverses@);
                let ghost before = asset_ents_view(es@);
                match apply_entities(es, &commands[i], Ghost(fuel)) {
                    Ok(inv) => {
                        inverses.push(inv);
                        assert(asset_cmds_view(inverses@) =~= ivs.push(inverses@[i as int]@));
                    },
                    Err(e) => {
                        let ghost failed = asset_ents_view(es@);
                        *es = saved;
                        let ghost ev = e@;
                        assert(spec_asset_apply(before, cs[i as int], fuel) == (failed, Err::<AssetCommandV, AssetErrV>(ev)));
                        assert(batch_run(before, cs, i as int, ivs, fuel) == (
                            failed,
                            Err::<Seq<AssetCommandV>, (int, AssetErrV)>((i as int, ev)),
                        ));
                        let er = AssetCommandError::BatchFailed { index: i, source: Box::new(e) };
                        assert(er@ == AssetErrV::BatchFailed { index: i as int, source: Box::new(ev) });
                        assert(spec_asset_apply(e0, cmd@, fuel) == (asset_ents_view(es@), Err::<AssetCommandV, AssetErrV>(er@)));
                        return Err(er);
                    },
                }
                i += 1;
            }
            let ghost ivs = asset_cmds_view(inverses@);
            let ghost n = inverses.len();
            let mut out: Vec<AssetCommand> = Vec::new();
            while inverses.len() > 0
                invariant
                    inverses.len() + out.len() == n,
                    ivs.len() == n,
                    asset_cmds_view(inverses@) == ivs.subrange(0, inverses.len() as int),
                    forall|k: int| 0 <= k < out.len() ==> (#[trigger] out@[k])@ == ivs[n - 1 - k],
                decreases inverses.len(),
            {
                let ghost before = inverses@;
                let ghost m = inverses.len();
                match inverses.pop() {
                    Some(x) => {
                        assert(asset_cmds_view(before)[m - 1] == ivs[m - 1]);
                        assert(x@ == ivs[m - 1]);
                        out.push(x);
                        assert(asset_cmds_view(inverses@) =~= ivs.subrange(0, inverses.len() as int));
                    },
                    None => {},
                }
            }
            let r = AssetCommand::Batch { label: String::from_str("inverse"), commands: out };
            proof {
                reveal_strlit("inverse");
                assert(r@->Batch_commands =~= ivs.reverse());
                assert forall|k: int| 0 <= k < ivs.reverse().len() implies asset_depth(#[trigger] ivs.reverse()[k]) <= d - 1 by {
                    assert(ivs.reverse()[k] == ivs[n - 1 - k]);
                }
                lemma_max_depth_bound(ivs.reverse(), ivs.reverse().len() as int, (d - 1) as nat);
            }
            Ok(r)
        },
        _ => {
            proof {
                assert(false);
            }
            Err(AssetCommandError::JsonError(String::new()))
        },
    }
}

/// Apply `cmd` to the asset document and return the command that undoes it. Only the
/// entities change. A command that fails, a batch included, leaves the document
/// unchanged.
pub fn apply(doc: &mut SceneAssetDocument, cmd: &AssetCommand) -> (r: Result<AssetCommand, AssetCommandError>)
    ensures
        spec_asset_apply(asset_ents_view(old(doc).entities@), cmd@, asset_depth(cmd@))
            == (asset_ents_view(final(doc).entities@), asset_res_view(r)),
        final(doc).asset_id == old(doc).asset_id,
        final(doc).logical_path == old(doc).logical_path,
        final(doc).role == old(doc).role,
        final(doc).version == old(doc).version,
        final(doc).relationships == old(doc).relationships,
        r is Err ==> asset_ents_view(final(doc).entities@) == asset_ents_view(old(doc).entities@),
{
    proof {
        lemma_failed_apply_keeps_entities(asset_ents_view(doc.entities@), cmd@, asset_depth(cmd@));
    }
    apply_entities(&mut doc.entities, cmd, Ghost(asset_depth(cmd@)))
}

/// A command that fails, a batch included, leaves the entities as they were.
pub proof fn lemma_failed_apply_keeps_entities(es: Seq<AssetEntityV>, c: AssetCommandV, fuel: nat)
    ensures
        spec_asset_apply(es, c, fuel).1 is Err ==> spec_asset_apply(es, c, fuel).0 == es,
{
}

/// One entry of the asset operation log.
#[derive(Debug)]
pub struct AssetLogEntry {
    pub forward: AssetCommand,
    pub inverse: AssetCommand,
}

/// The models of log entries: each entry's command and inverse.
pub open spec fn asset_entries_view(es: Seq<AssetLogEntry>) -> Seq<(AssetCommandV, AssetCommandV)> {
    es.map_values(|e: AssetLogEntry| (e.forward@, e.inverse@))
}

/// Undo/redo history of the commands applied to one asset document.
#[derive(Debug)]
pub struct AssetOperationLog {
    history: History<AssetLogEntry>,
}

/// The document `d1` is `d0` with its entities replaced by `es`.
pub open spec fn same_but_entities(d0: SceneAssetDocument, d1: SceneAssetDocument, es: Seq<AssetEntityV>) -> bool {
    &&& asset_ents_view(d1.entities@) == es
    &&& d1.asset_id == d0.asset_id
    &&& d1.logical_path == d0.logical_path
    &&& d1.role == d0.role
    &&& d1.version == d0.version
    &&& d1.relationships == d0.relationships
}

impl AssetOperationLog {
    /// The recorded commands and inverses, oldest first.
    pub closed spec fn entries(&self) -> Seq<(AssetCommandV, AssetCommandV)> {
        asset_entries_view(self.history.entries())
    }

    /// Index of the last applied entry; -1 when every entry is undone.
    pub closed spec fn cursor(&self) -> int {
        self.history.cursor()
    }

    /// The maximum number of entries kept.
    pub closed spec fn max_size(&self) -> nat {
        self.history.max_size()
    }

    /// The log is consistent: the cursor lies in `-1 .. len` and at most `max_size`
    /// entries are held.
    pub closed spec fn wf(&self) -> bool {
        self.history.wf()
    }

    /// The facts `wf` stands for.
    pub proof fn lemma_wf(&self)
        requires
            self.wf(),
        ensures
            -1 <= self.cursor() < self.entries().len(),
            self.entries().len() <= self.max_size(),
            self.entries().len() <= isize::MAX,
    {
    }

    /// An empty log keeping at most `max_size` entries.
    pub fn with_max_size(max_size: usize) -> (r: AssetOperationLog)
        ensures
            r.wf(),
            r.entries() == Seq::<(AssetCommandV, AssetCommandV)>::empty(),
            r.cursor() == -1,
            r.max_size() == max_size,
    {
        let r = AssetOperationLog { history: History::with_max_size(max_size) };
        assert(r.entries() =~= Seq::<(AssetCommandV, AssetCommandV)>::empty());
        r
    }

    /// An empty log keeping at most 1000 entries.
    pub fn new() -> (r: AssetOperationLog)
        ensures
            r.wf(),
            r.entries() == Seq::<(AssetCommandV, AssetCommandV)>::empty(),
            r.cursor() == -1,
            r.max_size() == 1000,
    {
        Self::with_max_size(1000)
    }

    /// The same empty log as `new`, for initialising shared state.
    pub fn new_const() -> (r: AssetOperationLog)
        ensures
            r.wf(),
            r.entries() == Seq::<(AssetCommandV, AssetCommandV)>::empty(),
            r.cursor() == -1,
            r.max_size() == 1000,
    {
        Self::with_max_size(1000)
    }

    /// Record a command that was just applied, with its inverse.
    pub fn record(&mut self, forward: &AssetCommand, inverse: AssetCommand)
        requires
            old(self).wf(),
            old(self).entries().len() < isize::MAX,
        ensures
            final(self).wf(),
            final(self).entries() == recorded_entries(old(self).entries(), old(self).cursor(), old(self).max_size(), (forward@, inverse@)),
            final(self).cursor() == final(self).entries().len() - 1,
            final(self).max_size() == old(self).max_size(),
    {
        let e = AssetLogEntry { forward: clone_asset_command(forward), inverse };
        proof {
            let es = self.history.entries();
            let c = self.history.cursor();
            let max = self.history.max_size();
            let kept = if c < es.len() - 1 { es.subrange(0, c + 1) } else { es };
            let kv = if c < es.len() - 1 { asset_entries_view(es).subrange(0, c + 1) } else { asset_entries_view(es) };
            assert(asset_entries_view(kept) =~= kv);
            let pushed = kept.push(e);
            assert(asset_entries_view(pushed) =~= kv.push((forward@, inverse@)));
            if pushed.len() > max {
                assert(asset_entries_view(pushed.subrange(pushed.len() - max, pushed.len() as int)) =~= kv.push(
                    (forward@, inverse@),
                ).subrange(pushed.len() - max, pushed.len() as int));
            }
        }
        self.history.record(e);
    }

    /// Undo the entry at the cursor: apply its inverse to `doc` and move the cursor back.
    /// When the inverse fails the cursor stays, and so do the entities: a failed apply changes nothing.
    pub fn undo(&mut self, doc: &mut SceneAssetDocument) -> (r: Result<(), AssetCommandError>)
        requires
            old(self).wf(),
        ensures
            final(self).wf(),
            final(self).entries() == old(self).entries(),
            final(self).max_size() == old(self).max_size(),
            old(self).cursor() < 0 ==> {
                &&& r is Err
                &&& r->Err_0@ == AssetErrV::JsonError("Nothing to undo"@)
                &&& *final(doc) == *old(doc)
                &&& final(self).cursor() == old(self).cursor()
            },
            old(self).cursor() >= 0 ==> {
                let inv = old(self).entries()[old(self).cursor()].1;
                let (es1, res) = spec_asset_apply(asset_ents_view(old(doc).entities@), inv, asset_depth(inv));
                &&& same_but_entities(*old(doc), *final(doc), es1)
                &&& match r {
                    Ok(_) => res is Ok && final(self).cursor() == old(self).cursor() - 1,
                    Err(e) => res == Err::<AssetCommandV, AssetErrV>(e@) && final(self).cursor() == old(self).cursor(),
                }
            },
    {
        if !self.history.can_undo() {
            return Err(AssetCommandError::JsonError(String::from_str("Nothing to undo")));
        }
        let entry = self.history.current();
        assert((entry.forward@, entry.inverse@) == self.entries()[self.cursor()]);
        match apply(doc, &entry.inverse) {
            Err(e) => Err(e),
            Ok(_) => {
                self.history.step_back();
                Ok(())
            },
        }
    }

    /// Redo the entry after the cursor: move the cursor forward and apply that entry's
    /// command to `doc`. When the command fails the cursor stays moved.
    pub fn redo(&mut self, doc: &mut SceneAssetDocument) -> (r: Result<(), AssetCommandError>)
        requires
            old(self).wf(),
        ensures
            final(self).wf(),
            final(self).entries() == old(self).entries(),
            final(self).max_size() == old(self).max_size(),
            old(self).cursor() >= old(self).entries().len() - 1 ==> {
                &&& r is Err
                &&& r->Err_0@ == AssetErrV::JsonError("Nothing to redo"@)
                &&& *final(doc) == *old(doc)
                &&& final(self).cursor() == old(self).cursor()
            },
            old(self).cursor() < old(self).entries().len() - 1 ==> {
                let fwd = old(self).entries()[old(self).cursor() + 1].0;
                let (es1, res) = spec_asset_apply(asset_ents_view(old(doc).entities@), fwd, asset_depth(fwd));
                &&& same_but_entities(*old(doc), *final(doc), es1)
                &&& final(self).cursor() == old(self).cursor() + 1
                &&& match r {
                    Ok(_) => res is Ok,
                    Err(e) => res == Err::<AssetCommandV, AssetErrV>(e@),
                }
            },
    {
        if !self.history.can_redo() {
            return Err(AssetCommandError::JsonError(String::from_str("Nothing to redo")));
        }
        self.history.step_forward();
        let entry = self.history.current();
        assert((entry.forward@, entry.inverse@) == self.entries()[self.cursor()]);
        match apply(doc, &entry.forward) {
            Err(e) => Err(e),
            Ok(_) => Ok(()),
        }
    }

    /// Whether an entry can be undone.
    pub fn can_undo(&self) -> (r: bool)
        ensures
            r == (self.cursor() >= 0),
    {
        self.history.can_undo()
    }

    /// Whether an entry can be redone.
    pub fn can_redo(&self) -> (r: bool)
        requires
            self.wf(),
        ensures
            r == (self.cursor() < self.entries().len() - 1),
    {
        self.history.can_redo()
    }

    /// Number of entries held.
    pub fn get_log_size(&self) -> (r: usize)
        ensures
            r == self.entries().len(),
    {
        self.history.len()
    }

    /// The cursor.
    pub fn get_cursor(&self) -> (r: isize)
        ensures
            r == self.cursor(),
    {
        self.history.get_cursor()
    }

    /// Whether some recorded change is applied (the cursor is on an entry).
    pub fn is_dirty(&self) -> (r: bool)
        ensures
            r == (self.cursor() >= 0),
    {
        self.history.can_undo()
    }

    /// Drop every entry.
    pub fn clear(&mut self)
        ensures
            final(self).wf(),
            final(self).entries() == Seq::<(AssetCommandV, AssetCommandV)>::empty(),
            final(self).cursor() == -1,
            final(self).max_size() == old(self).max_size(),
    {
        self.history.clear();
        assert(self.entries() =~= Seq::<(AssetCommandV, AssetCommandV)>::empty());
    }
}

/// Applying the inverse that a successful `c` returned, to the entities `c` produced,
/// gives back the original entities.
pub open spec fn asset_undo_restores(es: Seq<AssetEntityV>, c: AssetCommandV) -> bool {
    let (es1, r) = spec_asset_apply(es, c, asset_depth(c));
    &&& r is Ok
    &&& spec_asset_apply(es1, r->Ok_0, asset_depth(r->Ok_0)).1 is Ok
    &&& spec_asset_apply(es1, r->Ok_0, asset_depth(r->Ok_0)).0 == es
}

/// Undoing the addition of an entity restores the entities.
pub proof fn law_asset_add_entity_undo(
    es: Seq<AssetEntityV>,
    local_id: Seq<char>,
    name: Seq<char>,
    local_path: Seq<char>,
    components: Seq<ComponentV>,
)
    requires
        spec_asset_apply(es, AssetCommandV::AddEntity { local_id, name, local_path, components }, 0).1 is Ok,
    ensures
        asset_undo_restores(es, AssetCommandV::AddEntity { local_id, name, local_path, components }),
{
    let x = AssetEntityV { local_id, local_path, name, components };
    lemma_first_match(es, lid_is(local_id));
    lemma_first_match_push(es, lid_is(local_id), x);
    assert(es.push(x).remove(es.len() as int) =~= es);
}

/// Undoing a rename restores the entities.
pub proof fn law_asset_rename_undo(es: Seq<AssetEntityV>, local_id: Seq<char>, old_name: Option<Seq<char>>, new_name: Seq<char>)
    requires
        spec_asset_apply(es, AssetCommandV::RenameEntity { local_id, old_name, new_name }, 0).1 is Ok,
    ensures
        asset_undo_restores(es, AssetCommandV::RenameEntity { local_id, old_name, new_name }),
{
    let i = find_asset_ent(es, local_id);
    lemma_first_match(es, lid_is(local_id));
    let e1 = AssetEntityV { name: new_name, ..es[i] };
    lemma_first_match_update(es, lid_is(local_id), i, e1);
    assert(es.update(i, e1).update(i, AssetEntityV { name: es[i].name, ..e1 }) =~= es);
}

/// Undoing the addition of a component restores the entities, when the entity had no
/// component of that type before.
pub proof fn law_asset_add_component_undo(es: Seq<AssetEntityV>, local_id: Seq<char>, type_id: Seq<char>, values: JsonV)
    requires
        spec_asset_apply(es, AssetCommandV::AddComponent { local_id, type_id, values }, 0).1 is Ok,
        first_match(es[find_asset_ent(es, local_id)].components, comp_type_is(type_id)) == -1,
    ensures
        asset_undo_restores(es, AssetCommandV::AddComponent { local_id, type_id, values }),
{
    let i = find_asset_ent(es, local_id);
    lemma_first_match(es, lid_is(local_id));
    let e = es[i];
    let x = ComponentV { type_id, values };
    let e1 = AssetEntityV { components: e.components.push(x), ..e };
    lemma_first_match_update(es, lid_is(local_id), i, e1);
    lemma_first_match_push(e.components, comp_type_is(type_id), x);
    assert(e1.components.remove(e.components.len() as int) =~= e.components);
    assert(es.update(i, e1).update(i, AssetEntityV { components: e1.components.remove(e.components.len() as int), ..e1 }) =~= es);
}

/// Undoing a field edit restores the entities.
pub proof fn law_asset_set_value_undo(
    es: Seq<AssetEntityV>,
    local_id: Seq<char>,
    type_id: Seq<char>,
    field_path: Seq<Seq<char>>,
    value: JsonV,
)
    requires
        spec_asset_apply(es, AssetCommandV::SetComponentValue { local_id, type_id, field_path, value }, 0).1 is Ok,
    ensures
        asset_undo_restores(es, AssetCommandV::SetComponentValue { local_id, type_id, field_path, value }),
{
    let i = find_asset_ent(es, local_id);
    lemma_first_match(es, lid_is(local_id));
    let e = es[i];
    let j = first_match(e.components, comp_type_is(type_id));
    lemma_first_match(e.components, comp_type_is(type_id));
    let (u, old) = json_set_path(e.components[j].values, field_path, 0, value)->Ok_0;
    lemma_set_set_restores(e.components[j].values, field_path, 0, value);
    let c1 = ComponentV { type_id: e.components[j].type_id, values: u };
    let e1 = AssetEntityV { components: e.components.update(j, c1), ..e };
    lemma_first_match_update(es, lid_is(local_id), i, e1);
    lemma_first_match_update(e.components, comp_type_is(type_id), j, c1);
    let c2 = ComponentV { type_id: c1.type_id, values: e.components[j].values };
    assert(e1.components.update(j, c2) =~= e.components);
    assert(es.update(i, e1).update(i, AssetEntityV { components: e1.components.update(j, c2), ..e1 }) =~= es);
}

impl Default for AssetOperationLog {
    /// The same empty log as `new`.
    fn default() -> (r: AssetOperationLog)
        ensures
            r.wf(),
            r.entries() == Seq::<(AssetCommandV, AssetCommandV)>::empty(),
            r.cursor() == -1,
            r.max_size() == 1000,
    {
        AssetOperationLog::new()
    }
}

/// Undoing the removal of an entity restores the entities, when it was the last one (the
/// inverse appends it again).
pub proof fn law_asset_remove_entity_undo(es: Seq<AssetEntityV>, local_id: Seq<char>)
    requires
        spec_asset_apply(es, AssetCommandV::RemoveEntity { local_id }, 0).1 is Ok,
        find_asset_ent(es, local_id) == es.len() - 1,
    ensures
        asset_undo_restores(es, AssetCommandV::RemoveEntity { local_id }),
{
    let i = find_asset_ent(es, local_id);
    lemma_first_match(es, lid_is(local_id));
    let rest = es.remove(i);
    assert forall|q: int| 0 <= q < rest.len() implies !lid_is(local_id)(#[trigger] rest[q]) by {
        assert(rest[q] == es[q]);
    }
    lemma_first_match_none(rest, lid_is(local_id));
    assert(rest.push(AssetEntityV { local_id: es[i].local_id, local_path: es[i].local_path, name: es[i].name, components: es[i].components }) =~= es);
}

/// Undoing the removal of a component restores the entities, when the removed component
/// was the entity's last one (the inverse appends it again).
pub proof fn law_asset_remove_component_undo(es: Seq<AssetEntityV>, local_id: Seq<char>, type_id: Seq<char>)
    requires
        spec_asset_apply(es, AssetCommandV::RemoveComponent { local_id, type_id }, 0).1 is Ok,
        ({
            let cs = es[find_asset_ent(es, local_id)].components;
            let j = first_match(cs, comp_type_is(type_id));
            0 <= j < cs.len() ==> j == cs.len() - 1
        }),
    ensures
        asset_undo_restores(es, AssetCommandV::RemoveComponent { local_id, type_id }),
{
    let i = find_asset_ent(es, local_id);
    lemma_first_match(es, lid_is(local_id));
    let e = es[i];
    let j = first_match(e.components, comp_type_is(type_id));
    lemma_first_match(e.components, comp_type_is(type_id));
    if 0 <= j < e.components.len() {
        let e1 = AssetEntityV { components: e.components.remove(j), ..e };
        lemma_first_match_update(es, lid_is(local_id), i, e1);
        assert(e1.components.push(e.components[j]) =~= e.components);
        assert(es.update(i, e1).update(i, AssetEntityV { components: e1.components.push(e.components[j]), ..e1 }) =~= es);
    }
}

} // verus!
