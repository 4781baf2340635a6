//! The command processor: validation and application of commands to a scene document,
//! each application returning the command's inverse.
//!
//! Validation runs before any mutation, and a command that fails leaves the document
//! unchanged. A batch applies atomically: when one of its commands fails, the document
//! is restored to its state before the batch.

use vstd::prelude::*;
use vstd::string::*;
use crate::command::{Command, CommandV, CommandError, ErrV, cmds_view};
use crate::document::{ComponentInstance, ComponentV, ComponentOverride, ComponentOverrideStatus, Entity, EntityV, InstanceV, OverrideV, SceneDocument, SceneInstance, DocV, clone_components, clone_document, clone_id_map, clone_instance, clone_opt_string, clone_override, clone_overrides, clone_strings, comps_view, ents_view, insts_view, ovs_view};
use crate::json::{JsonValue, JsonV, json_clone, json_get_path, json_get_path_exec, json_set_path, json_set_path_exec, strs_view, lemma_set_then_get, lemma_set_set_restores};
use crate::seqs::{first_match, is_first_match, lemma_first_match, lemma_first_match_at, lemma_first_match_none, first_index, lemma_first_index_at, lemma_first_index_none, lemma_first_match_update, lemma_first_match_push, lemma_first_index_found};
use crate::text::{concat2, concat3, split_by_char, split_on, str_equal, to_owned_string};

verus! {

// ---------------------------------------------------------------------------
// Model
// ---------------------------------------------------------------------------

/// Predicate "this entity has id `id`".
pub open spec fn ent_id_is(id: Seq<char>) -> spec_fn(EntityV) -> bool {
    |e: EntityV| e.id == id
}

/// Predicate "this component has type `t`".
pub open spec fn comp_type_is(t: Seq<char>) -> spec_fn(ComponentV) -> bool {
    |c: ComponentV| c.type_id == t
}

/// Predicate "this instance has id `id`".
pub open spec fn inst_id_is(id: Seq<char>) -> spec_fn(InstanceV) -> bool {
    |i: InstanceV| i.instance_id == id
}

/// Predicate "this override addresses field `f` of component `c` of entity `t`".
pub open spec fn ov_key_is(t: Seq<char>, c: Seq<char>, f: Seq<Seq<char>>) -> spec_fn(OverrideV) -> bool {
    |o: OverrideV| o.target_local_id == t && o.component_type_id == c && o.field_path == f
}

/// Position of the entity with id `id`, or -1.
pub open spec fn find_ent(d: DocV, id: Seq<char>) -> int {
    first_match(d.entities, ent_id_is(id))
}

/// Position of the instance with id `id`, or -1.
pub open spec fn find_inst(d: DocV, id: Seq<char>) -> int {
    first_match(d.instances, inst_id_is(id))
}

/// The document with entity `i` replaced.
pub open spec fn with_entity(d: DocV, i: int, e: EntityV) -> DocV {
    DocV { entities: d.entities.update(i, e), ..d }
}

/// The document with instance `k` replaced.
pub open spec fn with_instance(d: DocV, k: int, x: InstanceV) -> DocV {
    DocV { instances: d.instances.update(k, x), ..d }
}

/// Predicate "this instance's id does not come before `id`".
pub open spec fn inst_not_below(id: Seq<char>) -> spec_fn(InstanceV) -> bool {
    |x: InstanceV| !crate::logic_state::lex_lt(x.instance_id, id)
}

/// Where a new instance with id `id` goes so that instances stay in order of id: before
/// the first one whose id does not come before it, else at the end.
pub open spec fn inst_insert_pos(insts: Seq<InstanceV>, id: Seq<char>) -> int {
    let m = first_match(insts, inst_not_below(id));
    if m < 0 { insts.len() as int } else { m }
}

/// Following parent links from `cur` for at most `fuel` entity lookups reaches `target`.
pub open spec fn chain_hits(ents: Seq<EntityV>, cur: Seq<char>, target: Seq<char>, fuel: nat) -> bool
    decreases fuel,
{
    if cur == target {
        true
    } else if fuel == 0 {
        false
    } else {
        let i = first_match(ents, ent_id_is(cur));
        if 0 <= i < ents.len() {
            match ents[i].parent {
                Some(p) => chain_hits(ents, p, target, (fuel - 1) as nat),
                None => false,
            }
        } else {
            false
        }
    }
}

/// Making `proposed_parent` the parent of `entity_id` would close a loop: the parent is the
/// entity itself or one of its descendants. The walk up from `proposed_parent` visits at
/// most as many entities as the document holds.
pub open spec fn would_create_cycle(d: DocV, entity_id: Seq<char>, proposed_parent: Seq<char>) -> bool {
    entity_id == proposed_parent || chain_hits(d.entities, proposed_parent, entity_id, d.entities.len())
}

/// The dotted components of a field path.
pub open spec fn path_parts(path: Seq<char>) -> Seq<Seq<char>> {
    split_on(path, '.')
}

/// Checks of `SetComponentField` on one entity.
pub open spec fn validate_set_field(d: DocV, eid: Seq<char>, t: Seq<char>, path: Seq<char>) -> Result<(), ErrV> {
    let i = find_ent(d, eid);
    if !(0 <= i < d.entities.len()) {
        Err(ErrV::EntityNotFound(eid))
    } else {
        let cs = d.entities[i].components;
        let j = first_match(cs, comp_type_is(t));
        if !(0 <= j < cs.len()) {
            Err(ErrV::UnknownSchema(t))
        } else if json_get_path(cs[j].values, path_parts(path), 0) is None {
            Err(ErrV::FieldNotFound(path))
        } else {
            Ok(())
        }
    }
}

/// The change `SetComponentField` makes once validated, with its inverse.
pub open spec fn effect_set_field(d: DocV, eid: Seq<char>, t: Seq<char>, path: Seq<char>, value: JsonV) -> Result<(DocV, CommandV), ErrV> {
    let i = find_ent(d, eid);
    if !(0 <= i < d.entities.len()) {
        Err(ErrV::EntityNotFound(eid))
    } else {
        let e = d.entities[i];
        let j = first_match(e.components, comp_type_is(t));
        let parts = path_parts(path);
        if !(0 <= j < e.components.len()) {
            Err(ErrV::UnknownSchema(t))
        } else if parts.len() == 0 || (parts.len() == 1 && parts[0].len() == 0) {
            Err(ErrV::FieldNotFound(path))
        } else {
            match json_set_path(e.components[j].values, parts, 0, value) {
                Ok((u, old)) => Ok((
                    with_entity(d, i, EntityV {
                        components: e.components.update(j, ComponentV { values: u, ..e.components[j] }),
                        ..e
                    }),
                    CommandV::SetComponentField { entity_id: eid, type_id: t, field_path: path, value: old },
                )),
                Err(_) => Err(ErrV::FieldNotFound(path)),
            }
        }
    }
}

/// `SetComponentField` as a whole: validation, then its change.
pub open spec fn spec_set_field(d: DocV, eid: Seq<char>, t: Seq<char>, path: Seq<char>, value: JsonV) -> Result<(DocV, CommandV), ErrV> {
    match validate_set_field(d, eid, t, path) {
        Err(e) => Err(e),
        Ok(_) => effect_set_field(d, eid, t, path, value),
    }
}

/// `ids[k]` already occurs in `ids[..k]`.
pub open spec fn is_dup_at(ids: Seq<Seq<char>>, k: int) -> bool {
    exists|j: int| 0 <= j < k && ids[j] == ids[k]
}

/// Per-entity check of `SetComponentFieldOnMultiple`: the entity exists and, when it owns
/// the component, the field path exists in it.
pub open spec fn multi_entity_check(d: DocV, id: Seq<char>, t: Seq<char>, path: Seq<char>) -> Result<(), ErrV> {
    let i = find_ent(d, id);
    if !(0 <= i < d.entities.len()) {
        Err(ErrV::EntityNotFound(id))
    } else {
        let cs = d.entities[i].components;
        let j = first_match(cs, comp_type_is(t));
        if 0 <= j < cs.len() && json_get_path(cs[j].values, path_parts(path), 0) is None {
            Err(ErrV::FieldNotFound(path + " (entity "@ + id + ")"@))
        } else {
            Ok(())
        }
    }
}

/// Checks of `SetComponentFieldOnMultiple`.
pub open spec fn validate_multi(d: DocV, ids: Seq<Seq<char>>, t: Seq<char>, path: Seq<char>) -> Result<(), ErrV> {
    if ids.len() == 0 {
        Err(ErrV::InvalidArgument("SetComponentFieldOnMultiple: empty entity_ids"@))
    } else {
        let k = first_index(ids.len() as int, dup_pred(ids));
        if k >= 0 {
            Err(ErrV::InvalidArgument("SetComponentFieldOnMultiple: duplicate entity_id "@ + ids[k]))
        } else {
            let m = first_index(ids.len() as int, multi_fail_pred(d, ids, t, path));
            if m >= 0 {
                multi_entity_check(d, ids[m], t, path)
            } else {
                Ok(())
            }
        }
    }
}

/// `SetComponentField` applied in turn to `ids[k..]`; `Err((k, e))` names the first failure.
pub open spec fn set_field_fold(d: DocV, ids: Seq<Seq<char>>, k: int, t: Seq<char>, path: Seq<char>, value: JsonV) -> Result<DocV, (int, ErrV)>
    decreases ids.len() - k,
{
    if k < 0 || k >= ids.len() {
        Ok(d)
    } else {
        match spec_set_field(d, ids[k], t, path, value) {
            Err(e) => Err((k, e)),
            Ok((d1, _)) => set_field_fold(d1, ids, k + 1, t, path, value),
        }
    }
}

/// The entity with its parent link to `id` cleared.
pub open spec fn orphan_of(e: EntityV, id: Seq<char>) -> EntityV {
    if e.parent == Some(id) {
        EntityV { parent: None, ..e }
    } else {
        e
    }
}

/// `ovs` with `patch` replacing the override with the same key, or appended.
pub open spec fn upsert_ov(ovs: Seq<OverrideV>, patch: OverrideV) -> Seq<OverrideV> {
    let m = first_match(ovs, ov_key_is(patch.target_local_id, patch.component_type_id, patch.field_path));
    if 0 <= m < ovs.len() {
        ovs.update(m, patch)
    } else {
        ovs.push(patch)
    }
}

/// Validation of a command against a document; `types` are the registered component types.
pub open spec fn spec_validate(d: DocV, c: CommandV, types: Seq<Seq<char>>) -> Result<(), ErrV>
    decreases c, 0int,
{
    match c {
        CommandV::Noop => Ok(()),
        CommandV::CreateEntity { id, .. } => if find_ent(d, id) >= 0 {
            Err(ErrV::DuplicateId(id))
        } else {
            Ok(())
        },
        CommandV::DeleteEntity { id } => if find_ent(d, id) < 0 {
            Err(ErrV::EntityNotFound(id))
        } else {
            Ok(())
        },
        CommandV::AddComponent { entity_id, type_id, .. } => if find_ent(d, entity_id) < 0 {
            Err(ErrV::EntityNotFound(entity_id))
        } else if !types.contains(type_id) {
            Err(ErrV::UnknownSchema(type_id))
        } else {
            Ok(())
        },
        CommandV::RemoveComponent { entity_id, .. } => if find_ent(d, entity_id) < 0 {
            Err(ErrV::EntityNotFound(entity_id))
        } else {
            Ok(())
        },
        CommandV::SetComponentField { entity_id, type_id, field_path, .. } => validate_set_field(
            d,
            entity_id,
            type_id,
            field_path,
        ),
        CommandV::SetComponentFieldOnMultiple { entity_ids, type_id, field_path, .. } => validate_multi(
            d,
            entity_ids,
            type_id,
            field_path,
        ),
        CommandV::ReparentEntity { entity_id, new_parent, .. } => if find_ent(d, entity_id) < 0 {
            Err(ErrV::EntityNotFound(entity_id))
        } else {
            match new_parent {
                Some(p) => if find_ent(d, p) < 0 {
                    Err(ErrV::EntityNotFound(p))
                } else if would_create_cycle(d, entity_id, p) {
                    Err(ErrV::WouldCreateCycle(entity_id))
                } else {
                    Ok(())
                },
                None => Ok(()),
            }
        },
        CommandV::RenameEntity { entity_id, .. } => if find_ent(d, entity_id) < 0 {
            Err(ErrV::EntityNotFound(entity_id))
        } else {
            Ok(())
        },
        CommandV::Batch { commands, .. } => match apply_seq(d, commands, 0, types) {
            Ok(_) => Ok(()),
            Err((i, e)) => Err(ErrV::BatchFailed { index: i, source: Box::new(e) }),
        },
        CommandV::PlaceInstance { instance_id, .. } => if find_inst(d, instance_id) >= 0 {
            Err(ErrV::DuplicateId(instance_id))
        } else {
            Ok(())
        },
        CommandV::RemoveInstance { instance_id } => if find_inst(d, instance_id) < 0 {
            Err(ErrV::InstanceNotFound(instance_id))
        } else {
            Ok(())
        },
        CommandV::ReplaceInstanceAsset { instance_id, .. } => if find_inst(d, instance_id) < 0 {
            Err(ErrV::InstanceNotFound(instance_id))
        } else {
            Ok(())
        },
        CommandV::UpsertOverride { instance_id, .. } => if find_inst(d, instance_id) < 0 {
            Err(ErrV::InstanceNotFound(instance_id))
        } else {
            Ok(())
        },
        CommandV::RevertOverride { instance_id, .. } => if find_inst(d, instance_id) < 0 {
            Err(ErrV::InstanceNotFound(instance_id))
        } else {
            Ok(())
        },
    }
}

/// The commands `cs[k..]` applied in turn: the final document and the inverses in order,
/// or the index of the first command that fails with its error.
pub open spec fn apply_seq(d: DocV, cs: Seq<CommandV>, k: int, types: Seq<Seq<char>>) -> Result<(DocV, Seq<CommandV>), (int, ErrV)>
    decreases cs, cs.len() - k,
{
    if k < 0 || k >= cs.len() {
        Ok((d, Seq::empty()))
    } else {
        match spec_apply(d, cs[k], types) {
            Err(e) => Err((k, e)),
            Ok((d1, inv)) => match apply_seq(d1, cs, k + 1, types) {
                Ok((d2, invs)) => Ok((d2, seq![inv] + invs)),
                Err(f) => Err(f),
            },
        }
    }
}

/// Application of a command: validation first; on success the new document and the
/// command that undoes the change.
pub open spec fn spec_apply(d: DocV, c: CommandV, types: Seq<Seq<char>>) -> Result<(DocV, CommandV), ErrV>
    decreases c, 1int,
{
    match spec_validate(d, c, types) {
        Err(e) => Err(e),
        Ok(_) => match c {
            CommandV::Noop => Ok((d, CommandV::Noop)),
            CommandV::CreateEntity { id, name, components } => Ok((
                DocV {
                    entities: d.entities.push(
                        EntityV { id: id, local_id: id, name: name, parent: None, components: components },
                    ),
                    ..d
                },
                CommandV::DeleteEntity { id: id },
            )),
            CommandV::DeleteEntity { id } => {
                let i = find_ent(d, id);
                let removed = d.entities[i];
                Ok((
                    DocV { entities: d.entities.remove(i).map_values(|e: EntityV| orphan_of(e, id)), ..d },
                    CommandV::CreateEntity { id: removed.id, name: removed.name, components: removed.components },
                ))
            },
            CommandV::AddComponent { entity_id, type_id, values } => {
                let i = find_ent(d, entity_id);
                let e = d.entities[i];
                Ok((
                    with_entity(d, i, EntityV {
                        components: e.components.push(ComponentV { type_id: type_id, values: values }),
                        ..e
                    }),
                    CommandV::RemoveComponent { entity_id: entity_id, type_id: type_id },
                ))
            },
            CommandV::RemoveComponent { entity_id, type_id } => {
                let i = find_ent(d, entity_id);
                let e = d.entities[i];
                let j = first_match(e.components, comp_type_is(type_id));
                if 0 <= j < e.components.len() {
                    Ok((
                        with_entity(d, i, EntityV { components: e.components.remove(j), ..e }),
                        CommandV::AddComponent {
                            entity_id: entity_id,
                            type_id: e.components[j].type_id,
                            values: e.components[j].values,
                        },
                    ))
                } else {
                    Ok((d, CommandV::RemoveComponent { entity_id: entity_id, type_id: type_id }))
                }
            },
            CommandV::SetComponentField { entity_id, type_id, field_path, value } => effect_set_field(
                d,
                entity_id,
                type_id,
                field_path,
                value,
            ),
            CommandV::SetComponentFieldOnMultiple { entity_ids, type_id, field_path, value } => match set_field_fold(
                d,
                entity_ids,
                0,
                type_id,
                field_path,
                value,
            ) {
                Ok(d1) => Ok((d1, c)),
                Err((k, e)) => Err(ErrV::BatchFailed { index: k, source: Box::new(e) }),
            },
            CommandV::ReparentEntity { entity_id, new_parent, .. } => {
                let i = find_ent(d, entity_id);
                let e = d.entities[i];
                Ok((
                    with_entity(d, i, EntityV { parent: new_parent, ..e }),
                    CommandV::ReparentEntity { entity_id: entity_id, old_parent: e.parent, new_parent: e.parent },
                ))
            },
            CommandV::RenameEntity { entity_id, new_name, .. } => {
                let i = find_ent(d, entity_id);
                let e = d.entities[i];
                Ok((
                    with_entity(d, i, EntityV { name: new_name, ..e }),
                    CommandV::RenameEntity { entity_id: entity_id, old_name: Some(e.name), new_name: e.name },
                ))
            },
            CommandV::Batch { commands, .. } => match apply_seq(d, commands, 0, types) {
                Ok((d1, invs)) => Ok((d1, CommandV::Batch { label: "inverse"@, commands: invs.reverse() })),
                Err((i, e)) => Err(ErrV::BatchFailed { index: i, source: Box::new(e) }),
            },
            CommandV::PlaceInstance {
                instance_id,
                asset_ref,
                asset_version,
                id_map,
                instance_components,
                component_overrides,
                orphaned_component_overrides,
            } => Ok((
                DocV {
                    instances: d.instances.insert(
                        inst_insert_pos(d.instances, instance_id),
                        InstanceV {
                            instance_id: instance_id,
                            asset_ref: asset_ref,
                            asset_version_seen: asset_version,
                            id_map: id_map,
                            instance_components: instance_components,
                            component_overrides: component_overrides,
                            orphaned_component_overrides: orphaned_component_overrides,
                        },
                    ),
                    ..d
                },
                CommandV::RemoveInstance { instance_id: instance_id },
            )),
            CommandV::RemoveInstance { instance_id } => {
                let k = find_inst(d, instance_id);
                let x = d.instances[k];
                Ok((
                    DocV { instances: d.instances.remove(k), ..d },
                    CommandV::PlaceInstance {
                        instance_id: x.instance_id,
                        asset_ref: x.asset_ref,
                        asset_version: x.asset_version_seen,
                        id_map: x.id_map,
                        instance_components: x.instance_components,
                        component_overrides: x.component_overrides,
                        orphaned_component_overrides: x.orphaned_component_overrides,
                    },
                ))
            },
            CommandV::ReplaceInstanceAsset { instance_id, new_asset_ref, new_asset_version, .. } => {
                let k = find_inst(d, instance_id);
                let x = d.instances[k];
                Ok((
                    with_instance(d, k, InstanceV { asset_ref: new_asset_ref, asset_version_seen: new_asset_version, ..x }),
                    CommandV::ReplaceInstanceAsset {
                        instance_id: instance_id,
                        new_asset_ref: x.asset_ref,
                        new_asset_version: x.asset_version_seen,
                        captured_old: Some(x),
                    },
                ))
            },
            CommandV::UpsertOverride { instance_id, target_local_id, component_type_id, field_path, value } => {
                let k = find_inst(d, instance_id);
                let x = d.instances[k];
                let m = first_match(x.component_overrides, ov_key_is(target_local_id, component_type_id, field_path));
                let patch = OverrideV {
                    target_local_id: target_local_id,
                    component_type_id: component_type_id,
                    field_path: field_path,
                    value: value,
                    status: ComponentOverrideStatus::Active,
                };
                Ok((
                    with_instance(d, k, InstanceV { component_overrides: upsert_ov(x.component_overrides, patch), ..x }),
                    if 0 <= m < x.component_overrides.len() {
                        let old = x.component_overrides[m];
                        CommandV::UpsertOverride {
                            instance_id: instance_id,
                            target_local_id: old.target_local_id,
                            component_type_id: old.component_type_id,
                            field_path: old.field_path,
                            value: old.value,
                        }
                    } else {
                        CommandV::RevertOverride {
                            instance_id: instance_id,
                            target_local_id: target_local_id,
                            component_type_id: component_type_id,
                            field_path: field_path,
                        }
                    },
                ))
            },
            CommandV::RevertOverride { instance_id, target_local_id, component_type_id, field_path } => {
                let k = find_inst(d, instance_id);
                let x = d.instances[k];
                let m = first_match(x.component_overrides, ov_key_is(target_local_id, component_type_id, field_path));
                if 0 <= m < x.component_overrides.len() {
                    let old = x.component_overrides[m];
                    Ok((
                        with_instance(d, k, InstanceV { component_overrides: x.component_overrides.remove(m), ..x }),
                        CommandV::UpsertOverride {
                            instance_id: instance_id,
                            target_local_id: old.target_local_id,
                            component_type_id: old.component_type_id,
                            field_path: old.field_path,
                            value: old.value,
                        },
                    ))
                } else {
                    Ok((d, c))
                }
            },
        },
    }
}


/// Predicate "`ids[k]` repeats an earlier id".
pub open spec fn dup_pred(ids: Seq<Seq<char>>) -> spec_fn(int) -> bool {
    |k: int| is_dup_at(ids, k)
}

/// Predicate "the per-entity check fails for `ids[k]`".
pub open spec fn multi_fail_pred(d: DocV, ids: Seq<Seq<char>>, t: Seq<char>, path: Seq<char>) -> spec_fn(int) -> bool {
    |k: int| multi_entity_check(d, ids[k], t, path) is Err
}

/// `p` followed by the inverses of a successful run; errors pass through.
pub open spec fn prefixed(p: Seq<CommandV>, r: Result<(DocV, Seq<CommandV>), (int, ErrV)>) -> Result<(DocV, Seq<CommandV>), (int, ErrV)> {
    match r {
        Ok((d, s)) => Ok((d, p + s)),
        Err(e) => Err(e),
    }
}

// ---------------------------------------------------------------------------
// Execution
// ---------------------------------------------------------------------------

/// External state some commands need: the component types the schema registry knows.
#[derive(Debug)]
pub struct ProcessorContext {
    pub schema_types: Vec<String>,
}

impl ProcessorContext {
    /// The registered component types, as models.
    pub open spec fn types(&self) -> Seq<Seq<char>> {
        strs_view(self.schema_types@)
    }

    /// A context that knows no component type.
    pub fn empty() -> (r: ProcessorContext)
        ensures
            r.types() == Seq::<Seq<char>>::empty(),
    {
        let r = ProcessorContext { schema_types: Vec::new() };
        assert(r.types() =~= Seq::<Seq<char>>::empty());
        r
    }
}

/// Position of the entity with id `id`.
pub fn find_entity_index(doc: &SceneDocument, id: &str) -> (r: Option<usize>)
    ensures
        match r {
            Some(i) => find_ent(doc@, id@) == i && i < doc.entities.len(),
            None => find_ent(doc@, id@) == -1,
        },
{
    let mut i: usize = 0;
    while i < doc.entities.len()
        invariant
            i <= doc.entities.len(),
            forall|j: int| 0 <= j < i ==> !ent_id_is(id@)(#[trigger] doc@.entities[j]),
        decreases doc.entities.len() - i,
    {
        if str_equal(doc.entities[i].id.as_str(), id) {
            proof {
                lemma_first_match_at(doc@.entities, ent_id_is(id@), i as int);
            }
            return Some(i);
        }
        i += 1;
    }
    proof {
        lemma_first_match_none(doc@.entities, ent_id_is(id@));
    }
    None
}

/// The entity with id `id`.
pub fn find_entity<'a>(doc: &'a SceneDocument, id: &str) -> (r: Result<&'a Entity, CommandError>)
    ensures
        match r {
            Ok(e) => find_ent(doc@, id@) >= 0 && e@ == doc@.entities[find_ent(doc@, id@)],
            Err(err) => find_ent(doc@, id@) == -1 && err@ == ErrV::EntityNotFound(id@),
        },
{
    match find_entity_index(doc, id) {
        Some(i) => Ok(&doc.entities[i]),
        None => Err(CommandError::EntityNotFound(String::from_str(id))),
    }
}

/// Position of the instance with id `id`.
pub fn find_instance_index(doc: &SceneDocument, id: &str) -> (r: Option<usize>)
    ensures
        match r {
            Some(i) => find_inst(doc@, id@) == i && i < doc.instances.len(),
            None => find_inst(doc@, id@) == -1,
        },
{
    let mut i: usize = 0;
    while i < doc.instances.len()
        invariant
            i <= doc.instances.len(),
            forall|j: int| 0 <= j < i ==> !inst_id_is(id@)(#[trigger] doc@.instances[j]),
        decreases doc.instances.len() - i,
    {
        if str_equal(doc.instances[i].instance_id.as_str(), id) {
            proof {
                lemma_first_match_at(doc@.instances, inst_id_is(id@), i as int);
            }
            return Some(i);
        }
        i += 1;
    }
    proof {
        lemma_first_match_none(doc@.instances, inst_id_is(id@));
    }
    None
}

/// Position of the first component of type `t`.
pub fn find_component_index(cs: &Vec<ComponentInstance>, t: &str) -> (r: Option<usize>)
    ensures
        match r {
            Some(j) => first_match(comps_view(cs@), comp_type_is(t@)) == j && j < cs.len(),
            None => first_match(comps_view(cs@), comp_type_is(t@)) == -1,
        },
{
    let ghost cv = comps_view(cs@);
    let mut i: usize = 0;
    while i < cs.len()
        invariant
            cv == comps_view(cs@),
            i <= cs.len(),
            forall|j: int| 0 <= j < i ==> !comp_type_is(t@)(#[trigger] cv[j]),
        decreases cs.len() - i,
    {
        if str_equal(cs[i].type_id.as_str(), t) {
            proof {
                lemma_first_match_at(cv, comp_type_is(t@), i as int);
            }
            return Some(i);
        }
        i += 1;
    }
    proof {
        lemma_first_match_none(cv, comp_type_is(t@));
    }
    None
}

/// Element-wise equality of two lists of strings.
pub fn strings_equal(a: &Vec<String>, b: &Vec<String>) -> (r: bool)
    ensures
        r == (strs_view(a@) == strs_view(b@)),
{
    if a.len() != b.len() {
        proof {
            assert(strs_view(a@).len() != strs_view(b@).len());
        }
        return false;
    }
    let mut i: usize = 0;
    while i < a.len()
        invariant
            a.len() == b.len(),
            i <= a.len(),
            forall|k: int| 0 <= k < i ==> a@[k]@ == b@[k]@,
        decreases a.len() - i,
    {
        if a[i] != b[i] {
            proof {
                assert(strs_view(a@)[i as int] != strs_view(b@)[i as int]);
            }
            return false;
        }
        i += 1;
    }
    assert(strs_view(a@) =~= strs_view(b@));
    true
}

/// Position of the override addressing field `f` of component `c` of entity `t`.
pub fn find_override_index(os: &Vec<ComponentOverride>, t: &str, c: &str, f: &Vec<String>) -> (r: Option<usize>)
    ensures
        match r {
            Some(m) => first_match(ovs_view(os@), ov_key_is(t@, c@, strs_view(f@))) == m && m < os.len(),
            None => first_match(ovs_view(os@), ov_key_is(t@, c@, strs_view(f@))) == -1,
        },
{
    let ghost ov = ovs_view(os@);
    let ghost p = ov_key_is(t@, c@, strs_view(f@));
    let mut i: usize = 0;
    while i < os.len()
        invariant
            ov == ovs_view(os@),
            p == ov_key_is(t@, c@, strs_view(f@)),
            i <= os.len(),
            forall|j: int| 0 <= j < i ==> !p(#[trigger] ov[j]),
        decreases os.len() - i,
    {
        if str_equal(os[i].target_local_id.as_str(), t) && str_equal(os[i].component_type_id.as_str(), c)
            && strings_equal(&os[i].field_path, f) {
            proof {
                lemma_first_match_at(ov, p, i as int);
            }
            return Some(i);
        }
        i += 1;
    }
    proof {
        lemma_first_match_none(ov, p);
    }
    None
}

/// Whether reparenting `entity_id` under `proposed_parent` would create a cycle.
pub fn would_create_cycle_exec(doc: &SceneDocument, entity_id: &str, proposed_parent: &str) -> (r: bool)
    ensures
        r == would_create_cycle(doc@, entity_id@, proposed_parent@),
{
    if str_equal(entity_id, proposed_parent) {
        return true;
    }
    let ghost ents = doc@.entities;
    let mut cur = String::from_str(proposed_parent);
    let mut fuel: usize = doc.entities.len();
    loop
        invariant
            ents == doc@.entities,
            chain_hits(ents, proposed_parent@, entity_id@, ents.len()) == chain_hits(ents, cur@, entity_id@, fuel as nat),
        decreases fuel,
    {
        if str_equal(cur.as_str(), entity_id) {
            return true;
        }
        if fuel == 0 {
            return false;
        }
        match find_entity_index(doc, cur.as_str()) {
            None => {
                return false;
            },
            Some(i) => {
                match &doc.entities[i].parent {
                    Some(p) => {
                        cur = p.clone();
                        fuel = fuel - 1;
                    },
                    None => {
                        return false;
                    },
                }
            },
        }
    }
}

/// Whether `t` is a registered component type.
fn schema_knows(ctx: &ProcessorContext, t: &str) -> (r: bool)
    ensures
        r == ctx.types().contains(t@),
{
    let mut i: usize = 0;
    while i < ctx.schema_types.len()
        invariant
            i <= ctx.schema_types.len(),
            forall|k: int| 0 <= k < i ==> ctx.schema_types@[k]@ != t@,
        decreases ctx.schema_types.len() - i,
    {
        if str_equal(ctx.schema_types[i].as_str(), t) {
            proof {
                assert(ctx.types()[i as int] == t@);
            }
            return true;
        }
        i += 1;
    }
    proof {
        if ctx.types().contains(t@) {
            let k = choose|k: int| 0 <= k < ctx.types().len() && ctx.types()[k] == t@;
            assert(ctx.schema_types@[k]@ == t@);
        }
    }
    false
}

/// Checks of `SetComponentField` on one entity.
fn validate_set_field_exec(doc: &SceneDocument, eid: &String, t: &String, path: &String) -> (r: Result<(), CommandError>)
    ensures
        match r {
            Ok(_) => validate_set_field(doc@, eid@, t@, path@) is Ok,
            Err(e) => validate_set_field(doc@, eid@, t@, path@) == Err::<(), ErrV>(e@),
        },
{
    match find_entity_index(doc, eid.as_str()) {
        None => Err(CommandError::EntityNotFound(eid.clone())),
        Some(i) => {
            match find_component_index(&doc.entities[i].components, t.as_str()) {
                None => Err(CommandError::UnknownSchema(t.clone())),
                Some(j) => {
                    let parts = split_by_char(path.as_str(), '.');
                    match json_get_path_exec(&doc.entities[i].components[j].values, &parts, 0) {
                        None => Err(CommandError::FieldNotFound(path.clone())),
                        Some(_) => Ok(()),
                    }
                },
            }
        },
    }
}

/// The edit of a JSON value at a dotted field path: `Ok((updated, old))` when every step
/// of the path exists; an empty path or a missing step is `FieldNotFound(path)`.
pub open spec fn field_path_edit(v: JsonV, path: Seq<char>, new: JsonV) -> Result<(JsonV, JsonV), ErrV> {
    let parts = path_parts(path);
    if parts.len() == 0 || (parts.len() == 1 && parts[0].len() == 0) {
        Err(ErrV::FieldNotFound(path))
    } else {
        match json_set_path(v, parts, 0, new) {
            Ok(p) => Ok(p),
            Err(_) => Err(ErrV::FieldNotFound(path)),
        }
    }
}

/// Set the field at the dotted `path` of `value` to `new` and return the value it held.
/// On error `value` is unchanged.
pub fn set_field_path(value: &mut JsonValue, path: &str, new: JsonValue) -> (r: Result<JsonValue, CommandError>)
    ensures
        match r {
            Ok(prev) => field_path_edit(old(value)@, path@, new@) == Ok::<(JsonV, JsonV), ErrV>((final(value)@, prev@)),
            Err(e) => field_path_edit(old(value)@, path@, new@) == Err::<(JsonV, JsonV), ErrV>(e@)
                && final(value)@ == old(value)@,
        },
{
    let parts = split_by_char(path, '.');
    if parts.len() == 0 || (parts.len() == 1 && parts[0].unicode_len() == 0) {
        return Err(CommandError::FieldNotFound(to_owned_string(path)));
    }
    match json_set_path_exec(value, &parts, 0, new) {
        Err(_) => Err(CommandError::FieldNotFound(to_owned_string(path))),
        Ok((u, old)) => {
            *value = u;
            Ok(old)
        },
    }
}

/// The change of `SetComponentField`, once validated.
fn effect_set_field_exec(doc: &mut SceneDocument, eid: &String, t: &String, path: &String, value: &JsonValue) -> (r: Result<Command, CommandError>)
    ensures
        match r {
            Ok(inv) => effect_set_field(old(doc)@, eid@, t@, path@, value@) == Ok::<(DocV, CommandV), ErrV>((final(doc)@, inv@)),
            Err(e) => effect_set_field(old(doc)@, eid@, t@, path@, value@) == Err::<(DocV, CommandV), ErrV>(e@)
                && final(doc)@ == old(doc)@,
        },
{
    let i = match find_entity_index(doc, eid.as_str()) {
        None => {
            return Err(CommandError::EntityNotFound(eid.clone()));
        },
        Some(i) => i,
    };
    let j = match find_component_index(&doc.entities[i].components, t.as_str()) {
        None => {
            return Err(CommandError::UnknownSchema(t.clone()));
        },
        Some(j) => j,
    };
    let ghost d0 = doc@;
    let mut u = json_clone(&doc.entities[i].components[j].values);
    match set_field_path(&mut u, path.as_str(), json_clone(value)) {
        Err(e) => Err(e),
        Ok(old) => {
            let mut e = doc.entities.remove(i);
            let mut comp = e.components.remove(j);
            comp.values = u;
            e.components.insert(j, comp);
            doc.entities.insert(i, e);
            proof {
                let ev = d0.entities[i as int];
                assert(comps_view(doc.entities@[i as int].components@) =~= ev.components.update(
                    j as int,
                    ComponentV { values: u@, ..ev.components[j as int] },
                ));
                assert(ents_view(doc.entities@) =~= d0.entities.update(
                    i as int,
                    EntityV { components: ev.components.update(j as int, ComponentV { values: u@, ..ev.components[j as int] }), ..ev },
                ));
            }
            Ok(Command::SetComponentField { entity_id: eid.clone(), type_id: t.clone(), field_path: path.clone(), value: old })
        },
    }
}

/// `SetComponentField` as a whole: validation, then its change.
fn set_field_full(doc: &mut SceneDocument, eid: &String, t: &String, path: &String, value: &JsonValue) -> (r: Result<Command, CommandError>)
    ensures
        match r {
            Ok(inv) => spec_set_field(old(doc)@, eid@, t@, path@, value@) == Ok::<(DocV, CommandV), ErrV>((final(doc)@, inv@)),
            Err(e) => spec_set_field(old(doc)@, eid@, t@, path@, value@) == Err::<(DocV, CommandV), ErrV>(e@)
                && final(doc)@ == old(doc)@,
        },
{
    match validate_set_field_exec(doc, eid, t, path) {
        Err(e) => Err(e),
        Ok(_) => effect_set_field_exec(doc, eid, t, path, value),
    }
}

/// Per-entity check of `SetComponentFieldOnMultiple`.
fn multi_entity_check_exec(doc: &SceneDocument, id: &String, t: &String, path: &String) -> (r: Result<(), CommandError>)
    ensures
        match r {
            Ok(_) => multi_entity_check(doc@, id@, t@, path@) is Ok,
            Err(e) => multi_entity_check(doc@, id@, t@, path@) == Err::<(), ErrV>(e@),
        },
{
    match find_entity_index(doc, id.as_str()) {
        None => Err(CommandError::EntityNotFound(id.clone())),
        Some(i) => {
            match find_component_index(&doc.entities[i].components, t.as_str()) {
                None => Ok(()),
                Some(j) => {
                    let parts = split_by_char(path.as_str(), '.');
                    match json_get_path_exec(&doc.entities[i].components[j].values, &parts, 0) {
                        None => {
                            let mut m = concat3(path.as_str(), " (entity ", id.as_str());
                            m.append(")");
                            Err(CommandError::FieldNotFound(m))
                        },
                        Some(_) => Ok(()),
                    }
                },
            }
        },
    }
}

/// Checks of `SetComponentFieldOnMultiple`.
fn validate_multi_exec(doc: &SceneDocument, ids: &Vec<String>, t: &String, path: &String) -> (r: Result<(), CommandError>)
    ensures
        match r {
            Ok(_) => validate_multi(doc@, strs_view(ids@), t@, path@) is Ok,
            Err(e) => validate_multi(doc@, strs_view(ids@), t@, path@) == Err::<(), ErrV>(e@),
        },
{
    let ghost idv = strs_view(ids@);
    if ids.len() == 0 {
        return Err(CommandError::InvalidArgument(String::from_str("SetComponentFieldOnMultiple: empty entity_ids")));
    }
    let mut k: usize = 0;
    while k < ids.len()
        invariant
            idv == strs_view(ids@),
            k <= ids.len(),
            forall|x: int| 0 <= x < k ==> !#[trigger] dup_pred(idv)(x),
        decreases ids.len() - k,
    {
        let mut j: usize = 0;
        while j < k
            invariant
                idv == strs_view(ids@),
                forall|x: int| 0 <= x < k ==> !#[trigger] dup_pred(idv)(x),
                j <= k < ids.len(),
                forall|y: int| 0 <= y < j ==> idv[y] != idv[k as int],
            decreases k - j,
        {
            if ids[j] == ids[k] {
                proof {
                    assert(idv[j as int] == idv[k as int]);
                    assert(dup_pred(idv)(k as int));
                    lemma_first_index_at(ids.len() as int, dup_pred(idv), k as int);
                }
                return Err(CommandError::InvalidArgument(concat2(
                    "SetComponentFieldOnMultiple: duplicate entity_id ",
                    ids[k].as_str(),
                )));
            }
            assert(idv[j as int] != idv[k as int]);
            j += 1;
        }
        proof {
            assert(!dup_pred(idv)(k as int));
        }
        k += 1;
    }
    proof {
        lemma_first_index_none(ids.len() as int, dup_pred(idv));
    }
    let ghost fp = multi_fail_pred(doc@, idv, t@, path@);
    let mut k: usize = 0;
    while k < ids.len()
        invariant
            idv == strs_view(ids@),
            fp == multi_fail_pred(doc@, idv, t@, path@),
            first_index(ids.len() as int, dup_pred(idv)) == -1,
            ids.len() > 0,
            k <= ids.len(),
            forall|x: int| 0 <= x < k ==> !#[trigger] fp(x),
        decreases ids.len() - k,
    {
        match multi_entity_check_exec(doc, &ids[k], t, path) {
            Err(e) => {
                proof {
                    assert(idv[k as int] == ids@[k as int]@);
                    assert(fp(k as int));
                    lemma_first_index_at(ids.len() as int, fp, k as int);
                }
                return Err(e);
            },
            Ok(_) => {
                assert(idv[k as int] == ids@[k as int]@);
            },
        }
        k += 1;
    }
    proof {
        lemma_first_index_none(ids.len() as int, fp);
    }
    Ok(())
}

/// The view of a `Result<(), CommandError>`.
pub open spec fn unit_res_view(r: Result<(), CommandError>) -> Result<(), ErrV> {
    match r {
        Ok(_) => Ok(()),
        Err(e) => Err(e@),
    }
}

/// Validate `cmd` against `doc` without changing it.
pub fn validate(doc: &SceneDocument, cmd: &Command, ctx: &ProcessorContext) -> (r: Result<(), CommandError>)
    ensures
        unit_res_view(r) == spec_validate(doc@, cmd@, ctx.types()),
    decreases cmd, 0int,
{
    match cmd {
        Command::Noop => Ok(()),
        Command::CreateEntity { id, .. } => {
            match find_entity_index(doc, id.as_str()) {
                Some(_) => Err(CommandError::DuplicateId(id.clone())),
                None => Ok(()),
            }
        },
        Command::DeleteEntity { id } => {
            match find_entity_index(doc, id.as_str()) {
                None => Err(CommandError::EntityNotFound(id.clone())),
                Some(_) => Ok(()),
            }
        },
        Command::AddComponent { entity_id, type_id, .. } => {
            match find_entity_index(doc, entity_id.as_str()) {
                None => Err(CommandError::EntityNotFound(entity_id.clone())),
                Some(_) => if !schema_knows(ctx, type_id.as_str()) {
                    Err(CommandError::UnknownSchema(type_id.clone()))
                } else {
                    Ok(())
                },
            }
        },
        Command::RemoveComponent { entity_id, .. } => {
            match find_entity_index(doc, entity_id.as_str()) {
                None => Err(CommandError::EntityNotFound(entity_id.clone())),
                Some(_) => Ok(()),
            }
        },
        Command::SetComponentField { entity_id, type_id, field_path, .. } => {
            validate_set_field_exec(doc, entity_id, type_id, field_path)
        },
        Command::SetComponentFieldOnMultiple { entity_ids, type_id, field_path, .. } => {
            validate_multi_exec(doc, entity_ids, type_id, field_path)
        },
        Command::ReparentEntity { entity_id, new_parent, .. } => {
            match find_entity_index(doc, entity_id.as_str()) {
                None => Err(CommandError::EntityNotFound(entity_id.clone())),
                Some(_) => match new_parent {
                    None => Ok(()),
                    Some(p) => match find_entity_index(doc, p.as_str()) {
                        None => Err(CommandError::EntityNotFound(p.clone())),
                        Some(_) => if would_create_cycle_exec(doc, entity_id.as_str(), p.as_str()) {
                            Err(CommandError::WouldCreateCycle(entity_id.clone()))
                        } else {
                            Ok(())
                        },
                    },
                },
            }
        },
        Command::RenameEntity { entity_id, .. } => {
            match find_entity_index(doc, entity_id.as_str()) {
                None => Err(CommandError::EntityNotFound(entity_id.clone())),
                Some(_) => Ok(()),
            }
        },
        Command::Batch { commands, .. } => {
            let ghost cs = cmd@->Batch_commands;
            let mut temp = clone_document(doc);
            let ghost mut invs: Seq<CommandV> = Seq::empty();
            let mut i: usize = 0;
            while i < commands.len()
                invariant
                    (*cmd)->Batch_commands == *commands,
                    *cmd is Batch,
                    cmd@ is Batch,
                    cs == cmd@->Batch_commands,
                    cs.len() == commands@.len(),
                    forall|k: int| 0 <= k < cs.len() ==> cs[k] == (#[trigger] commands@[k])@,
                    i <= commands.len(),
                    apply_seq(doc@, cs, 0, ctx.types()) == prefixed(invs, apply_seq(temp@, cs, i as int, ctx.types())),
                decreases commands.len() - i,
            {
                proof {
                    assert(decreases_to!(*cmd => (*cmd)->Batch_commands));
                    assert(decreases_to!((*cmd)->Batch_commands => (*cmd)->Batch_commands@));
                    assert(decreases_to!(cmd => commands@[i as int]));
                }
                let ghost tprev = temp@;
                assert(cs[i as int] == commands@[i as int]@);
                match validate(&temp, &commands[i], ctx) {
                    Err(e) => {
                        proof {
                            lemma_seq_step_validate_err(tprev, cs, i as int, ctx.types(), e@);
                            lemma_batch_err(doc@, cmd@, ctx.types(), i as int, e@);
                        }
                        return Err(CommandError::BatchFailed { index: i, source: Box::new(e) });
                    },
                    Ok(_) => {},
                }
                match apply_with_context(&mut temp, &commands[i], ctx) {
                    Err(e) => {
                        proof {
                            assert(apply_seq(tprev, cs, i as int, ctx.types()) == Err::<(DocV, Seq<CommandV>), (int, ErrV)>((i as int, e@)));
                            lemma_batch_err(doc@, cmd@, ctx.types(), i as int, e@);
                        }
                        return Err(CommandError::BatchFailed { index: i, source: Box::new(e) });
                    },
                    Ok(inv) => {
                        proof {
                            let rest = apply_seq(temp@, cs, i + 1, ctx.types());
                            match rest {
                                Ok((d2, s)) => {
                                    assert(invs + (seq![inv@] + s) =~= invs.push(inv@) + s);
                                },
                                Err(_) => {},
                            }
                            invs = invs.push(inv@);
                        }
                    },
                }
                i += 1;
            }
            Ok(())
        },
        Command::PlaceInstance { instance_id, .. } => {
            match find_instance_index(doc, instance_id.as_str()) {
                Some(_) => Err(CommandError::DuplicateId(instance_id.clone())),
                None => Ok(()),
            }
        },
        Command::RemoveInstance { instance_id } => {
            match find_instance_index(doc, instance_id.as_str()) {
                None => Err(CommandError::InstanceNotFound(instance_id.clone())),
                Some(_) => Ok(()),
            }
        },
        Command::ReplaceInstanceAsset { instance_id, .. } => {
            match find_instance_index(doc, instance_id.as_str()) {
                None => Err(CommandError::InstanceNotFound(instance_id.clone())),
                Some(_) => Ok(()),
            }
        },
        Command::UpsertOverride { instance_id, .. } => {
            match find_instance_index(doc, instance_id.as_str()) {
                None => Err(CommandError::InstanceNotFound(instance_id.clone())),
                Some(_) => Ok(()),
            }
        },
        Command::RevertOverride { instance_id, .. } => {
            match find_instance_index(doc, instance_id.as_str()) {
                None => Err(CommandError::InstanceNotFound(instance_id.clone())),
                Some(_) => Ok(()),
            }
        },
    }
}


/// `r` is what applying `c` to `d0` yields, `d1` the document afterwards; on error the
/// document is unchanged.
pub open spec fn applied(d0: DocV, c: CommandV, types: Seq<Seq<char>>, r: Result<Command, CommandError>, d1: DocV) -> bool {
    match r {
        Ok(inv) => spec_apply(d0, c, types) == Ok::<(DocV, CommandV), ErrV>((d1, inv@)),
        Err(e) => spec_apply(d0, c, types) == Err::<(DocV, CommandV), ErrV>(e@) && d1 == d0,
    }
}

fn apply_create_entity(doc: &mut SceneDocument, cmd: &Command, ctx: &ProcessorContext) -> (r: Result<Command, CommandError>)
    requires
        spec_validate(old(doc)@, cmd@, ctx.types()) is Ok,
        cmd is CreateEntity,
    ensures
        applied(old(doc)@, cmd@, ctx.types(), r, final(doc)@),
{
    let ghost d0 = doc@;
    match cmd {
        Command::CreateEntity { id, name, components } => {
            doc.entities.push(
                Entity {
                    id: id.clone(),
                    local_id: id.clone(),
                    name: name.clone(),
                    parent: None,
                    components: clone_components(components),
                },
            );
            assert(ents_view(doc.entities@) =~= d0.entities.push(doc.entities@.last()@));
            Ok(Command::DeleteEntity { id: id.clone() })
        },
        _ => {
            proof {
                assert(false);
            }
            Ok(Command::Noop)
        },
    }
}

fn apply_delete_entity(doc: &mut SceneDocument, cmd: &Command, ctx: &ProcessorContext) -> (r: Result<Command, CommandError>)
    requires
        spec_validate(old(doc)@, cmd@, ctx.types()) is Ok,
        cmd is DeleteEntity,
    ensures
        applied(old(doc)@, cmd@, ctx.types(), r, final(doc)@),
{
    let ghost d0 = doc@;
    match cmd {
        Command::DeleteEntity { id } => {
            let pos = match find_entity_index(doc, id.as_str()) {
                None => {
                    return Err(CommandError::EntityNotFound(id.clone()));
                },
                Some(p) => p,
            };
            let removed = doc.entities.remove(pos);
            let ghost mid = ents_view(doc.entities@);
            assert(mid =~= d0.entities.remove(pos as int));
            let mut k: usize = 0;
            while k < doc.entities.len()
                invariant
                    mid.len() == doc.entities.len(),
                    k <= doc.entities.len(),
                    doc.version == old(doc).version,
                    doc.scene_id == old(doc).scene_id,
                    doc.name == old(doc).name,
                    doc.instances == old(doc).instances,
                    forall|x: int|
                        0 <= x < mid.len() ==> (#[trigger] ents_view(doc.entities@)[x]) == (if x < k {
                            orphan_of(mid[x], id@)
                        } else {
                            mid[x]
                        }),
                decreases doc.entities.len() - k,
            {
                let ghost prev = ents_view(doc.entities@);
                let hit = match &doc.entities[k].parent {
                    Some(p) => str_equal(p.as_str(), id.as_str()),
                    None => false,
                };
                assert(prev[k as int] == mid[k as int]);
                assert(hit == (prev[k as int].parent == Some(id@)));
                if hit {
                    let mut e = doc.entities.remove(k);
                    e.parent = None;
                    doc.entities.insert(k, e);
                    assert(ents_view(doc.entities@) =~= prev.update(k as int, orphan_of(mid[k as int], id@)));
                } else {
                    assert(orphan_of(mid[k as int], id@) == mid[k as int]);
                }
                k += 1;
            }
            assert(ents_view(doc.entities@) =~= d0.entities.remove(pos as int).map_values(|e: EntityV| orphan_of(e, id@)));
            Ok(Command::CreateEntity { id: removed.id, name: removed.name, components: removed.components })
        },
        _ => {
            proof {
                assert(false);
            }
            Ok(Command::Noop)
        },
    }
}

fn apply_component_change(doc: &mut SceneDocument, cmd: &Command, ctx: &ProcessorContext) -> (r: Result<Command, CommandError>)
    requires
        spec_validate(old(doc)@, cmd@, ctx.types()) is Ok,
        cmd is AddComponent || cmd is RemoveComponent || cmd is SetComponentField,
    ensures
        applied(old(doc)@, cmd@, ctx.types(), r, final(doc)@),
{
    let ghost d0 = doc@;
    match cmd {
        Command::AddComponent { entity_id, type_id, values } => {
            let i = match find_entity_index(doc, entity_id.as_str()) {
                None => {
                    return Err(CommandError::EntityNotFound(entity_id.clone()));
                },
                Some(i) => i,
            };
            let mut e = doc.entities.remove(i);
            e.components.push(ComponentInstance { type_id: type_id.clone(), values: json_clone(values) });
            doc.entities.insert(i, e);
            proof {
                let ev = d0.entities[i as int];
                assert(comps_view(doc.entities@[i as int].components@) =~= ev.components.push(
                    ComponentV { type_id: type_id@, values: values@ },
                ));
                assert(ents_view(doc.entities@) =~= d0.entities.update(i as int, doc.entities@[i as int]@));
            }
            Ok(Command::RemoveComponent { entity_id: entity_id.clone(), type_id: type_id.clone() })
        },
        Command::RemoveComponent { entity_id, type_id } => {
            let i = match find_entity_index(doc, entity_id.as_str()) {
                None => {
                    return Err(CommandError::EntityNotFound(entity_id.clone()));
                },
                Some(i) => i,
            };
            match find_component_index(&doc.entities[i].components, type_id.as_str()) {
                Some(j) => {
                    let mut e = doc.entities.remove(i);
                    let removed = e.components.remove(j);
                    doc.entities.insert(i, e);
                    proof {
                        let ev = d0.entities[i as int];
                        assert(comps_view(doc.entities@[i as int].components@) =~= ev.components.remove(j as int));
                        assert(ents_view(doc.entities@) =~= d0.entities.update(i as int, doc.entities@[i as int]@));
                    }
                    Ok(Command::AddComponent { entity_id: entity_id.clone(), type_id: removed.type_id, values: removed.values })
                },
                None => Ok(Command::RemoveComponent { entity_id: entity_id.clone(), type_id: type_id.clone() }),
            }
        },
        Command::SetComponentField { entity_id, type_id, field_path, value } => {
            effect_set_field_exec(doc, entity_id, type_id, field_path, value)
        },
        _ => {
            proof {
                assert(false);
            }
            Ok(Command::Noop)
        },
    }
}

fn apply_multi(doc: &mut SceneDocument, cmd: &Command, ctx: &ProcessorContext) -> (r: Result<Command, CommandError>)
    requires
        spec_validate(old(doc)@, cmd@, ctx.types()) is Ok,
        cmd is SetComponentFieldOnMultiple,
    ensures
        applied(old(doc)@, cmd@, ctx.types(), r, final(doc)@),
{
    let ghost d0 = doc@;
    match cmd {
        Command::SetComponentFieldOnMultiple { entity_ids, type_id, field_path, value } => {
            let ghost idv = strs_view(entity_ids@);
            let snapshot = clone_document(doc);
            let mut k: usize = 0;
            while k < entity_ids.len()
                invariant
                    idv == strs_view(entity_ids@),
                    cmd@ == (CommandV::SetComponentFieldOnMultiple { entity_ids: idv, type_id: type_id@, field_path: field_path@, value: value@ }),
                    d0 == old(doc)@,
                    spec_validate(d0, cmd@, ctx.types()) is Ok,
                    snapshot@ == d0,
                    k <= entity_ids.len(),
                    set_field_fold(d0, idv, 0, type_id@, field_path@, value@) == set_field_fold(
                        doc@,
                        idv,
                        k as int,
                        type_id@,
                        field_path@,
                        value@,
                    ),
                decreases entity_ids.len() - k,
            {
                assert(idv[k as int] == entity_ids@[k as int]@);
                match set_field_full(doc, &entity_ids[k], type_id, field_path, value) {
                    Err(e) => {
                        assert(set_field_fold(d0, idv, 0, type_id@, field_path@, value@) == Err::<DocV, (int, ErrV)>((k as int, e@)));
                        proof {
                            lemma_multi_err(d0, cmd@, ctx.types(), k as int, e@);
                        }
                        *doc = snapshot;
                        let ghost ev = e@;
                        let er = CommandError::BatchFailed { index: k, source: Box::new(e) };
                        assert(er@ == ErrV::BatchFailed { index: k as int, source: Box::new(ev) });
                        return Err(er);
                    },
                    Ok(_) => {},
                }
                k += 1;
            }
            let inv = Command::SetComponentFieldOnMultiple {
                entity_ids: clone_strings(entity_ids),
                type_id: type_id.clone(),
                field_path: field_path.clone(),
                value: json_clone(value),
            };
            Ok(inv)
        },
        _ => {
            proof {
                assert(false);
            }
            Ok(Command::Noop)
        },
    }
}

fn apply_entity_attr(doc: &mut SceneDocument, cmd: &Command, ctx: &ProcessorContext) -> (r: Result<Command, CommandError>)
    requires
        spec_validate(old(doc)@, cmd@, ctx.types()) is Ok,
        cmd is ReparentEntity || cmd is RenameEntity,
    ensures
        applied(old(doc)@, cmd@, ctx.types(), r, final(doc)@),
{
    let ghost d0 = doc@;
    match cmd {
        Command::ReparentEntity { entity_id, new_parent, .. } => {
            let i = match find_entity_index(doc, entity_id.as_str()) {
                None => {
                    return Err(CommandError::EntityNotFound(entity_id.clone()));
                },
                Some(i) => i,
            };
            let mut e = doc.entities.remove(i);
            let actual_old = clone_opt_string(&e.parent);
            e.parent = clone_opt_string(new_parent);
            doc.entities.insert(i, e);
            assert(ents_view(doc.entities@) =~= d0.entities.update(i as int, doc.entities@[i as int]@));
            Ok(Command::ReparentEntity {
                entity_id: entity_id.clone(),
                old_parent: clone_opt_string(&actual_old),
                new_parent: actual_old,
            })
        },
        Command::RenameEntity { entity_id, new_name, .. } => {
            let i = match find_entity_index(doc, entity_id.as_str()) {
                None => {
                    return Err(CommandError::EntityNotFound(entity_id.clone()));
                },
                Some(i) => i,
            };
            let mut e = doc.entities.remove(i);
            let actual_old = e.name.clone();
            e.name = new_name.clone();
            doc.entities.insert(i, e);
            assert(ents_view(doc.entities@) =~= d0.entities.update(i as int, doc.entities@[i as int]@));
            Ok(Command::RenameEntity { entity_id: entity_id.clone(), old_name: Some(actual_old.clone()), new_name: actual_old })
        },
        _ => {
            proof {
                assert(false);
            }
            Ok(Command::Noop)
        },
    }
}

/// The commands of a batch reversed, as undo needs them.
fn reverse_commands(v: Vec<Command>) -> (r: Vec<Command>)
    ensures
        cmds_view(r@) == cmds_view(v@).reverse(),
{
    let ghost all = cmds_view(v@);
    let mut v = v;
    let mut rev: Vec<Command> = Vec::new();
    while v.len() > 0
        invariant
            cmds_view(v@) == all.subrange(0, v@.len() as int),
            v@.len() <= all.len(),
            cmds_view(rev@) == all.reverse().subrange(0, (all.len() - v@.len()) as int),
        decreases v.len(),
    {
        let ghost n = v@.len();
        let ghost vold = v@;
        let ghost rold = rev@;
        let c = v.pop().unwrap();
        assert(cmds_view(vold)[n - 1] == all[n - 1]);
        let ghost cv = c@;
        rev.push(c);
        assert(cmds_view(rev@) =~= cmds_view(rold).push(cv));
        proof {
            assert(cmds_view(v@) =~= all.subrange(0, v@.len() as int));
            assert(c@ == all[n - 1]);
            assert(cmds_view(rev@) =~= all.reverse().subrange(0, (all.len() - v@.len()) as int));
        }
    }
    assert(cmds_view(rev@) =~= all.reverse());
    rev
}

fn apply_batch(doc: &mut SceneDocument, cmd: &Command, ctx: &ProcessorContext) -> (r: Result<Command, CommandError>)
    requires
        spec_validate(old(doc)@, cmd@, ctx.types()) is Ok,
        cmd is Batch,
    ensures
        applied(old(doc)@, cmd@, ctx.types(), r, final(doc)@),
    decreases cmd, 0int,
{
    let ghost d0 = doc@;
    match cmd {
        Command::Batch { commands, .. } => {
            let ghost cs = cmd@->Batch_commands;
            let snapshot = clone_document(doc);
            let mut inverses: Vec<Command> = Vec::new();
            let mut i: usize = 0;
            while i < commands.len()
                invariant
                    (*cmd)->Batch_commands == *commands,
                    *cmd is Batch,
                    cmd@ is Batch,
                    cs == cmd@->Batch_commands,
                    cs.len() == commands@.len(),
                    forall|k: int| 0 <= k < cs.len() ==> cs[k] == (#[trigger] commands@[k])@,
                    snapshot@ == d0,
                    d0 == old(doc)@,
                    i <= commands.len(),
                    apply_seq(d0, cs, 0, ctx.types()) == prefixed(cmds_view(inverses@), apply_seq(doc@, cs, i as int, ctx.types())),
                decreases commands.len() - i,
            {
                proof {
                    assert(decreases_to!(*cmd => (*cmd)->Batch_commands));
                    assert(decreases_to!((*cmd)->Batch_commands => (*cmd)->Batch_commands@));
                    assert(decreases_to!(cmd => commands@[i as int]));
                }
                let ghost before = cmds_view(inverses@);
                let ghost dprev = doc@;
                match apply_with_context(doc, &commands[i], ctx) {
                    Err(e) => {
                        assert(apply_seq(dprev, cs, i as int, ctx.types()) == Err::<(DocV, Seq<CommandV>), (int, ErrV)>((i as int, e@)));
                        assert(apply_seq(d0, cs, 0, ctx.types()) == Err::<(DocV, Seq<CommandV>), (int, ErrV)>((i as int, e@)));
                        proof {
                            lemma_batch_err(d0, cmd@, ctx.types(), i as int, e@);
                        }
                        *doc = snapshot;
                        return Err(CommandError::BatchFailed { index: i, source: Box::new(e) });
                    },
                    Ok(inv) => {
                        let ghost iv = inv@;
                        inverses.push(inv);
                        proof {
                            assert(cmds_view(inverses@) =~= before.push(iv));
                            let rest = apply_seq(doc@, cs, i + 1, ctx.types());
                            match rest {
                                Ok((d2, s)) => {
                                    assert(before + (seq![iv] + s) =~= before.push(iv) + s);
                                },
                                Err(_) => {},
                            }
                        }
                    },
                }
                i += 1;
            }
            let ghost all = cmds_view(inverses@);
            let rev = reverse_commands(inverses);
            let r = Command::Batch { label: String::from_str("inverse"), commands: rev };
            proof {
                assert(r@->Batch_commands =~= all.reverse());
            }
            Ok(r)
        },
        _ => {
            proof {
                assert(false);
            }
            Ok(Command::Noop)
        },
    }
}

/// Where a new instance with id `id` goes so that instances stay in order of id.
fn instance_insert_position(insts: &Vec<SceneInstance>, id: &str) -> (r: usize)
    ensures
        r as int == inst_insert_pos(insts_view(insts@), id@),
        r <= insts.len(),
{
    let ghost iv = insts_view(insts@);
    let mut i: usize = 0;
    while i < insts.len()
        invariant
            i <= insts.len(),
            iv == insts_view(insts@),
            forall|j: int| 0 <= j < i ==> !inst_not_below(id@)(#[trigger] iv[j]),
        decreases insts.len() - i,
    {
        assert(iv[i as int].instance_id == insts@[i as int].instance_id@);
        if !crate::logic_state::str_lt(insts[i].instance_id.as_str(), id) {
            proof {
                lemma_first_match_at(iv, inst_not_below(id@), i as int);
            }
            return i;
        }
        i += 1;
    }
    proof {
        lemma_first_match_none(iv, inst_not_below(id@));
    }
    i
}

fn apply_instance_change(doc: &mut SceneDocument, cmd: &Command, ctx: &ProcessorContext) -> (r: Result<Command, CommandError>)
    requires
        spec_validate(old(doc)@, cmd@, ctx.types()) is Ok,
        cmd is PlaceInstance || cmd is RemoveInstance || cmd is ReplaceInstanceAsset,
    ensures
        applied(old(doc)@, cmd@, ctx.types(), r, final(doc)@),
{
    let ghost d0 = doc@;
    match cmd {
        Command::PlaceInstance {
            instance_id,
            asset_ref,
            asset_version,
            id_map,
            instance_components,
            component_overrides,
            orphaned_component_overrides,
        } => {
            let pos = instance_insert_position(&doc.instances, instance_id.as_str());
            let x = SceneInstance {
                instance_id: instance_id.clone(),
                asset_ref: asset_ref.clone(),
                asset_version_seen: *asset_version,
                id_map: clone_id_map(id_map),
                instance_components: clone_components(instance_components),
                component_overrides: clone_overrides(component_overrides),
                orphaned_component_overrides: clone_overrides(orphaned_component_overrides),
            };
            let ghost xv = x@;
            doc.instances.insert(pos, x);
            assert(insts_view(doc.instances@) =~= d0.instances.insert(pos as int, xv));
            Ok(Command::RemoveInstance { instance_id: instance_id.clone() })
        },
        Command::RemoveInstance { instance_id } => {
            let k = match find_instance_index(doc, instance_id.as_str()) {
                None => {
                    return Err(CommandError::InstanceNotFound(instance_id.clone()));
                },
                Some(k) => k,
            };
            let x = doc.instances.remove(k);
            assert(insts_view(doc.instances@) =~= d0.instances.remove(k as int));
            Ok(Command::PlaceInstance {
                instance_id: x.instance_id,
                asset_ref: x.asset_ref,
                asset_version: x.asset_version_seen,
                id_map: x.id_map,
                instance_components: x.instance_components,
                component_overrides: x.component_overrides,
                orphaned_component_overrides: x.orphaned_component_overrides,
            })
        },
        Command::ReplaceInstanceAsset { instance_id, new_asset_ref, new_asset_version, .. } => {
            let k = match find_instance_index(doc, instance_id.as_str()) {
                None => {
                    return Err(CommandError::InstanceNotFound(instance_id.clone()));
                },
                Some(k) => k,
            };
            let old_instance = clone_instance(&doc.instances[k]);
            let mut x = doc.instances.remove(k);
            x.asset_ref = new_asset_ref.clone();
            x.asset_version_seen = *new_asset_version;
            doc.instances.insert(k, x);
            assert(insts_view(doc.instances@) =~= d0.instances.update(k as int, doc.instances@[k as int]@));
            Ok(Command::ReplaceInstanceAsset {
                instance_id: instance_id.clone(),
                new_asset_ref: old_instance.asset_ref.clone(),
                new_asset_version: old_instance.asset_version_seen,
                captured_old: Some(old_instance),
            })
        },
        _ => {
            proof {
                assert(false);
            }
            Ok(Command::Noop)
        },
    }
}

fn apply_override_change(doc: &mut SceneDocument, cmd: &Command, ctx: &ProcessorContext) -> (r: Result<Command, CommandError>)
    requires
        spec_validate(old(doc)@, cmd@, ctx.types()) is Ok,
        cmd is UpsertOverride || cmd is RevertOverride,
    ensures
        applied(old(doc)@, cmd@, ctx.types(), r, final(doc)@),
{
    let ghost d0 = doc@;
    match cmd {
        Command::UpsertOverride { instance_id, target_local_id, component_type_id, field_path, value } => {
            let k = match find_instance_index(doc, instance_id.as_str()) {
                None => {
                    return Err(CommandError::InstanceNotFound(instance_id.clone()));
                },
                Some(k) => k,
            };
            let mut x = doc.instances.remove(k);
            let m = find_override_index(&x.component_overrides, target_local_id.as_str(), component_type_id.as_str(), field_path);
            let patch = ComponentOverride {
                target_local_id: target_local_id.clone(),
                component_type_id: component_type_id.clone(),
                field_path: clone_strings(field_path),
                value: json_clone(value),
                status: ComponentOverrideStatus::Active,
            };
            let ghost ov0 = ovs_view(x.component_overrides@);
            let inv = match m {
                Some(mi) => {
                    let old = clone_override(&x.component_overrides[mi]);
                    x.component_overrides.set(mi, patch);
                    assert(ovs_view(x.component_overrides@) =~= ov0.update(mi as int, x.component_overrides@[mi as int]@));
                    Command::UpsertOverride {
                        instance_id: instance_id.clone(),
                        target_local_id: old.target_local_id,
                        component_type_id: old.component_type_id,
                        field_path: old.field_path,
                        value: old.value,
                    }
                },
                None => {
                    x.component_overrides.push(patch);
                    assert(ovs_view(x.component_overrides@) =~= ov0.push(x.component_overrides@.last()@));
                    Command::RevertOverride {
                        instance_id: instance_id.clone(),
                        target_local_id: target_local_id.clone(),
                        component_type_id: component_type_id.clone(),
                        field_path: clone_strings(field_path),
                    }
                },
            };
            doc.instances.insert(k, x);
            assert(insts_view(doc.instances@) =~= d0.instances.update(k as int, doc.instances@[k as int]@));
            Ok(inv)
        },
        Command::RevertOverride { instance_id, target_local_id, component_type_id, field_path } => {
            let k = match find_instance_index(doc, instance_id.as_str()) {
                None => {
                    return Err(CommandError::InstanceNotFound(instance_id.clone()));
                },
                Some(k) => k,
            };
            match find_override_index(&doc.instances[k].component_overrides, target_local_id.as_str(), component_type_id.as_str(), field_path) {
                Some(mi) => {
                    let mut x = doc.instances.remove(k);
                    let ghost ov0 = ovs_view(x.component_overrides@);
                    let removed = x.component_overrides.remove(mi);
                    assert(ovs_view(x.component_overrides@) =~= ov0.remove(mi as int));
                    doc.instances.insert(k, x);
                    assert(insts_view(doc.instances@) =~= d0.instances.update(k as int, doc.instances@[k as int]@));
                    Ok(Command::UpsertOverride {
                        instance_id: instance_id.clone(),
                        target_local_id: removed.target_local_id,
                        component_type_id: removed.component_type_id,
                        field_path: removed.field_path,
                        value: removed.value,
                    })
                },
                None => Ok(Command::RevertOverride {
                    instance_id: instance_id.clone(),
                    target_local_id: target_local_id.clone(),
                    component_type_id: component_type_id.clone(),
                    field_path: clone_strings(field_path),
                }),
            }
        },
        _ => {
            proof {
                assert(false);
            }
            Ok(Command::Noop)
        },
    }
}

/// Apply `cmd` to `doc` and return the command that undoes it. The command is validated
/// first; on any error the document is left as it was. `ctx` supplies the registered
/// component types, which `AddComponent` is checked against.
pub fn apply_with_context(doc: &mut SceneDocument, cmd: &Command, ctx: &ProcessorContext) -> (r: Result<Command, CommandError>)
    ensures
        applied(old(doc)@, cmd@, ctx.types(), r, final(doc)@),
    decreases cmd, 1int,
{
    match validate(doc, cmd, ctx) {
        Err(e) => {
            return Err(e);
        },
        Ok(_) => {},
    }
    match cmd {
        Command::Noop => Ok(Command::Noop),
        Command::CreateEntity { .. } => apply_create_entity(doc, cmd, ctx),
        Command::DeleteEntity { .. } => apply_delete_entity(doc, cmd, ctx),
        Command::AddComponent { .. } => apply_component_change(doc, cmd, ctx),
        Command::RemoveComponent { .. } => apply_component_change(doc, cmd, ctx),
        Command::SetComponentField { .. } => apply_component_change(doc, cmd, ctx),
        Command::SetComponentFieldOnMultiple { .. } => apply_multi(doc, cmd, ctx),
        Command::ReparentEntity { .. } => apply_entity_attr(doc, cmd, ctx),
        Command::RenameEntity { .. } => apply_entity_attr(doc, cmd, ctx),
        Command::Batch { .. } => apply_batch(doc, cmd, ctx),
        Command::PlaceInstance { .. } => apply_instance_change(doc, cmd, ctx),
        Command::RemoveInstance { .. } => apply_instance_change(doc, cmd, ctx),
        Command::ReplaceInstanceAsset { .. } => apply_instance_change(doc, cmd, ctx),
        Command::UpsertOverride { .. } => apply_override_change(doc, cmd, ctx),
        Command::RevertOverride { .. } => apply_override_change(doc, cmd, ctx),
    }
}


proof fn lemma_multi_err(d: DocV, c: CommandV, types: Seq<Seq<char>>, k: int, e: ErrV)
    requires
        c is SetComponentFieldOnMultiple,
        spec_validate(d, c, types) is Ok,
        set_field_fold(d, c->SetComponentFieldOnMultiple_entity_ids, 0, c->SetComponentFieldOnMultiple_type_id,
            c->SetComponentFieldOnMultiple_field_path, c->SetComponentFieldOnMultiple_value) == Err::<DocV, (int, ErrV)>((k, e)),
    ensures
        spec_apply(d, c, types) == Err::<(DocV, CommandV), ErrV>(ErrV::BatchFailed { index: k, source: Box::new(e) }),
{
}

proof fn lemma_batch_err(d: DocV, c: CommandV, types: Seq<Seq<char>>, i: int, e: ErrV)
    requires
        c is Batch,
        apply_seq(d, c->Batch_commands, 0, types) == Err::<(DocV, Seq<CommandV>), (int, ErrV)>((i, e)),
    ensures
        spec_validate(d, c, types) == Err::<(), ErrV>(ErrV::BatchFailed { index: i, source: Box::new(e) }),
        spec_apply(d, c, types) == Err::<(DocV, CommandV), ErrV>(ErrV::BatchFailed { index: i, source: Box::new(e) }),
{
}


proof fn lemma_seq_step_validate_err(d: DocV, cs: Seq<CommandV>, i: int, types: Seq<Seq<char>>, e: ErrV)
    requires
        0 <= i < cs.len(),
        spec_validate(d, cs[i], types) == Err::<(), ErrV>(e),
    ensures
        apply_seq(d, cs, i, types) == Err::<(DocV, Seq<CommandV>), (int, ErrV)>((i, e)),
{
    assert(spec_apply(d, cs[i], types) == Err::<(DocV, CommandV), ErrV>(e));
}


// ---------------------------------------------------------------------------
// Laws: undoing a command restores the document
// ---------------------------------------------------------------------------

/// Applying the inverse that a successful `c` returned, to the document `c` produced,
/// gives back the original document.
pub open spec fn undo_restores(d: DocV, c: CommandV, types: Seq<Seq<char>>) -> bool {
    &&& spec_apply(d, c, types) is Ok
    &&& {
        let (d1, inv) = spec_apply(d, c, types)->Ok_0;
        &&& spec_apply(d1, inv, types) is Ok
        &&& spec_apply(d1, inv, types)->Ok_0.0 == d
    }
}

/// Undoing a rename restores the document.
pub proof fn law_rename_undo(d: DocV, entity_id: Seq<char>, old_name: Option<Seq<char>>, new_name: Seq<char>, types: Seq<Seq<char>>)
    requires
        spec_apply(d, CommandV::RenameEntity { entity_id, old_name, new_name }, types) is Ok,
    ensures
        undo_restores(d, CommandV::RenameEntity { entity_id, old_name, new_name }, types),
{
    let i = find_ent(d, entity_id);
    lemma_first_match(d.entities, ent_id_is(entity_id));
    let e = d.entities[i];
    let d1 = with_entity(d, i, EntityV { name: new_name, ..e });
    lemma_first_match_update(d.entities, ent_id_is(entity_id), i, EntityV { name: new_name, ..e });
    assert(find_ent(d1, entity_id) == i);
    let d2 = with_entity(d1, i, EntityV { name: e.name, ..d1.entities[i] });
    assert(d2.entities =~= d.entities);
}

/// Undoing the creation of an entity restores the document, when no entity of the
/// document names the new id as its parent.
pub proof fn law_create_undo(d: DocV, id: Seq<char>, name: Seq<char>, components: Seq<ComponentV>, types: Seq<Seq<char>>)
    requires
        spec_apply(d, CommandV::CreateEntity { id, name, components }, types) is Ok,
        forall|k: int| 0 <= k < d.entities.len() ==> (#[trigger] d.entities[k]).parent != Some(id),
    ensures
        undo_restores(d, CommandV::CreateEntity { id, name, components }, types),
{
    let x = EntityV { id: id, local_id: id, name: name, parent: None, components: components };
    let d1 = DocV { entities: d.entities.push(x), ..d };
    lemma_first_match(d.entities, ent_id_is(id));
    lemma_first_match_push(d.entities, ent_id_is(id), x);
    assert(find_ent(d1, id) == d.entities.len());
    assert(d1.entities.remove(d.entities.len() as int) =~= d.entities);
    assert(d.entities.map_values(|e: EntityV| orphan_of(e, id)) =~= d.entities);
}

/// Undoing a field edit restores the document.
pub proof fn law_set_field_undo(d: DocV, entity_id: Seq<char>, type_id: Seq<char>, field_path: Seq<char>, value: JsonV, types: Seq<Seq<char>>)
    requires
        spec_apply(d, CommandV::SetComponentField { entity_id, type_id, field_path, value }, types) is Ok,
    ensures
        undo_restores(d, CommandV::SetComponentField { entity_id, type_id, field_path, value }, types),
{
    let i = find_ent(d, entity_id);
    lemma_first_match(d.entities, ent_id_is(entity_id));
    let e = d.entities[i];
    let j = first_match(e.components, comp_type_is(type_id));
    lemma_first_match(e.components, comp_type_is(type_id));
    let parts = path_parts(field_path);
    let (u, old) = json_set_path(e.components[j].values, parts, 0, value)->Ok_0;
    lemma_set_then_get(e.components[j].values, parts, 0, value);
    lemma_set_set_restores(e.components[j].values, parts, 0, value);
    let c1 = ComponentV { values: u, ..e.components[j] };
    let e1 = EntityV { components: e.components.update(j, c1), ..e };
    let d1 = with_entity(d, i, e1);
    lemma_first_match_update(d.entities, ent_id_is(entity_id), i, e1);
    lemma_first_match_update(e.components, comp_type_is(type_id), j, c1);
    assert(find_ent(d1, entity_id) == i);
    let c2 = ComponentV { values: e.components[j].values, ..c1 };
    assert(e1.components.update(j, c2) =~= e.components);
    let e2 = EntityV { components: e1.components.update(j, c2), ..e1 };
    assert(d1.entities.update(i, e2) =~= d.entities);
}

/// Undoing the addition of a component restores the document, when the entity had no
/// component of that type before.
pub proof fn law_add_component_undo(d: DocV, entity_id: Seq<char>, type_id: Seq<char>, values: JsonV, types: Seq<Seq<char>>)
    requires
        spec_apply(d, CommandV::AddComponent { entity_id, type_id, values }, types) is Ok,
        first_match(d.entities[find_ent(d, entity_id)].components, comp_type_is(type_id)) == -1,
    ensures
        undo_restores(d, CommandV::AddComponent { entity_id, type_id, values }, types),
{
    let i = find_ent(d, entity_id);
    lemma_first_match(d.entities, ent_id_is(entity_id));
    let e = d.entities[i];
    let x = ComponentV { type_id: type_id, values: values };
    let e1 = EntityV { components: e.components.push(x), ..e };
    let d1 = with_entity(d, i, e1);
    lemma_first_match_update(d.entities, ent_id_is(entity_id), i, e1);
    lemma_first_match_push(e.components, comp_type_is(type_id), x);
    assert(find_ent(d1, entity_id) == i);
    assert(e1.components.remove(e.components.len() as int) =~= e.components);
    assert(d1.entities.update(i, EntityV { components: e1.components.remove(e.components.len() as int), ..e1 }) =~= d.entities);
}

/// Undoing the placement of a scene instance restores the document.
pub proof fn law_place_instance_undo(
    d: DocV,
    instance_id: Seq<char>,
    asset_ref: Seq<char>,
    asset_version: u32,
    id_map: Seq<(Seq<char>, Seq<char>)>,
    instance_components: Seq<ComponentV>,
    component_overrides: Seq<OverrideV>,
    orphaned_component_overrides: Seq<OverrideV>,
    types: Seq<Seq<char>>,
)
    requires
        spec_apply(
            d,
            CommandV::PlaceInstance {
                instance_id,
                asset_ref,
                asset_version,
                id_map,
                instance_components,
                component_overrides,
                orphaned_component_overrides,
            },
            types,
        ) is Ok,
    ensures
        undo_restores(
            d,
            CommandV::PlaceInstance {
                instance_id,
                asset_ref,
                asset_version,
                id_map,
                instance_components,
                component_overrides,
                orphaned_component_overrides,
            },
            types,
        ),
{
    let x = InstanceV {
        instance_id: instance_id,
        asset_ref: asset_ref,
        asset_version_seen: asset_version,
        id_map: id_map,
        instance_components: instance_components,
        component_overrides: component_overrides,
        orphaned_component_overrides: orphaned_component_overrides,
    };
    lemma_first_match(d.instances, inst_id_is(instance_id));
    lemma_first_match(d.instances, inst_not_below(instance_id));
    let pos = inst_insert_pos(d.instances, instance_id);
    let s2 = d.instances.insert(pos, x);
    assert(is_first_match(s2, inst_id_is(instance_id), pos)) by {
        assert forall|j: int| 0 <= j < pos implies !inst_id_is(instance_id)(#[trigger] s2[j]) by {
            assert(s2[j] == d.instances[j]);
        }
    }
    lemma_first_match_at(s2, inst_id_is(instance_id), pos);
    assert(s2.remove(pos) =~= d.instances);
}

/// Changing only the parent of the first entity with id `e` does not change any walk up
/// the parent links that looks for `e`.
proof fn lemma_chain_hits_after_reparent(ents: Seq<EntityV>, i: int, np: Option<Seq<char>>, cur: Seq<char>, e: Seq<char>, fuel: nat)
    requires
        0 <= i < ents.len(),
        ents[i].id == e,
    ensures
        chain_hits(ents.update(i, EntityV { parent: np, ..ents[i] }), cur, e, fuel) == chain_hits(ents, cur, e, fuel),
    decreases fuel,
{
    let ents1 = ents.update(i, EntityV { parent: np, ..ents[i] });
    if cur != e && fuel > 0 {
        lemma_first_match_update(ents, ent_id_is(cur), i, EntityV { parent: np, ..ents[i] });
        let k = first_match(ents, ent_id_is(cur));
        lemma_first_match(ents, ent_id_is(cur));
        if 0 <= k < ents.len() {
            assert(k != i);
            assert(ents1[k] == ents[k]);
            match ents[k].parent {
                Some(p) => lemma_chain_hits_after_reparent(ents, i, np, p, e, (fuel - 1) as nat),
                None => {},
            }
        }
    }
}

/// Undoing a reparent restores the document, when moving the entity back under its old
/// parent is itself allowed: the old parent exists and does not lie below the entity.
pub proof fn law_reparent_undo(d: DocV, entity_id: Seq<char>, old_parent: Option<Seq<char>>, new_parent: Option<Seq<char>>, types: Seq<Seq<char>>)
    requires
        spec_apply(d, CommandV::ReparentEntity { entity_id, old_parent, new_parent }, types) is Ok,
        match d.entities[find_ent(d, entity_id)].parent {
            Some(p) => find_ent(d, p) >= 0 && !would_create_cycle(d, entity_id, p),
            None => true,
        },
    ensures
        undo_restores(d, CommandV::ReparentEntity { entity_id, old_parent, new_parent }, types),
{
    let i = find_ent(d, entity_id);
    lemma_first_match(d.entities, ent_id_is(entity_id));
    let e = d.entities[i];
    let e1 = EntityV { parent: new_parent, ..e };
    let d1 = with_entity(d, i, e1);
    lemma_first_match_update(d.entities, ent_id_is(entity_id), i, e1);
    assert(find_ent(d1, entity_id) == i);
    match e.parent {
        Some(p) => {
            lemma_first_match_update(d.entities, ent_id_is(p), i, e1);
            assert(find_ent(d1, p) == find_ent(d, p));
            lemma_chain_hits_after_reparent(d.entities, i, new_parent, p, entity_id, d.entities.len());
            assert(!would_create_cycle(d1, entity_id, p));
        },
        None => {},
    }
    let e2 = EntityV { parent: e.parent, ..d1.entities[i] };
    assert(d1.entities.update(i, e2) =~= d.entities);
}

/// Undoing an override upsert restores the document, when the override it replaces (if
/// any) is active: the inverse writes back an active override.
pub proof fn law_upsert_override_undo(
    d: DocV,
    instance_id: Seq<char>,
    target_local_id: Seq<char>,
    component_type_id: Seq<char>,
    field_path: Seq<Seq<char>>,
    value: JsonV,
    types: Seq<Seq<char>>,
)
    requires
        spec_apply(d, CommandV::UpsertOverride { instance_id, target_local_id, component_type_id, field_path, value }, types) is Ok,
        ({
            let x = d.instances[find_inst(d, instance_id)];
            let m = first_match(x.component_overrides, ov_key_is(target_local_id, component_type_id, field_path));
            0 <= m < x.component_overrides.len() ==> x.component_overrides[m].status == ComponentOverrideStatus::Active
        }),
    ensures
        undo_restores(d, CommandV::UpsertOverride { instance_id, target_local_id, component_type_id, field_path, value }, types),
{
    let k = find_inst(d, instance_id);
    lemma_first_match(d.instances, inst_id_is(instance_id));
    let x = d.instances[k];
    let key = ov_key_is(target_local_id, component_type_id, field_path);
    let m = first_match(x.component_overrides, key);
    lemma_first_match(x.component_overrides, key);
    let patch = OverrideV {
        target_local_id: target_local_id,
        component_type_id: component_type_id,
        field_path: field_path,
        value: value,
        status: ComponentOverrideStatus::Active,
    };
    let ovs1 = upsert_ov(x.component_overrides, patch);
    let x1 = InstanceV { component_overrides: ovs1, ..x };
    let d1 = with_instance(d, k, x1);
    lemma_first_match_update(d.instances, inst_id_is(instance_id), k, x1);
    assert(find_inst(d1, instance_id) == k);
    if 0 <= m < x.component_overrides.len() {
        let old = x.component_overrides[m];
        lemma_first_match_update(x.component_overrides, key, m, patch);
        assert(first_match(ovs1, ov_key_is(old.target_local_id, old.component_type_id, old.field_path)) == m);
        assert(ovs1.update(m, old) =~= x.component_overrides);
        assert(d1.instances.update(k, InstanceV { component_overrides: ovs1.update(m, old), ..x1 }) =~= d.instances);
    } else {
        lemma_first_match_push(x.component_overrides, key, patch);
        let n = x.component_overrides.len() as int;
        assert(first_match(ovs1, key) == n);
        assert(ovs1.remove(n) =~= x.component_overrides);
        assert(d1.instances.update(k, InstanceV { component_overrides: ovs1.remove(n), ..x1 }) =~= d.instances);
    }
}

/// Undoing the deletion of an entity restores the document, when what the inverse recreates
/// is that entity in its place: it is the last entity, its local id is its id, it has no
/// parent, and no other entity has it as parent.
pub proof fn law_delete_undo(d: DocV, id: Seq<char>, types: Seq<Seq<char>>)
    requires
        spec_apply(d, CommandV::DeleteEntity { id }, types) is Ok,
        find_ent(d, id) == d.entities.len() - 1,
        d.entities.last().local_id == id,
        d.entities.last().parent is None,
        forall|k: int| 0 <= k < d.entities.len() - 1 ==> (#[trigger] d.entities[k]).parent != Some(id),
    ensures
        undo_restores(d, CommandV::DeleteEntity { id }, types),
{
    let i = find_ent(d, id);
    lemma_first_match(d.entities, ent_id_is(id));
    let removed = d.entities[i];
    let rest = d.entities.remove(i);
    assert(rest.map_values(|e: EntityV| orphan_of(e, id)) =~= rest);
    let d1 = DocV { entities: rest, ..d };
    assert forall|k: int| 0 <= k < rest.len() implies !ent_id_is(id)(#[trigger] rest[k]) by {
        assert(rest[k] == d.entities[k]);
    }
    lemma_first_match_none(rest, ent_id_is(id));
    assert(find_ent(d1, id) == -1);
    assert(rest.push(EntityV { id: id, local_id: id, name: removed.name, parent: None, components: removed.components }) =~= d.entities);
}

/// Undoing the removal of a component restores the document, when the removed component
/// was the entity's last one and its type is registered (the inverse appends it again).
pub proof fn law_remove_component_undo(d: DocV, entity_id: Seq<char>, type_id: Seq<char>, types: Seq<Seq<char>>)
    requires
        spec_apply(d, CommandV::RemoveComponent { entity_id, type_id }, types) is Ok,
        ({
            let cs = d.entities[find_ent(d, entity_id)].components;
            let j = first_match(cs, comp_type_is(type_id));
            0 <= j < cs.len() ==> j == cs.len() - 1 && types.contains(cs[j].type_id)
        }),
    ensures
        undo_restores(d, CommandV::RemoveComponent { entity_id, type_id }, types),
{
    let i = find_ent(d, entity_id);
    lemma_first_match(d.entities, ent_id_is(entity_id));
    let e = d.entities[i];
    let j = first_match(e.components, comp_type_is(type_id));
    lemma_first_match(e.components, comp_type_is(type_id));
    if 0 <= j < e.components.len() {
        let e1 = EntityV { components: e.components.remove(j), ..e };
        let d1 = with_entity(d, i, e1);
        lemma_first_match_update(d.entities, ent_id_is(entity_id), i, e1);
        assert(find_ent(d1, entity_id) == i);
        assert(e1.components.push(e.components[j]) =~= e.components);
        assert(d1.entities.update(i, EntityV { components: e1.components.push(e.components[j]), ..e1 }) =~= d.entities);
    }
}

/// Undoing the removal of a scene instance restores the document, when its instances
/// are well kept (distinct ids in increasing order, as in the scene format): the inverse
/// places the instance back at its place in that order.
pub proof fn law_remove_instance_undo(d: DocV, instance_id: Seq<char>, types: Seq<Seq<char>>)
    requires
        spec_apply(d, CommandV::RemoveInstance { instance_id }, types) is Ok,
        instances_wf(d),
    ensures
        undo_restores(d, CommandV::RemoveInstance { instance_id }, types),
{
    let k = find_inst(d, instance_id);
    lemma_first_match(d.instances, inst_id_is(instance_id));
    let x = d.instances[k];
    let rest = d.instances.remove(k);
    assert forall|q: int| 0 <= q < rest.len() implies !inst_id_is(instance_id)(#[trigger] rest[q]) by {
        let qq = if q < k { q } else { q + 1 };
        assert(rest[q] == d.instances[qq]);
    }
    lemma_first_match_none(rest, inst_id_is(instance_id));
    assert forall|j: int| 0 <= j < k implies !inst_not_below(instance_id)(#[trigger] rest[j]) by {
        assert(rest[j] == d.instances[j]);
        assert(crate::logic_state::lex_lt(d.instances[j].instance_id, d.instances[k].instance_id));
    }
    if k < rest.len() {
        assert(rest[k] == d.instances[k + 1]);
        assert(crate::logic_state::lex_lt(d.instances[k].instance_id, d.instances[k + 1].instance_id));
        if crate::logic_state::lex_lt(d.instances[k + 1].instance_id, instance_id) {
            crate::logic_state::lemma_lex_transitive(instance_id, d.instances[k + 1].instance_id, instance_id);
            crate::logic_state::lemma_lex_irreflexive(instance_id);
        }
        assert(is_first_match(rest, inst_not_below(instance_id), k));
        lemma_first_match_at(rest, inst_not_below(instance_id), k);
    } else {
        lemma_first_match_none(rest, inst_not_below(instance_id));
    }
    assert(inst_insert_pos(rest, instance_id) == k);
    assert(rest.insert(k, x) =~= d.instances);
}

/// Undoing the replacement of an instance's asset restores the document.
pub proof fn law_replace_instance_asset_undo(
    d: DocV,
    instance_id: Seq<char>,
    new_asset_ref: Seq<char>,
    new_asset_version: u32,
    captured_old: Option<InstanceV>,
    types: Seq<Seq<char>>,
)
    requires
        spec_apply(d, CommandV::ReplaceInstanceAsset { instance_id, new_asset_ref, new_asset_version, captured_old }, types) is Ok,
    ensures
        undo_restores(d, CommandV::ReplaceInstanceAsset { instance_id, new_asset_ref, new_asset_version, captured_old }, types),
{
    let k = find_inst(d, instance_id);
    lemma_first_match(d.instances, inst_id_is(instance_id));
    let x = d.instances[k];
    let x1 = InstanceV { asset_ref: new_asset_ref, asset_version_seen: new_asset_version, ..x };
    let d1 = with_instance(d, k, x1);
    lemma_first_match_update(d.instances, inst_id_is(instance_id), k, x1);
    assert(find_inst(d1, instance_id) == k);
    assert(d1.instances.update(k, InstanceV { asset_ref: x.asset_ref, asset_version_seen: x.asset_version_seen, ..x1 }) =~= d.instances);
}

/// Each command of `cs[k..]`, at the document it meets when they are applied in turn, is
/// one whose undo restores that document.
pub open spec fn each_undoable(d: DocV, cs: Seq<CommandV>, k: int, types: Seq<Seq<char>>) -> bool
    decreases cs.len() - k,
{
    if k < 0 || k >= cs.len() {
        true
    } else {
        &&& undo_restores(d, cs[k], types)
        &&& each_undoable(spec_apply(d, cs[k], types)->Ok_0.0, cs, k + 1, types)
    }
}

proof fn lemma_apply_seq_shift(y: DocV, a: Seq<CommandV>, b: Seq<CommandV>, j: int, types: Seq<Seq<char>>)
    requires
        0 <= j <= b.len(),
        apply_seq(y, b, j, types) is Ok,
    ensures
        apply_seq(y, a + b, a.len() + j, types) is Ok,
        apply_seq(y, a + b, a.len() + j, types)->Ok_0.0 == apply_seq(y, b, j, types)->Ok_0.0,
    decreases b.len() - j,
{
    if j < b.len() {
        assert((a + b)[a.len() + j] == b[j]);
        let (y1, _) = spec_apply(y, b[j], types)->Ok_0;
        lemma_apply_seq_shift(y1, a, b, j + 1, types);
    }
}

proof fn lemma_apply_seq_concat(x: DocV, a: Seq<CommandV>, b: Seq<CommandV>, i: int, types: Seq<Seq<char>>)
    requires
        0 <= i <= a.len(),
        apply_seq(x, a, i, types) is Ok,
        apply_seq(apply_seq(x, a, i, types)->Ok_0.0, b, 0, types) is Ok,
    ensures
        apply_seq(x, a + b, i, types) is Ok,
        apply_seq(x, a + b, i, types)->Ok_0.0 == apply_seq(apply_seq(x, a, i, types)->Ok_0.0, b, 0, types)->Ok_0.0,
    decreases a.len() - i,
{
    if i < a.len() {
        assert((a + b)[i] == a[i]);
        let (x1, _) = spec_apply(x, a[i], types)->Ok_0;
        lemma_apply_seq_concat(x1, a, b, i + 1, types);
    } else {
        lemma_apply_seq_shift(x, a, b, 0, types);
    }
}

proof fn lemma_batch_undo_seq(d: DocV, cs: Seq<CommandV>, k: int, types: Seq<Seq<char>>)
    requires
        0 <= k <= cs.len(),
        each_undoable(d, cs, k, types),
    ensures
        apply_seq(d, cs, k, types) is Ok,
        apply_seq(apply_seq(d, cs, k, types)->Ok_0.0, apply_seq(d, cs, k, types)->Ok_0.1.reverse(), 0, types) is Ok,
        apply_seq(apply_seq(d, cs, k, types)->Ok_0.0, apply_seq(d, cs, k, types)->Ok_0.1.reverse(), 0, types)->Ok_0.0 == d,
    decreases cs.len() - k,
{
    if k < cs.len() {
        let (d1, inv) = spec_apply(d, cs[k], types)->Ok_0;
        lemma_batch_undo_seq(d1, cs, k + 1, types);
        let (d2, invs) = apply_seq(d1, cs, k + 1, types)->Ok_0;
        let all = seq![inv] + invs;
        assert(apply_seq(d, cs, k, types) == Ok::<(DocV, Seq<CommandV>), (int, ErrV)>((d2, all)));
        assert(all.reverse() =~= invs.reverse() + seq![inv]);
        let one = seq![inv];
        assert(apply_seq(d1, one, 0, types) is Ok && apply_seq(d1, one, 0, types)->Ok_0.0 == d) by {
            let (d0, _) = spec_apply(d1, inv, types)->Ok_0;
            assert(apply_seq(d0, one, 1, types) == Ok::<(DocV, Seq<CommandV>), (int, ErrV)>((d0, Seq::empty())));
        }
        lemma_apply_seq_concat(d2, invs.reverse(), one, 0, types);
    } else {
        assert(Seq::<CommandV>::empty().reverse() =~= Seq::<CommandV>::empty());
    }
}

/// Undoing a batch restores the document, when each of its commands, at the document it
/// meets, is one whose undo restores that document: the inverse batch undoes them in
/// reverse order.
pub proof fn law_batch_undo(d: DocV, label: Seq<char>, commands: Seq<CommandV>, types: Seq<Seq<char>>)
    requires
        each_undoable(d, commands, 0, types),
    ensures
        undo_restores(d, CommandV::Batch { label, commands }, types),
{
    lemma_batch_undo_seq(d, commands, 0, types);
}

/// A command that fails validation is rejected with that validation error.
pub proof fn law_validation_gates_apply(d: DocV, c: CommandV, types: Seq<Seq<char>>)
    requires
        spec_validate(d, c, types) is Err,
    ensures
        spec_apply(d, c, types) == Err::<(DocV, CommandV), ErrV>(spec_validate(d, c, types)->Err_0),
{
}

/// Entity `id` of `d` exists, owns a component of type `t`, and the field at `path` in
/// that component reads `value`.
pub open spec fn field_reads(d: DocV, id: Seq<char>, t: Seq<char>, path: Seq<char>, value: JsonV) -> bool {
    let i = find_ent(d, id);
    &&& 0 <= i < d.entities.len()
    &&& {
        let cs = d.entities[i].components;
        let j = first_match(cs, comp_type_is(t));
        &&& 0 <= j < cs.len()
        &&& json_get_path(cs[j].values, path_parts(path), 0) == Some(value)
    }
}

/// A successful `SetComponentField` changes one entity, the one named, keeping its id,
/// and afterwards the field reads the new value.
proof fn lemma_set_field_reads(d: DocV, id: Seq<char>, t: Seq<char>, path: Seq<char>, value: JsonV)
    requires
        spec_set_field(d, id, t, path, value) is Ok,
    ensures
        ({
            let d1 = spec_set_field(d, id, t, path, value)->Ok_0.0;
            let i = find_ent(d, id);
            &&& 0 <= i < d.entities.len()
            &&& d.entities[i].id == id
            &&& d1.entities.len() == d.entities.len()
            &&& d1.entities[i].id == id
            &&& forall|q: int| 0 <= q < d.entities.len() && q != i ==> d1.entities[q] == #[trigger] d.entities[q]
            &&& field_reads(d1, id, t, path, value)
        }),
{
    let i = find_ent(d, id);
    lemma_first_match(d.entities, ent_id_is(id));
    let e = d.entities[i];
    let j = first_match(e.components, comp_type_is(t));
    lemma_first_match(e.components, comp_type_is(t));
    let parts = path_parts(path);
    let (u, old) = json_set_path(e.components[j].values, parts, 0, value)->Ok_0;
    lemma_set_then_get(e.components[j].values, parts, 0, value);
    let c2 = ComponentV { values: u, ..e.components[j] };
    let e2 = EntityV { components: e.components.update(j, c2), ..e };
    lemma_first_match_update(d.entities, ent_id_is(id), i, e2);
    lemma_first_match_update(e.components, comp_type_is(t), j, c2);
}

/// A successful `SetComponentField` on another entity keeps what an entity's field reads.
proof fn lemma_set_field_keeps_reads(
    d: DocV,
    id: Seq<char>,
    x: Seq<char>,
    t: Seq<char>,
    path: Seq<char>,
    value: JsonV,
    t2: Seq<char>,
    path2: Seq<char>,
    value2: JsonV,
)
    requires
        spec_set_field(d, id, t, path, value) is Ok,
        x != id,
        field_reads(d, x, t2, path2, value2),
    ensures
        field_reads(spec_set_field(d, id, t, path, value)->Ok_0.0, x, t2, path2, value2),
{
    let d1 = spec_set_field(d, id, t, path, value)->Ok_0.0;
    lemma_set_field_reads(d, id, t, path, value);
    let i = find_ent(d, id);
    let k = find_ent(d, x);
    lemma_first_match(d.entities, ent_id_is(x));
    assert(d1.entities =~= d.entities.update(i, d1.entities[i]));
    lemma_first_match_update(d.entities, ent_id_is(x), i, d1.entities[i]);
    assert(k != i);
    assert(d1.entities[k] == d.entities[k]);
}

/// Setting the field on `ids[k..]` keeps what the field of an entity not among them reads.
proof fn lemma_fold_keeps_reads(
    d: DocV,
    ids: Seq<Seq<char>>,
    k: int,
    x: Seq<char>,
    t: Seq<char>,
    path: Seq<char>,
    value: JsonV,
)
    requires
        0 <= k,
        set_field_fold(d, ids, k, t, path, value) is Ok,
        forall|m: int| k <= m < ids.len() ==> #[trigger] ids[m] != x,
        field_reads(d, x, t, path, value),
    ensures
        field_reads(set_field_fold(d, ids, k, t, path, value)->Ok_0, x, t, path, value),
    decreases ids.len() - k,
{
    if k < ids.len() {
        let d1 = spec_set_field(d, ids[k], t, path, value)->Ok_0.0;
        lemma_set_field_keeps_reads(d, ids[k], x, t, path, value, t, path, value);
        lemma_fold_keeps_reads(d1, ids, k + 1, x, t, path, value);
    }
}

/// Setting the field on distinct `ids[k..]` leaves it reading the value on each of them.
proof fn lemma_fold_sets_all(d: DocV, ids: Seq<Seq<char>>, k: int, t: Seq<char>, path: Seq<char>, value: JsonV)
    requires
        0 <= k,
        set_field_fold(d, ids, k, t, path, value) is Ok,
        forall|a: int, b: int| 0 <= a < b < ids.len() ==> #[trigger] ids[a] != #[trigger] ids[b],
    ensures
        forall|m: int|
            k <= m < ids.len() ==> field_reads(set_field_fold(d, ids, k, t, path, value)->Ok_0, #[trigger] ids[m], t, path, value),
    decreases ids.len() - k,
{
    if k < ids.len() {
        let d1 = spec_set_field(d, ids[k], t, path, value)->Ok_0.0;
        lemma_set_field_reads(d, ids[k], t, path, value);
        lemma_fold_sets_all(d1, ids, k + 1, t, path, value);
        assert forall|m: int| k + 1 <= m < ids.len() implies #[trigger] ids[m] != ids[k] by {
            assert(ids[k] != ids[m]);
        }
        lemma_fold_keeps_reads(d1, ids, k + 1, ids[k], t, path, value);
    }
}

/// Setting the field on `ids[k..]` keeps the number of entities and every entity whose
/// id is not among them.
proof fn lemma_fold_keeps_others(d: DocV, ids: Seq<Seq<char>>, k: int, t: Seq<char>, path: Seq<char>, value: JsonV)
    requires
        0 <= k,
        set_field_fold(d, ids, k, t, path, value) is Ok,
    ensures
        set_field_fold(d, ids, k, t, path, value)->Ok_0.entities.len() == d.entities.len(),
        forall|q: int|
            0 <= q < d.entities.len() && (forall|m: int| k <= m < ids.len() ==> #[trigger] ids[m] != d.entities[q].id)
                ==> set_field_fold(d, ids, k, t, path, value)->Ok_0.entities[q] == #[trigger] d.entities[q],
    decreases ids.len() - k,
{
    if k < ids.len() {
        let d1 = spec_set_field(d, ids[k], t, path, value)->Ok_0.0;
        lemma_set_field_reads(d, ids[k], t, path, value);
        lemma_fold_keeps_others(d1, ids, k + 1, t, path, value);
        let d2 = set_field_fold(d, ids, k, t, path, value)->Ok_0;
        assert forall|q: int|
            0 <= q < d.entities.len() && (forall|m: int| k <= m < ids.len() ==> #[trigger] ids[m] != d.entities[q].id)
                implies d2.entities[q] == #[trigger] d.entities[q] by {
            let i = find_ent(d, ids[k]);
            assert(ids[k] != d.entities[q].id);
            assert(q != i);
            assert(d1.entities[q] == d.entities[q]);
            assert forall|m: int| k + 1 <= m < ids.len() implies #[trigger] ids[m] != d1.entities[q].id by {
                assert(ids[m] != d.entities[q].id);
            }
        }
    }
}

/// After `SetComponentFieldOnMultiple` succeeds, every listed entity owns the component
/// and its field at the path reads the new value; every other entity is as it was.
pub proof fn law_set_on_multiple_sets_every_entity(
    d: DocV,
    entity_ids: Seq<Seq<char>>,
    type_id: Seq<char>,
    field_path: Seq<char>,
    value: JsonV,
    types: Seq<Seq<char>>,
)
    requires
        spec_apply(d, CommandV::SetComponentFieldOnMultiple { entity_ids, type_id, field_path, value }, types) is Ok,
    ensures
        forall|k: int|
            0 <= k < entity_ids.len() ==> field_reads(
                spec_apply(d, CommandV::SetComponentFieldOnMultiple { entity_ids, type_id, field_path, value }, types)->Ok_0.0,
                #[trigger] entity_ids[k],
                type_id,
                field_path,
                value,
            ),
        ({
            let d1 = spec_apply(d, CommandV::SetComponentFieldOnMultiple { entity_ids, type_id, field_path, value }, types)->Ok_0.0;
            &&& d1.entities.len() == d.entities.len()
            &&& forall|q: int|
                0 <= q < d.entities.len() && !entity_ids.contains(d.entities[q].id) ==> d1.entities[q] == #[trigger] d.entities[q]
        }),
{
    lemma_fold_keeps_others(d, entity_ids, 0, type_id, field_path, value);
    assert forall|q: int| 0 <= q < d.entities.len() && !entity_ids.contains(d.entities[q].id) implies
        (forall|m: int| 0 <= m < entity_ids.len() ==> #[trigger] entity_ids[m] != d.entities[q].id) by {
        assert forall|m: int| 0 <= m < entity_ids.len() implies #[trigger] entity_ids[m] != d.entities[q].id by {
            if entity_ids[m] == d.entities[q].id {
                assert(entity_ids.contains(d.entities[q].id));
            }
        }
    }
    assert forall|a: int, b: int| 0 <= a < b < entity_ids.len() implies #[trigger] entity_ids[a] != #[trigger] entity_ids[b] by {
        if entity_ids[a] == entity_ids[b] {
            assert(is_dup_at(entity_ids, b));
            assert(dup_pred(entity_ids)(b));
            lemma_first_index_found(entity_ids.len() as int, dup_pred(entity_ids), b);
        }
    }
    lemma_fold_sets_all(d, entity_ids, 0, type_id, field_path, value);
}

impl Default for ProcessorContext {
    /// A context that knows no component type.
    fn default() -> (r: ProcessorContext)
        ensures
            r.types() == Seq::<Seq<char>>::empty(),
    {
        ProcessorContext::empty()
    }
}

/// Instances are kept as the scene format keeps them: by distinct ids in increasing
/// order, and each instance's id map holds each local id once.
pub open spec fn instances_wf(d: DocV) -> bool {
    &&& forall|i: int, j: int|
        0 <= i < j < d.instances.len() ==> crate::logic_state::lex_lt(
            (#[trigger] d.instances[i]).instance_id,
            (#[trigger] d.instances[j]).instance_id,
        )
    &&& forall|i: int, j: int|
        0 <= i < d.instances.len() && 0 <= j < d.instances.len() && i != j ==> (#[trigger] d.instances[i]).instance_id
            != (#[trigger] d.instances[j]).instance_id
    &&& forall|k: int| 0 <= k < d.instances.len() ==> crate::assoc::keys_unique(#[trigger] d.instances[k].id_map)
}

/// Every placement in `c`, nested batches included, carries an id map with each local id
/// once.
pub open spec fn placements_well_keyed(c: CommandV) -> bool
    decreases c, 0int,
{
    match c {
        CommandV::PlaceInstance { id_map, .. } => crate::assoc::keys_unique(id_map),
        CommandV::Batch { commands, .. } => all_placements_well_keyed(commands, commands.len() as int),
        _ => true,
    }
}

/// The commands `cs[..n]` all satisfy `placements_well_keyed`.
pub open spec fn all_placements_well_keyed(cs: Seq<CommandV>, n: int) -> bool
    decreases cs, n,
{
    if n <= 0 || n > cs.len() {
        true
    } else {
        placements_well_keyed(cs[n - 1]) && all_placements_well_keyed(cs, n - 1)
    }
}

proof fn lemma_all_placements_at(cs: Seq<CommandV>, n: int, k: int)
    requires
        0 <= k < n <= cs.len(),
        all_placements_well_keyed(cs, n),
    ensures
        placements_well_keyed(cs[k]),
    decreases n,
{
    if k < n - 1 {
        lemma_all_placements_at(cs, n - 1, k);
    }
}

proof fn lemma_set_field_fold_keeps_instances(d: DocV, ids: Seq<Seq<char>>, k: int, t: Seq<char>, path: Seq<char>, value: JsonV)
    ensures
        set_field_fold(d, ids, k, t, path, value) matches Ok(d1) ==> d1.instances == d.instances,
    decreases ids.len() - k,
{
    if 0 <= k < ids.len() {
        match spec_set_field(d, ids[k], t, path, value) {
            Err(_) => {},
            Ok((d1, _)) => {
                lemma_set_field_fold_keeps_instances(d1, ids, k + 1, t, path, value);
            },
        }
    }
}

proof fn lemma_update_keeps_wf(d: DocV, k: int, x: InstanceV)
    requires
        instances_wf(d),
        0 <= k < d.instances.len(),
        x.instance_id == d.instances[k].instance_id,
        x.id_map == d.instances[k].id_map,
    ensures
        instances_wf(with_instance(d, k, x)),
{
    let n = with_instance(d, k, x);
    assert forall|i: int, j: int|
        0 <= i < n.instances.len() && 0 <= j < n.instances.len() && i != j implies (#[trigger] n.instances[i]).instance_id
            != (#[trigger] n.instances[j]).instance_id by {
        assert(n.instances[i].instance_id == d.instances[i].instance_id);
        assert(n.instances[j].instance_id == d.instances[j].instance_id);
    }
    assert forall|m: int| 0 <= m < n.instances.len() implies crate::assoc::keys_unique(#[trigger] n.instances[m].id_map) by {
        assert(n.instances[m].id_map == d.instances[m].id_map);
    }
    assert forall|i: int, j: int| 0 <= i < j < n.instances.len() implies crate::logic_state::lex_lt(
        (#[trigger] n.instances[i]).instance_id,
        (#[trigger] n.instances[j]).instance_id,
    ) by {
        assert(n.instances[i].instance_id == d.instances[i].instance_id);
        assert(n.instances[j].instance_id == d.instances[j].instance_id);
    }
}

proof fn lemma_place_keeps_instances_wf(d: DocV, c: CommandV, types: Seq<Seq<char>>)
    requires
        instances_wf(d),
        placements_well_keyed(c),
        c is PlaceInstance,
        spec_validate(d, c, types) is Ok,
    ensures
        spec_apply(d, c, types) matches Ok((d1, _)) ==> instances_wf(d1),
{
    let id = c->PlaceInstance_instance_id;
    lemma_first_match(d.instances, inst_id_is(id));
    lemma_first_match(d.instances, inst_not_below(id));
    let pos = inst_insert_pos(d.instances, id);
    let d1 = spec_apply(d, c, types)->Ok_0.0;
    let old = d.instances;
    let new = d1.instances;
    assert(new.len() == old.len() + 1);
    assert(new[pos].instance_id == id);
    assert forall|q: int| 0 <= q < pos implies #[trigger] crate::logic_state::lex_lt(old[q].instance_id, id) by {
        assert(!inst_not_below(id)(old[q]));
    }
    assert forall|q: int| pos <= q < old.len() implies #[trigger] crate::logic_state::lex_lt(id, old[q].instance_id) by {
        assert(!inst_id_is(id)(old[pos]));
        assert(inst_not_below(id)(old[pos]));
        crate::logic_state::lemma_lex_total(old[pos].instance_id, id);
        if q > pos {
            crate::logic_state::lemma_lex_transitive(id, old[pos].instance_id, old[q].instance_id);
        }
    }
    assert forall|i: int, j: int| 0 <= i < j < new.len() implies crate::logic_state::lex_lt(
        (#[trigger] new[i]).instance_id,
        (#[trigger] new[j]).instance_id,
    ) by {
        if j < pos {
            assert(new[i] == old[i] && new[j] == old[j]);
        } else if j == pos {
            assert(new[i] == old[i]);
        } else if i < pos {
            assert(new[i] == old[i] && new[j] == old[j - 1]);
            crate::logic_state::lemma_lex_transitive(old[i].instance_id, id, old[j - 1].instance_id);
        } else if i == pos {
            assert(new[j] == old[j - 1]);
        } else {
            assert(new[i] == old[i - 1] && new[j] == old[j - 1]);
        }
    }
    assert forall|i: int, j: int|
        0 <= i < new.len() && 0 <= j < new.len() && i != j implies (#[trigger] new[i]).instance_id
            != (#[trigger] new[j]).instance_id by {
        if i < j {
            assert(crate::logic_state::lex_lt(new[i].instance_id, new[j].instance_id));
            if new[i].instance_id == new[j].instance_id {
                crate::logic_state::lemma_lex_irreflexive(new[i].instance_id);
            }
        } else {
            assert(crate::logic_state::lex_lt(new[j].instance_id, new[i].instance_id));
            if new[i].instance_id == new[j].instance_id {
                crate::logic_state::lemma_lex_irreflexive(new[i].instance_id);
            }
        }
    }
    assert forall|m: int| 0 <= m < new.len() implies crate::assoc::keys_unique(#[trigger] new[m].id_map) by {
        if m < pos {
            assert(new[m] == old[m]);
        } else if m > pos {
            assert(new[m] == old[m - 1]);
        }
    }
}

/// Applying a command keeps instance ids distinct and each id map keyed once, when every
/// placement it makes carries a well-keyed id map.
pub proof fn law_apply_keeps_instances_wf(d: DocV, c: CommandV, types: Seq<Seq<char>>)
    requires
        instances_wf(d),
        placements_well_keyed(c),
    ensures
        spec_apply(d, c, types) matches Ok((d1, _)) ==> instances_wf(d1),
    decreases c, 1int,
{
    if spec_validate(d, c, types) is Ok {
        match c {
            CommandV::SetComponentFieldOnMultiple { entity_ids, type_id, field_path, value } => {
                lemma_set_field_fold_keeps_instances(d, entity_ids, 0, type_id, field_path, value);
            },
            CommandV::Batch { commands, .. } => {
                lemma_apply_seq_keeps_instances_wf(d, commands, 0, types);
            },
            CommandV::PlaceInstance { instance_id, .. } => {
                lemma_place_keeps_instances_wf(d, c, types);
            },
            CommandV::RemoveInstance { instance_id } => {
                let k = find_inst(d, instance_id);
                let d1 = spec_apply(d, c, types)->Ok_0.0;
                assert(d1.instances == d.instances.remove(k));
                assert forall|i: int, j: int|
                    0 <= i < d1.instances.len() && 0 <= j < d1.instances.len() && i != j implies (#[trigger] d1.instances[i]).instance_id
                        != (#[trigger] d1.instances[j]).instance_id by {
                    let ii = if i < k { i } else { i + 1 };
                    let jj = if j < k { j } else { j + 1 };
                    assert(d1.instances[i] == d.instances[ii]);
                    assert(d1.instances[j] == d.instances[jj]);
                }
                assert forall|m: int| 0 <= m < d1.instances.len() implies crate::assoc::keys_unique(#[trigger] d1.instances[m].id_map) by {
                    let mm = if m < k { m } else { m + 1 };
                    assert(d1.instances[m] == d.instances[mm]);
                }
                assert forall|i: int, j: int| 0 <= i < j < d1.instances.len() implies crate::logic_state::lex_lt(
                    (#[trigger] d1.instances[i]).instance_id,
                    (#[trigger] d1.instances[j]).instance_id,
                ) by {
                    let ii = if i < k { i } else { i + 1 };
                    let jj = if j < k { j } else { j + 1 };
                    assert(d1.instances[i] == d.instances[ii]);
                    assert(d1.instances[j] == d.instances[jj]);
                }
            },
            CommandV::ReplaceInstanceAsset { instance_id, new_asset_ref, new_asset_version, .. } => {
                let k = find_inst(d, instance_id);
                let x = d.instances[k];
                lemma_update_keeps_wf(d, k, InstanceV { asset_ref: new_asset_ref, asset_version_seen: new_asset_version, ..x });
            },
            CommandV::UpsertOverride { instance_id, target_local_id, component_type_id, field_path, value } => {
                let k = find_inst(d, instance_id);
                let x = d.instances[k];
                let patch = OverrideV {
                    target_local_id: target_local_id,
                    component_type_id: component_type_id,
                    field_path: field_path,
                    value: value,
                    status: ComponentOverrideStatus::Active,
                };
                lemma_update_keeps_wf(d, k, InstanceV { component_overrides: upsert_ov(x.component_overrides, patch), ..x });
            },
            CommandV::RevertOverride { instance_id, target_local_id, component_type_id, field_path } => {
                let k = find_inst(d, instance_id);
                let x = d.instances[k];
                let m = first_match(x.component_overrides, ov_key_is(target_local_id, component_type_id, field_path));
                if 0 <= m < x.component_overrides.len() {
                    lemma_update_keeps_wf(d, k, InstanceV { component_overrides: x.component_overrides.remove(m), ..x });
                }
            },
            _ => {},
        }
    }
}

proof fn lemma_apply_seq_keeps_instances_wf(d: DocV, cs: Seq<CommandV>, k: int, types: Seq<Seq<char>>)
    requires
        instances_wf(d),
        all_placements_well_keyed(cs, cs.len() as int),
    ensures
        apply_seq(d, cs, k, types) matches Ok((d1, _)) ==> instances_wf(d1),
    decreases cs, cs.len() - k,
{
    if 0 <= k < cs.len() {
        lemma_all_placements_at(cs, cs.len() as int, k);
        law_apply_keeps_instances_wf(d, cs[k], types);
        match spec_apply(d, cs[k], types) {
            Err(_) => {},
            Ok((d1, _)) => {
                lemma_apply_seq_keeps_instances_wf(d1, cs, k + 1, types);
            },
        }
    }
}

} // verus!
