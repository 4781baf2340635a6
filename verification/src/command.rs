//! Semantic, reversible editor commands and their errors.

use vstd::prelude::*;
use vstd::string::*;
use crate::document::{
    ComponentInstance, ComponentV, ComponentOverride, OverrideV, IdMapEntry, SceneInstance,
    InstanceV, SceneDocument, comps_view, ovs_view, idmap_view, opt_view, clone_components,
    clone_strings, clone_opt_string, clone_id_map, clone_overrides, clone_instance,
};
use crate::json::{JsonValue, JsonV, strs_view, json_clone};
use crate::text::{concat2, concat3, decimal, usize_to_decimal};

verus! {

/// A typed command on a scene document. Every command applied by the processor yields
/// its inverse, so the operation log can undo and redo it.
#[derive(Debug)]
pub enum Command {
    /// Does nothing; its inverse is itself.
    Noop,
    /// Add a new root entity.
    CreateEntity { id: String, name: String, components: Vec<ComponentInstance> },
    /// Remove an entity; its children become roots.
    DeleteEntity { id: String },
    /// Attach a component instance to an entity.
    AddComponent { entity_id: String, type_id: String, values: JsonValue },
    /// Remove the first component of a type from an entity (no-op when absent).
    RemoveComponent { entity_id: String, type_id: String },
    /// Set one field, addressed by a dotted path, of a component of an entity.
    SetComponentField { entity_id: String, type_id: String, field_path: String, value: JsonValue },
    /// Set the same field on several entities at once.
    SetComponentFieldOnMultiple { entity_ids: Vec<String>, type_id: String, field_path: String, value: JsonValue },
    /// Move an entity under a new parent (or to the root with `None`).
    ReparentEntity { entity_id: String, old_parent: Option<String>, new_parent: Option<String> },
    /// Change an entity's name; its id never changes.
    RenameEntity { entity_id: String, old_name: Option<String>, new_name: String },
    /// Apply several commands as one atomic step.
    Batch { label: String, commands: Vec<Command> },
    /// Place a scene asset as a new scene instance.
    PlaceInstance {
        instance_id: String,
        asset_ref: String,
        asset_version: u32,
        id_map: Vec<IdMapEntry>,
        instance_components: Vec<ComponentInstance>,
        component_overrides: Vec<ComponentOverride>,
        orphaned_component_overrides: Vec<ComponentOverride>,
    },
    /// Remove a scene instance.
    RemoveInstance { instance_id: String },
    /// Point a scene instance at another asset.
    ReplaceInstanceAsset { instance_id: String, new_asset_ref: String, new_asset_version: u32, captured_old: Option<SceneInstance> },
    /// Insert or replace an override of a scene instance.
    UpsertOverride { instance_id: String, target_local_id: String, component_type_id: String, field_path: Vec<String>, value: JsonValue },
    /// Remove an override of a scene instance (no-op when absent).
    RevertOverride { instance_id: String, target_local_id: String, component_type_id: String, field_path: Vec<String> },
}

/// Model of a command.
pub enum CommandV {
    Noop,
    CreateEntity { id: Seq<char>, name: Seq<char>, components: Seq<ComponentV> },
    DeleteEntity { id: Seq<char> },
    AddComponent { entity_id: Seq<char>, type_id: Seq<char>, values: JsonV },
    RemoveComponent { entity_id: Seq<char>, type_id: Seq<char> },
    SetComponentField { entity_id: Seq<char>, type_id: Seq<char>, field_path: Seq<char>, value: JsonV },
    SetComponentFieldOnMultiple { entity_ids: Seq<Seq<char>>, type_id: Seq<char>, field_path: Seq<char>, value: JsonV },
    ReparentEntity { entity_id: Seq<char>, old_parent: Option<Seq<char>>, new_parent: Option<Seq<char>> },
    RenameEntity { entity_id: Seq<char>, old_name: Option<Seq<char>>, new_name: Seq<char> },
    Batch { label: Seq<char>, commands: Seq<CommandV> },
    PlaceInstance {
        instance_id: Seq<char>,
        asset_ref: Seq<char>,
        asset_version: u32,
        id_map: Seq<(Seq<char>, Seq<char>)>,
        instance_components: Seq<ComponentV>,
        component_overrides: Seq<OverrideV>,
        orphaned_component_overrides: Seq<OverrideV>,
    },
    RemoveInstance { instance_id: Seq<char> },
    ReplaceInstanceAsset { instance_id: Seq<char>, new_asset_ref: Seq<char>, new_asset_version: u32, captured_old: Option<InstanceV> },
    UpsertOverride { instance_id: Seq<char>, target_local_id: Seq<char>, component_type_id: Seq<char>, field_path: Seq<Seq<char>>, value: JsonV },
    RevertOverride { instance_id: Seq<char>, target_local_id: Seq<char>, component_type_id: Seq<char>, field_path: Seq<Seq<char>> },
}

impl Command {
    pub open spec fn view(&self) -> CommandV
        decreases self,
    {
        match self {
            Command::Noop => CommandV::Noop,
            Command::CreateEntity { id, name, components } => CommandV::CreateEntity {
                id: id@,
                name: name@,
                components: comps_view(components@),
            },
            Command::DeleteEntity { id } => CommandV::DeleteEntity { id: id@ },
            Command::AddComponent { entity_id, type_id, values } => CommandV::AddComponent {
                entity_id: entity_id@,
                type_id: type_id@,
                values: values@,
            },
            Command::RemoveComponent { entity_id, type_id } => CommandV::RemoveComponent {
                entity_id: entity_id@,
                type_id: type_id@,
            },
            Command::SetComponentField { entity_id, type_id, field_path, value } => CommandV::SetComponentField {
                entity_id: entity_id@,
                type_id: type_id@,
                field_path: field_path@,
                value: value@,
            },
            Command::SetComponentFieldOnMultiple { entity_ids, type_id, field_path, value } => CommandV::SetComponentFieldOnMultiple {
                entity_ids: strs_view(entity_ids@),
                type_id: type_id@,
                field_path: field_path@,
                value: value@,
            },
            Command::ReparentEntity { entity_id, old_parent, new_parent } => CommandV::ReparentEntity {
                entity_id: entity_id@,
                old_parent: opt_view(*old_parent),
                new_parent: opt_view(*new_parent),
            },
            Command::RenameEntity { entity_id, old_name, new_name } => CommandV::RenameEntity {
                entity_id: entity_id@,
                old_name: opt_view(*old_name),
                new_name: new_name@,
            },
            Command::Batch { label, commands } => CommandV::Batch {
                label: label@,
                commands: Seq::new(
                    commands@.len(),
                    |i: int| if 0 <= i < commands@.len() { commands@[i].view() } else { CommandV::Noop },
                ),
            },
            Command::PlaceInstance {
                instance_id,
                asset_ref,
                asset_version,
                id_map,
                instance_components,
                component_overrides,
                orphaned_component_overrides,
            } => CommandV::PlaceInstance {
                instance_id: instance_id@,
                asset_ref: asset_ref@,
                asset_version: *asset_version,
                id_map: idmap_view(id_map@),
                instance_components: comps_view(instance_components@),
                component_overrides: ovs_view(component_overrides@),
                orphaned_component_overrides: ovs_view(orphaned_component_overrides@),
            },
            Command::RemoveInstance { instance_id } => CommandV::RemoveInstance { instance_id: instance_id@ },
            Command::ReplaceInstanceAsset { instance_id, new_asset_ref, new_asset_version, captured_old } => CommandV::ReplaceInstanceAsset {
                instance_id: instance_id@,
                new_asset_ref: new_asset_ref@,
                new_asset_version: *new_asset_version,
                captured_old: match captured_old {
                    Some(i) => Some(i@),
                    None => None,
                },
            },
            Command::UpsertOverride { instance_id, target_local_id, component_type_id, field_path, value } => CommandV::UpsertOverride {
                instance_id: instance_id@,
                target_local_id: target_local_id@,
                component_type_id: component_type_id@,
                field_path: strs_view(field_path@),
                value: value@,
            },
            Command::RevertOverride { instance_id, target_local_id, component_type_id, field_path } => CommandV::RevertOverride {
                instance_id: instance_id@,
                target_local_id: target_local_id@,
                component_type_id: component_type_id@,
                field_path: strs_view(field_path@),
            },
        }
    }
}

/// The models of a list of commands.
pub open spec fn cmds_view(cs: Seq<Command>) -> Seq<CommandV> {
    cs.map_values(|c: Command| c@)
}

/// Errors of command validation and application.
#[derive(Debug)]
pub enum CommandError {
    EntityNotFound(String),
    DuplicateId(String),
    UnknownSchema(String),
    FieldNotFound(String),
    WouldCreateCycle(String),
    BatchFailed { index: usize, source: Box<CommandError> },
    JsonError(String),
    MultipleRoots(usize),
    EmptyAsset,
    InstanceNotFound(String),
    InvalidArgument(String),
    Unsupported(String),
    Other(String),
}

/// Model of a command error.
pub enum ErrV {
    EntityNotFound(Seq<char>),
    DuplicateId(Seq<char>),
    UnknownSchema(Seq<char>),
    FieldNotFound(Seq<char>),
    WouldCreateCycle(Seq<char>),
    BatchFailed { index: int, source: Box<ErrV> },
    JsonError(Seq<char>),
    MultipleRoots(int),
    EmptyAsset,
    InstanceNotFound(Seq<char>),
    InvalidArgument(Seq<char>),
    Unsupported(Seq<char>),
    Other(Seq<char>),
}

impl CommandError {
    pub open spec fn view(&self) -> ErrV
        decreases self,
    {
        match self {
            CommandError::EntityNotFound(s) => ErrV::EntityNotFound(s@),
            CommandError::DuplicateId(s) => ErrV::DuplicateId(s@),
            CommandError::UnknownSchema(s) => ErrV::UnknownSchema(s@),
            CommandError::FieldNotFound(s) => ErrV::FieldNotFound(s@),
            CommandError::WouldCreateCycle(s) => ErrV::WouldCreateCycle(s@),
            CommandError::BatchFailed { index, source } => ErrV::BatchFailed {
                index: *index as int,
                source: Box::new((**source).view()),
            },
            CommandError::JsonError(s) => ErrV::JsonError(s@),
            CommandError::MultipleRoots(n) => ErrV::MultipleRoots(*n as int),
            CommandError::EmptyAsset => ErrV::EmptyAsset,
            CommandError::InstanceNotFound(s) => ErrV::InstanceNotFound(s@),
            CommandError::InvalidArgument(s) => ErrV::InvalidArgument(s@),
            CommandError::Unsupported(s) => ErrV::Unsupported(s@),
            CommandError::Other(s) => ErrV::Other(s@),
        }
    }
}

/// The message an error displays.
pub open spec fn err_message(e: ErrV) -> Seq<char>
    decreases e,
{
    match e {
        ErrV::EntityNotFound(s) => "Entity not found: "@ + s,
        ErrV::DuplicateId(s) => "Duplicate entity id: "@ + s,
        ErrV::UnknownSchema(s) => "Unknown schema: "@ + s,
        ErrV::FieldNotFound(s) => "Field not found: "@ + s,
        ErrV::WouldCreateCycle(s) => "Reparent would create cycle through "@ + s,
        ErrV::BatchFailed { index, source } => "Batch failed at command "@ + decimal(index as nat) + ": "@
            + err_message(*source),
        ErrV::JsonError(s) => "JSON serialization error: "@ + s,
        ErrV::MultipleRoots(n) => "Multiple roots: asset has "@ + decimal(n as nat) + " root entities, expected 1"@,
        ErrV::EmptyAsset => "Empty asset: cannot place instance with zero entities"@,
        ErrV::InstanceNotFound(s) => "Instance not found: "@ + s,
        ErrV::InvalidArgument(s) => "Invalid argument: "@ + s,
        ErrV::Unsupported(s) => "Unsupported: "@ + s,
        ErrV::Other(s) => s,
    }
}

impl CommandError {
    /// The human-readable message of this error.
    pub fn to_string(&self) -> (r: String)
        ensures
            r@ == err_message(self@),
        decreases self,
    {
        match self {
            CommandError::EntityNotFound(s) => concat2("Entity not found: ", s.as_str()),
            CommandError::DuplicateId(s) => concat2("Duplicate entity id: ", s.as_str()),
            CommandError::UnknownSchema(s) => concat2("Unknown schema: ", s.as_str()),
            CommandError::FieldNotFound(s) => concat2("Field not found: ", s.as_str()),
            CommandError::WouldCreateCycle(s) => concat2("Reparent would create cycle through ", s.as_str()),
            CommandError::BatchFailed { index, source } => {
                let n = usize_to_decimal(*index);
                let inner = (**source).to_string();
                let mut r = concat3("Batch failed at command ", n.as_str(), ": ");
                r.append(inner.as_str());
                r
            },
            CommandError::JsonError(s) => concat2("JSON serialization error: ", s.as_str()),
            CommandError::MultipleRoots(k) => {
                let n = usize_to_decimal(*k);
                concat3("Multiple roots: asset has ", n.as_str(), " root entities, expected 1")
            },
            CommandError::EmptyAsset => String::from_str("Empty asset: cannot place instance with zero entities"),
            CommandError::InstanceNotFound(s) => concat2("Instance not found: ", s.as_str()),
            CommandError::InvalidArgument(s) => concat2("Invalid argument: ", s.as_str()),
            CommandError::Unsupported(s) => concat2("Unsupported: ", s.as_str()),
            CommandError::Other(s) => s.clone(),
        }
    }
}

/// Who issued a command, when, and why.
#[derive(Debug)]
pub struct CommandMetadata {
    /// `"user"`, `"agent:<id>"` or `"system"`.
    pub authorship: String,
    /// Unix milliseconds when the command was issued.
    pub timestamp: u64,
    pub rationale: Option<String>,
}

/// Unix milliseconds now; 0 when the clock reads before the epoch.
#[verifier::external_body]
fn current_timestamp_ms() -> u64 {
    match std::time::SystemTime::now().duration_since(std::time::UNIX_EPOCH) {
        Ok(d) => d.as_millis() as u64,
        Err(_) => 0,
    }
}

impl CommandMetadata {
    /// Metadata stamped with the current time and no rationale.
    pub fn now(authorship: &str) -> (r: CommandMetadata)
        ensures
            r.authorship@ == authorship@,
            r.rationale is None,
    {
        CommandMetadata { authorship: String::from_str(authorship), timestamp: current_timestamp_ms(), rationale: None }
    }

    /// The same metadata with its rationale set.
    pub fn with_rationale(self, rationale: &str) -> (r: CommandMetadata)
        ensures
            r.authorship == self.authorship,
            r.timestamp == self.timestamp,
            opt_view(r.rationale) == Some(rationale@),
    {
        CommandMetadata { authorship: self.authorship, timestamp: self.timestamp, rationale: Some(String::from_str(rationale)) }
    }
}

/// A command together with its metadata.
#[derive(Debug)]
pub struct CommandEnvelope {
    pub command: Command,
    pub metadata: CommandMetadata,
}

/// What applying a command yields: its inverse and the document after the change.
#[derive(Debug)]
pub struct CommandResult {
    pub inverse: Command,
    pub snapshot: SceneDocument,
}

/// A deep copy of a command.
pub fn clone_command(c: &Command) -> (r: Command)
    ensures
        r@ == c@,
    decreases c,
{
    match c {
        Command::Noop => Command::Noop,
        Command::CreateEntity { id, name, components } => Command::CreateEntity {
            id: id.clone(),
            name: name.clone(),
            components: clone_components(components),
        },
        Command::DeleteEntity { id } => Command::DeleteEntity { id: id.clone() },
        Command::AddComponent { entity_id, type_id, values } => Command::AddComponent {
            entity_id: entity_id.clone(),
            type_id: type_id.clone(),
            values: json_clone(values),
        },
        Command::RemoveComponent { entity_id, type_id } => Command::RemoveComponent {
            entity_id: entity_id.clone(),
            type_id: type_id.clone(),
        },
        Command::SetComponentField { entity_id, type_id, field_path, value } => Command::SetComponentField {
            entity_id: entity_id.clone(),
            type_id: type_id.clone(),
            field_path: field_path.clone(),
            value: json_clone(value),
        },
        Command::SetComponentFieldOnMultiple { entity_ids, type_id, field_path, value } => Command::SetComponentFieldOnMultiple {
            entity_ids: clone_strings(entity_ids),
            type_id: type_id.clone(),
            field_path: field_path.clone(),
            value: json_clone(value),
        },
        Command::ReparentEntity { entity_id, old_parent, new_parent } => Command::ReparentEntity {
            entity_id: entity_id.clone(),
            old_parent: clone_opt_string(old_parent),
            new_parent: clone_opt_string(new_parent),
        },
        Command::RenameEntity { entity_id, old_name, new_name } => Command::RenameEntity {
            entity_id: entity_id.clone(),
            old_name: clone_opt_string(old_name),
            new_name: new_name.clone(),
        },
        Command::Batch { label, commands } => {
            let mut out: Vec<Command> = Vec::new();
            let mut i: usize = 0;
            while i < commands.len()
                invariant
                    (*c)->Batch_commands == *commands,
                    *c is Batch,
                    i <= commands.len(),
                    out.len() == i,
                    forall|k: int| 0 <= k < i ==> (#[trigger] out@[k])@ == commands@[k]@,
                decreases commands.len() - i,
            {
                proof {
                    assert(decreases_to!(*c => (*c)->Batch_commands));
                    assert(decreases_to!((*c)->Batch_commands => (*c)->Batch_commands@));
                    assert(decreases_to!(c => commands@[i as int]));
                }
                out.push(clone_command(&commands[i]));
                i += 1;
            }
            let r = Command::Batch { label: label.clone(), commands: out };
            assert(r@->Batch_commands =~= c@->Batch_commands);
            r
        },
        Command::PlaceInstance {
            instance_id,
            asset_ref,
            asset_version,
            id_map,
            instance_components,
            component_overrides,
            orphaned_component_overrides,
        } => Command::PlaceInstance {
            instance_id: instance_id.clone(),
            asset_ref: asset_ref.clone(),
            asset_version: *asset_version,
            id_map: clone_id_map(id_map),
            instance_components: clone_components(instance_components),
            component_overrides: clone_overrides(component_overrides),
            orphaned_component_overrides: clone_overrides(orphaned_component_overrides),
        },
        Command::RemoveInstance { instance_id } => Command::RemoveInstance { instance_id: instance_id.clone() },
        Command::ReplaceInstanceAsset { instance_id, new_asset_ref, new_asset_version, captured_old } => Command::ReplaceInstanceAsset {
            instance_id: instance_id.clone(),
            new_asset_ref: new_asset_ref.clone(),
            new_asset_version: *new_asset_version,
            captured_old: match captured_old {
                Some(x) => Some(clone_instance(x)),
                None => None,
            },
        },
        Command::UpsertOverride { instance_id, target_local_id, component_type_id, field_path, value } => Command::UpsertOverride {
            instance_id: instance_id.clone(),
            target_local_id: target_local_id.clone(),
            component_type_id: component_type_id.clone(),
            field_path: clone_strings(field_path),
            value: json_clone(value),
        },
        Command::RevertOverride { instance_id, target_local_id, component_type_id, field_path } => Command::RevertOverride {
            instance_id: instance_id.clone(),
            target_local_id: target_local_id.clone(),
            component_type_id: component_type_id.clone(),
            field_path: clone_strings(field_path),
        },
    }
}

/// A copy of command metadata.
pub fn clone_metadata(m: &CommandMetadata) -> (r: CommandMetadata)
    ensures
        r.authorship@ == m.authorship@,
        r.timestamp == m.timestamp,
        opt_view(r.rationale) == opt_view(m.rationale),
{
    CommandMetadata { authorship: m.authorship.clone(), timestamp: m.timestamp, rationale: clone_opt_string(&m.rationale) }
}

} // verus!
