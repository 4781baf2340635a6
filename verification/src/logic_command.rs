//! Commands on logic graphs, with their inverses and their own undo log.
//!
//! Built-in recipe graphs are immutable: every command on them is refused. Otherwise
//! each command either fails without touching the graph, or succeeds and yields the
//! command that undoes it. A batch that fails part-way leaves the graph exactly as it
//! was before it: a batch is one atomic history entry.

use vstd::prelude::*;
use vstd::string::*;
use crate::document::{opt_view, clone_opt_string, clone_strings};
use crate::json::{JsonValue, JsonV, json_clone, json_set_path, json_set_path_exec, strs_view, lemma_set_set_restores};
use crate::logic_graph::{LogicGraphAsset, LogicGraphV, LogicNode, LogicNodeRole, NodeV, LogicEdge, EdgeV, nodes_view, edges_view, has_node, contains_node, clone_node, clone_edge};
use crate::seqs::{first_match, lemma_first_match, lemma_first_match_at, lemma_first_match_none, lemma_first_match_push, lemma_first_match_update};
use crate::history::{History, recorded_entries};
use crate::text::{str_equal, concat3};

verus! {

/// A command on a logic graph.
#[derive(Debug)]
pub enum LogicCommand {
    /// Append a new node.
    AddNode {
        node_id: String,
        role: LogicNodeRole,
        node_type_id: String,
        field_values: JsonValue,
        controller_id: Option<String>,
    },
    /// Remove a node and every edge that touches it.
    RemoveNode { node_id: String },
    /// Connect an output port to an input port (no-op when already connected).
    ConnectPorts { from_node: String, from_port: String, to_node: String, to_port: String },
    /// Remove the first edge between the given ports (no-op when absent).
    DisconnectPorts { from_node: String, from_port: String, to_node: String, to_port: String },
    /// Set one field, addressed by a list of keys, of a node's field values.
    SetNodeField { node_id: String, field_path: Vec<String>, value: JsonValue },
    /// Apply several commands as one history entry.
    Batch { label: String, commands: Vec<LogicCommand> },
}

/// Model of a logic command.
pub enum LogicCommandV {
    AddNode {
        node_id: Seq<char>,
        role: LogicNodeRole,
        node_type_id: Seq<char>,
        field_values: JsonV,
        controller_id: Option<Seq<char>>,
    },
    RemoveNode { node_id: Seq<char> },
    ConnectPorts { from_node: Seq<char>, from_port: Seq<char>, to_node: Seq<char>, to_port: Seq<char> },
    DisconnectPorts { from_node: Seq<char>, from_port: Seq<char>, to_node: Seq<char>, to_port: Seq<char> },
    SetNodeField { node_id: Seq<char>, field_path: Seq<Seq<char>>, value: JsonV },
    Batch { label: Seq<char>, commands: Seq<LogicCommandV> },
}

impl LogicCommand {
    pub open spec fn view(&self) -> LogicCommandV
        decreases self,
    {
        match self {
            LogicCommand::AddNode { node_id, role, node_type_id, field_values, controller_id } => LogicCommandV::AddNode {
                node_id: node_id@,
                role: *role,
                node_type_id: node_type_id@,
                field_values: field_values@,
                controller_id: opt_view(*controller_id),
            },
            LogicCommand::RemoveNode { node_id } => LogicCommandV::RemoveNode { node_id: node_id@ },
            LogicCommand::ConnectPorts { from_node, from_port, to_node, to_port } => LogicCommandV::ConnectPorts {
                from_node: from_node@,
                from_port: from_port@,
                to_node: to_node@,
                to_port: to_port@,
            },
            LogicCommand::DisconnectPorts { from_node, from_port, to_node, to_port } => LogicCommandV::DisconnectPorts {
                from_node: from_node@,
                from_port: from_port@,
                to_node: to_node@,
                to_port: to_port@,
            },
            LogicCommand::SetNodeField { node_id, field_path, value } => LogicCommandV::SetNodeField {
                node_id: node_id@,
                field_path: strs_view(field_path@),
                value: value@,
            },
            LogicCommand::Batch { label, commands } => LogicCommandV::Batch {
                label: label@,
                commands: Seq::new(
                    commands@.len(),
                    |i: int|
                        if 0 <= i < commands@.len() {
                            commands@[i].view()
                        } else {
                            LogicCommandV::RemoveNode { node_id: Seq::empty() }
                        },
                ),
            },
        }
    }
}

/// Errors of logic commands.
#[derive(Debug)]
pub enum LogicCommandError {
    NodeNotFound(String),
    DuplicateNodeId(String),
    EdgeNotFound(String, String, String, String),
    BatchFailed { index: usize, source: Box<LogicCommandError> },
    JsonError(String),
    /// The graph is a built-in recipe; holds its asset id.
    RecipeImmutable(String),
}

/// Model of a logic command error.
pub enum LogicErrV {
    NodeNotFound(Seq<char>),
    DuplicateNodeId(Seq<char>),
    EdgeNotFound(Seq<char>, Seq<char>, Seq<char>, Seq<char>),
    BatchFailed { index: int, source: Box<LogicErrV> },
    JsonError(Seq<char>),
    RecipeImmutable(Seq<char>),
}

impl LogicCommandError {
    pub open spec fn view(&self) -> LogicErrV
        decreases self,
    {
        match self {
            LogicCommandError::NodeNotFound(s) => LogicErrV::NodeNotFound(s@),
            LogicCommandError::DuplicateNodeId(s) => LogicErrV::DuplicateNodeId(s@),
            LogicCommandError::EdgeNotFound(a, b, c, d) => LogicErrV::EdgeNotFound(a@, b@, c@, d@),
            LogicCommandError::BatchFailed { index, source } => LogicErrV::BatchFailed {
                index: *index as int,
                source: Box::new((**source).view()),
            },
            LogicCommandError::JsonError(s) => LogicErrV::JsonError(s@),
            LogicCommandError::RecipeImmutable(s) => LogicErrV::RecipeImmutable(s@),
        }
    }
}

/// The message of a failed field edit: step `k` of `path` failed, because the value
/// there is not an object (`non_object`) or because the key is absent.
pub open spec fn field_edit_message(path: Seq<Seq<char>>, k: int, non_object: bool) -> Seq<char> {
    if path.len() == 0 {
        "Empty field path"@
    } else if !non_object {
        "Field not found: '"@ + path[k] + "'"@
    } else if k < path.len() - 1 {
        "Cannot navigate through non-object at '"@ + path[k] + "'"@
    } else {
        "Cannot set field on non-object at '"@ + path[k] + "'"@
    }
}

/// Set the field at `path` of the JSON object `value` to `new` and return the value it
/// replaced. Every key of the path must exist, each step through an object; otherwise
/// the error says which step failed and `value` is unchanged.
pub fn set_field_path_vec(value: &mut JsonValue, path: &Vec<String>, new: JsonValue) -> (r: Result<JsonValue, LogicCommandError>)
    ensures
        match json_set_path(old(value)@, strs_view(path@), 0, new@) {
            Ok((u, o)) => r is Ok && r->Ok_0@ == o && final(value)@ == u,
            Err((k, b)) => {
                &&& r is Err
                &&& r->Err_0@ == LogicErrV::JsonError(field_edit_message(strs_view(path@), k, b))
                &&& final(value)@ == old(value)@
            },
        },
{
    if path.len() == 0 {
        proof {
            reveal_strlit("Empty field path");
        }
        return Err(LogicCommandError::JsonError(String::from_str("Empty field path")));
    }
    match json_set_path_exec(value, path, 0, new) {
        Ok((u, o)) => {
            *value = u;
            Ok(o)
        },
        Err((k, b)) => {
            proof {
                lemma_set_path_err_bound(value@, strs_view(path@), 0, new@);
            }
            let msg = if !b {
                concat3("Field not found: '", path[k].as_str(), "'")
            } else if k < path.len() - 1 {
                concat3("Cannot navigate through non-object at '", path[k].as_str(), "'")
            } else {
                concat3("Cannot set field on non-object at '", path[k].as_str(), "'")
            };
            assert(strs_view(path@)[k as int] == path@[k as int]@);
            Err(LogicCommandError::JsonError(msg))
        },
    }
}

/// A failing path edit names a step of the path.
proof fn lemma_set_path_err_bound(v: JsonV, path: Seq<Seq<char>>, d: int, new: JsonV)
    requires
        0 <= d < path.len(),
        json_set_path(v, path, d, new) is Err,
    ensures
        d <= json_set_path(v, path, d, new)->Err_0.0 < path.len(),
    decreases path.len() - d,
{
    match v {
        JsonV::Object(es) => {
            let i = first_match(es, crate::json::has_key(path[d]));
            if 0 <= i < es.len() && d + 1 < path.len() {
                lemma_set_path_err_bound(es[i].1, path, d + 1, new);
            }
        },
        _ => {},
    }
}

/// Predicate "this node has id `id`".
pub open spec fn nid_is(id: Seq<char>) -> spec_fn(NodeV) -> bool {
    |n: NodeV| n.node_id == id
}

/// Predicate "this edge joins exactly these ports".
pub open spec fn edge_is(f: Seq<char>, fp: Seq<char>, t: Seq<char>, tp: Seq<char>) -> spec_fn(EdgeV) -> bool {
    |e: EdgeV| e.from_node == f && e.from_port == fp && e.to_node == t && e.to_port == tp
}

/// The first `n` edges of `es` that do not touch node `id`, in order.
pub open spec fn edges_without(es: Seq<EdgeV>, id: Seq<char>, n: int) -> Seq<EdgeV>
    decreases n,
{
    if n <= 0 || n > es.len() {
        Seq::empty()
    } else {
        let p = edges_without(es, id, n - 1);
        if es[n - 1].from_node != id && es[n - 1].to_node != id {
            p.push(es[n - 1])
        } else {
            p
        }
    }
}

/// How deeply batches nest in `c`: 0 for a plain command.
pub open spec fn logic_depth(c: LogicCommandV) -> nat
    decreases c, 0int,
{
    match c {
        LogicCommandV::Batch { commands, .. } => 1 + logic_max_depth(commands, commands.len() as int),
        _ => 0,
    }
}

/// The largest depth among the first `n` commands of `cs`.
pub open spec fn logic_max_depth(cs: Seq<LogicCommandV>, n: int) -> nat
    decreases cs, n,
{
    if n <= 0 || n > cs.len() {
        0
    } else {
        let a = logic_max_depth(cs, n - 1);
        let b = logic_depth(cs[n - 1]);
        if a >= b { a } else { b }
    }
}

proof fn lemma_logic_max_depth(cs: Seq<LogicCommandV>, n: int, k: int)
    requires
        0 <= k < n <= cs.len(),
    ensures
        logic_depth(cs[k]) <= logic_max_depth(cs, n),
    decreases n,
{
    if k < n - 1 {
        lemma_logic_max_depth(cs, n - 1, k);
    }
}

proof fn lemma_logic_max_depth_bound(cs: Seq<LogicCommandV>, n: int, b: nat)
    requires
        n <= cs.len(),
        forall|k: int| 0 <= k < n ==> logic_depth(#[trigger] cs[k]) <= b,
    ensures
        logic_max_depth(cs, n) <= b,
    decreases n,
{
    if n > 0 {
        lemma_logic_max_depth_bound(cs, n - 1, b);
    }
}

/// Applying `c` to the graph `g`: the graph afterwards, and the inverse command or the
/// error. Only the nodes and edges ever change, and a command that fails, a batch
/// included, leaves the graph as it was. `fuel` is carried through nested batches and
/// does not change the result.
pub open spec fn spec_logic_apply(g: LogicGraphV, c: LogicCommandV, fuel: nat) -> (LogicGraphV, Result<LogicCommandV, LogicErrV>)
    decreases fuel, c, 0int,
{
    if g.builtin {
        (g, Err(LogicErrV::RecipeImmutable(g.asset_id)))
    } else {
        match c {
            LogicCommandV::AddNode { node_id, role, node_type_id, field_values, controller_id } => {
                if has_node(g.nodes, node_id) {
                    (g, Err(LogicErrV::DuplicateNodeId(node_id)))
                } else {
                    (
                        LogicGraphV { nodes: g.nodes.push(NodeV { node_id, role, node_type_id, field_values, controller_id }), ..g },
                        Ok(LogicCommandV::RemoveNode { node_id }),
                    )
                }
            },
            LogicCommandV::RemoveNode { node_id } => {
                let i = first_match(g.nodes, nid_is(node_id));
                if i < 0 {
                    (g, Err(LogicErrV::NodeNotFound(node_id)))
                } else {
                    let n = g.nodes[i];
                    (
                        LogicGraphV {
                            nodes: g.nodes.remove(i),
                            edges: edges_without(g.edges, node_id, g.edges.len() as int),
                            ..g
                        },
                        Ok(LogicCommandV::AddNode {
                            node_id: n.node_id,
                            role: n.role,
                            node_type_id: n.node_type_id,
                            field_values: n.field_values,
                            controller_id: n.controller_id,
                        }),
                    )
                }
            },
            LogicCommandV::ConnectPorts { from_node, from_port, to_node, to_port } => {
                if !has_node(g.nodes, from_node) {
                    (g, Err(LogicErrV::NodeNotFound(from_node)))
                } else if !has_node(g.nodes, to_node) {
                    (g, Err(LogicErrV::NodeNotFound(to_node)))
                } else {
                    let dup = first_match(g.edges, edge_is(from_node, from_port, to_node, to_port)) >= 0;
                    (
                        if dup {
                            g
                        } else {
                            LogicGraphV { edges: g.edges.push(EdgeV { from_node, from_port, to_node, to_port }), ..g }
                        },
                        Ok(LogicCommandV::DisconnectPorts { from_node, from_port, to_node, to_port }),
                    )
                }
            },
            LogicCommandV::DisconnectPorts { from_node, from_port, to_node, to_port } => {
                if !has_node(g.nodes, from_node) {
                    (g, Err(LogicErrV::NodeNotFound(from_node)))
                } else if !has_node(g.nodes, to_node) {
                    (g, Err(LogicErrV::NodeNotFound(to_node)))
                } else {
                    let j = first_match(g.edges, edge_is(from_node, from_port, to_node, to_port));
                    if j < 0 {
                        (g, Ok(LogicCommandV::DisconnectPorts { from_node, from_port, to_node, to_port }))
                    } else {
                        let e = g.edges[j];
                        (
                            LogicGraphV { edges: g.edges.remove(j), ..g },
                            Ok(LogicCommandV::ConnectPorts {
                                from_node: e.from_node,
                                from_port: e.from_port,
                                to_node: e.to_node,
                                to_port: e.to_port,
                            }),
                        )
                    }
                }
            },
            LogicCommandV::SetNodeField { node_id, field_path, value } => {
                let i = first_match(g.nodes, nid_is(node_id));
                if i < 0 {
                    (g, Err(LogicErrV::NodeNotFound(node_id)))
                } else {
                    match json_set_path(g.nodes[i].field_values, field_path, 0, value) {
                        Ok((u, old)) => (
                            LogicGraphV { nodes: g.nodes.update(i, NodeV { field_values: u, ..g.nodes[i] }), ..g },
                            Ok(LogicCommandV::SetNodeField { node_id, field_path, value: old }),
                        ),
                        Err((k, b)) => (g, Err(LogicErrV::JsonError(field_edit_message(field_path, k, b)))),
                    }
                }
            },
            LogicCommandV::Batch { commands, .. } => {
                let (g1, r) = logic_batch_run(g, commands, 0, Seq::empty(), fuel);
                match r {
                    Ok(invs) => (g1, Ok(LogicCommandV::Batch { label: "inverse"@, commands: invs.reverse() })),
                    Err((i, e)) => (g, Err(LogicErrV::BatchFailed { index: i, source: Box::new(e) })),
                }
            },
        }
    }
}

/// Running the commands `cs[k..]` of a batch after the ones that produced the inverses
/// `invs`: the graph afterwards, and all inverses in order of application, or the
/// failing index and error.
pub open spec fn logic_batch_run(
    g: LogicGraphV,
    cs: Seq<LogicCommandV>,
    k: int,
    invs: Seq<LogicCommandV>,
    fuel: nat,
) -> (LogicGraphV, Result<Seq<LogicCommandV>, (int, LogicErrV)>)
    decreases fuel, cs, cs.len() - k,
{
    if k < 0 || k >= cs.len() {
        (g, Ok(invs))
    } else {
        let (g1, r) = spec_logic_apply(g, cs[k], fuel);
        match r {
            Ok(inv) => logic_batch_run(g1, cs, k + 1, invs.push(inv), fuel),
            Err(e) => (g1, Err((k, e))),
        }
    }
}

/// A command that fails, a batch included, leaves the graph as it was.
pub proof fn lemma_failed_logic_apply_keeps_graph(g: LogicGraphV, c: LogicCommandV, fuel: nat)
    ensures
        spec_logic_apply(g, c, fuel).1 is Err ==> spec_logic_apply(g, c, fuel).0 == g,
{
}

/// The models of a list of logic commands.
pub open spec fn logic_cmds_view(cs: Seq<LogicCommand>) -> Seq<LogicCommandV> {
    cs.map_values(|c: LogicCommand| c@)
}

/// The view of an apply result.
pub open spec fn logic_res_view(r: Result<LogicCommand, LogicCommandError>) -> Result<LogicCommandV, LogicErrV> {
    match r {
        Ok(c) => Ok(c@),
        Err(e) => Err(e@),
    }
}

/// Position of the node with id `id`.
pub fn find_node_index(ns: &Vec<LogicNode>, id: &str) -> (r: Option<usize>)
    ensures
        match r {
            Some(i) => first_match(nodes_view(ns@), nid_is(id@)) == i && i < ns.len(),
            None => first_match(nodes_view(ns@), nid_is(id@)) == -1,
        },
{
    let ghost nv = nodes_view(ns@);
    let mut i: usize = 0;
    while i < ns.len()
        invariant
            nv == nodes_view(ns@),
            i <= ns.len(),
            forall|j: int| 0 <= j < i ==> !nid_is(id@)(#[trigger] nv[j]),
        decreases ns.len() - i,
    {
        if str_equal(ns[i].node_id.as_str(), id) {
            proof {
                lemma_first_match_at(nv, nid_is(id@), i as int);
            }
            return Some(i);
        }
        i += 1;
    }
    proof {
        lemma_first_match_none(nv, nid_is(id@));
    }
    None
}

/// Position of the first edge joining exactly the given ports.
fn find_edge_index(es: &Vec<LogicEdge>, f: &str, fp: &str, t: &str, tp: &str) -> (r: Option<usize>)
    ensures
        match r {
            Some(i) => first_match(edges_view(es@), edge_is(f@, fp@, t@, tp@)) == i && i < es.len(),
            None => first_match(edges_view(es@), edge_is(f@, fp@, t@, tp@)) == -1,
        },
{
    let ghost ev = edges_view(es@);
    let ghost p = edge_is(f@, fp@, t@, tp@);
    let mut i: usize = 0;
    while i < es.len()
        invariant
            ev == edges_view(es@),
            p == edge_is(f@, fp@, t@, tp@),
            i <= es.len(),
            forall|j: int| 0 <= j < i ==> !p(#[trigger] ev[j]),
        decreases es.len() - i,
    {
        let e = &es[i];
        if str_equal(e.from_node.as_str(), f) && str_equal(e.from_port.as_str(), fp) && str_equal(e.to_node.as_str(), t)
            && str_equal(e.to_port.as_str(), tp) {
            proof {
                lemma_first_match_at(ev, p, i as int);
            }
            return Some(i);
        }
        i += 1;
    }
    proof {
        lemma_first_match_none(ev, p);
    }
    None
}

/// The edges of `es` that do not touch node `id`, in order.
fn retain_edges_without(es: &Vec<LogicEdge>, id: &str) -> (r: Vec<LogicEdge>)
    ensures
        edges_view(r@) == edges_without(edges_view(es@), id@, es@.len() as int),
{
    let ghost ev = edges_view(es@);
    let mut out: Vec<LogicEdge> = Vec::new();
    let mut i: usize = 0;
    while i < es.len()
        invariant
            ev == edges_view(es@),
            i <= es.len(),
            edges_view(out@) == edges_without(ev, id@, i as int),
        decreases es.len() - i,
    {
        let ghost prev = edges_view(out@);
        let e = &es[i];
        assert(e@ == ev[i as int]);
        if !str_equal(e.from_node.as_str(), id) && !str_equal(e.to_node.as_str(), id) {
            out.push(LogicEdge {
                from_node: e.from_node.clone(),
                from_port: e.from_port.clone(),
                to_node: e.to_node.clone(),
                to_port: e.to_port.clone(),
            });
            assert(edges_view(out@) =~= prev.push(ev[i as int]));
        }
        i += 1;
    }
    out
}

/// A deep copy of a logic command.
pub fn clone_logic_command(c: &LogicCommand) -> (r: LogicCommand)
    ensures
        r@ == c@,
    decreases c,
{
    match c {
        LogicCommand::AddNode { node_id, role, node_type_id, field_values, controller_id } => LogicCommand::AddNode {
            node_id: node_id.clone(),
            role: *role,
            node_type_id: node_type_id.clone(),
            field_values: json_clone(field_values),
            controller_id: clone_opt_string(controller_id),
        },
        LogicCommand::RemoveNode { node_id } => LogicCommand::RemoveNode { node_id: node_id.clone() },
        LogicCommand::ConnectPorts { from_node, from_port, to_node, to_port } => LogicCommand::ConnectPorts {
            from_node: from_node.clone(),
            from_port: from_port.clone(),
            to_node: to_node.clone(),
            to_port: to_port.clone(),
        },
        LogicCommand::DisconnectPorts { from_node, from_port, to_node, to_port } => LogicCommand::DisconnectPorts {
            from_node: from_node.clone(),
            from_port: from_port.clone(),
            to_node: to_node.clone(),
            to_port: to_port.clone(),
        },
        LogicCommand::SetNodeField { node_id, field_path, value } => LogicCommand::SetNodeField {
            node_id: node_id.clone(),
            field_path: clone_strings(field_path),
            value: json_clone(value),
        },
        LogicCommand::Batch { label, commands } => {
            let mut out: Vec<LogicCommand> = Vec::new();
            let mut i: usize = 0;
            while i < commands.len()
                invariant
                    (*c)->Batch_commands == *commands,
                    *c is Batch,
                    i <= commands.len(),
                    out.len() == i,
                    forall|k: int| 0 <= k < i ==> (#[trigger] out@[k])@ == commands@[k]@,
                decreases commands.len() - i,
            {
                proof {
                    assert(decreases_to!(*c => (*c)->Batch_commands));
                    assert(decreases_to!((*c)->Batch_commands => (*c)->Batch_commands@));
                    assert(decreases_to!(c => commands@[i as int]));
                }
                out.push(clone_logic_command(&commands[i]));
                i += 1;
            }
            let r = LogicCommand::Batch { label: label.clone(), commands: out };
            assert(r@->Batch_commands =~= c@->Batch_commands);
            r
        },
    }
}

/// Apply a node-level command (add, remove, set a field) to a mutable graph.
fn apply_node_command(doc: &mut LogicGraphAsset, cmd: &LogicCommand) -> (r: Result<LogicCommand, LogicCommandError>)
    requires
        !old(doc).builtin,
        cmd is AddNode || cmd is RemoveNode || cmd is SetNodeField,
    ensures
        spec_logic_apply(old(doc)@, cmd@, 0) == (final(doc)@, logic_res_view(r)),
        r is Ok ==> logic_depth(r->Ok_0@) == 0,
        final(doc).builtin == old(doc).builtin,
        final(doc).asset_id == old(doc).asset_id,
        final(doc).logical_path == old(doc).logical_path,
        final(doc).version == old(doc).version,
{
    let ghost g0 = doc@;
    match cmd {
        LogicCommand::AddNode { node_id, role, node_type_id, field_values, controller_id } => {
            if contains_node(&doc.nodes, node_id.as_str()) {
                return Err(LogicCommandError::DuplicateNodeId(node_id.clone()));
            }
            doc.nodes.push(LogicNode {
                node_id: node_id.clone(),
                role: *role,
                node_type_id: node_type_id.clone(),
                field_values: json_clone(field_values),
                controller_id: clone_opt_string(controller_id),
            });
            assert(nodes_view(doc.nodes@) =~= g0.nodes.push(
                NodeV {
                    node_id: node_id@,
                    role: *role,
                    node_type_id: node_type_id@,
                    field_values: field_values@,
                    controller_id: opt_view(*controller_id),
                },
            ));
            Ok(LogicCommand::RemoveNode { node_id: node_id.clone() })
        },
        LogicCommand::RemoveNode { node_id } => {
            match find_node_index(&doc.nodes, node_id.as_str()) {
                None => Err(LogicCommandError::NodeNotFound(node_id.clone())),
                Some(i) => {
                    let removed = doc.nodes.remove(i);
                    assert(nodes_view(doc.nodes@) =~= g0.nodes.remove(i as int));
                    let kept = retain_edges_without(&doc.edges, node_id.as_str());
                    doc.edges = kept;
                    Ok(LogicCommand::AddNode {
                        node_id: removed.node_id,
                        role: removed.role,
                        node_type_id: removed.node_type_id,
                        field_values: removed.field_values,
                        controller_id: removed.controller_id,
                    })
                },
            }
        },
        LogicCommand::SetNodeField { node_id, field_path, value } => {
            match find_node_index(&doc.nodes, node_id.as_str()) {
                None => Err(LogicCommandError::NodeNotFound(node_id.clone())),
                Some(i) => {
                    let mut n = doc.nodes.remove(i);
                    let res = set_field_path_vec(&mut n.field_values, field_path, json_clone(value));
                    let ghost nv = n@;
                    doc.nodes.insert(i, n);
                    match res {
                        Ok(old) => {
                            assert(nodes_view(doc.nodes@) =~= g0.nodes.update(i as int, nv));
                            Ok(LogicCommand::SetNodeField { node_id: node_id.clone(), field_path: clone_strings(field_path), value: old })
                        },
                        Err(e) => {
                            assert(nodes_view(doc.nodes@) =~= g0.nodes);
                            Err(e)
                        },
                    }
                },
            }
        },
        _ => {
            proof {
                assert(false);
            }
            Err(LogicCommandError::JsonError(String::new()))
        },
    }
}

/// Apply an edge-level command (connect, disconnect) to a mutable graph.
fn apply_edge_command(doc: &mut LogicGraphAsset, cmd: &LogicCommand) -> (r: Result<LogicCommand, LogicCommandError>)
    requires
        !old(doc).builtin,
        cmd is ConnectPorts || cmd is DisconnectPorts,
    ensures
        spec_logic_apply(old(doc)@, cmd@, 0) == (final(doc)@, logic_res_view(r)),
        r is Ok ==> logic_depth(r->Ok_0@) == 0,
        final(doc).builtin == old(doc).builtin,
        final(doc).asset_id == old(doc).asset_id,
        final(doc).logical_path == old(doc).logical_path,
        final(doc).version == old(doc).version,
{
    let ghost g0 = doc@;
    match cmd {
        LogicCommand::ConnectPorts { from_node, from_port, to_node, to_port } => {
            if !contains_node(&doc.nodes, from_node.as_str()) {
                return Err(LogicCommandError::NodeNotFound(from_node.clone()));
            }
            if !contains_node(&doc.nodes, to_node.as_str()) {
                return Err(LogicCommandError::NodeNotFound(to_node.clone()));
            }
            match find_edge_index(&doc.edges, from_node.as_str(), from_port.as_str(), to_node.as_str(), to_port.as_str()) {
                Some(_) => {},
                None => {
                    doc.edges.push(LogicEdge {
                        from_node: from_node.clone(),
                        from_port: from_port.clone(),
                        to_node: to_node.clone(),
                        to_port: to_port.clone(),
                    });
                    assert(edges_view(doc.edges@) =~= g0.edges.push(
                        EdgeV { from_node: from_node@, from_port: from_port@, to_node: to_node@, to_port: to_port@ },
                    ));
                },
            }
            Ok(LogicCommand::DisconnectPorts {
                from_node: from_node.clone(),
                from_port: from_port.clone(),
                to_node: to_node.clone(),
                to_port: to_port.clone(),
            })
        },
        LogicCommand::DisconnectPorts { from_node, from_port, to_node, to_port } => {
            if !contains_node(&doc.nodes, from_node.as_str()) {
                return Err(LogicCommandError::NodeNotFound(from_node.clone()));
            }
            if !contains_node(&doc.nodes, to_node.as_str()) {
                return Err(LogicCommandError::NodeNotFound(to_node.clone()));
            }
            match find_edge_index(&doc.edges, from_node.as_str(), from_port.as_str(), to_node.as_str(), to_port.as_str()) {
                Some(j) => {
                    let removed = doc.edges.remove(j);
                    assert(edges_view(doc.edges@) =~= g0.edges.remove(j as int));
                    Ok(LogicCommand::ConnectPorts {
                        from_node: removed.from_node,
                        from_port: removed.from_port,
                        to_node: removed.to_node,
                        to_port: removed.to_port,
                    })
                },
                None => Ok(LogicCommand::DisconnectPorts {
                    from_node: from_node.clone(),
                    from_port: from_port.clone(),
                    to_node: to_node.clone(),
                    to_port: to_port.clone(),
                }),
            }
        },
        _ => {
            proof {
                assert(false);
            }
            Err(LogicCommandError::JsonError(String::new()))
        },
    }
}

/// Apply `cmd` to the graph; `fuel` bounds the nesting of batches.
fn apply_graph(doc: &mut LogicGraphAsset, cmd: &LogicCommand, Ghost(fuel): Ghost<nat>) -> (r: Result<LogicCommand, LogicCommandError>)
    requires
        fuel >= logic_depth(cmd@),
    ensures
        spec_logic_apply(old(doc)@, cmd@, fuel) == (final(doc)@, logic_res_view(r)),
        r is Ok ==> logic_depth(r->Ok_0@) <= logic_depth(cmd@),
        final(doc).builtin == old(doc).builtin,
        final(doc).asset_id == old(doc).asset_id,
        final(doc).logical_path == old(doc).logical_path,
        final(doc).version == old(doc).version,
    decreases logic_depth(cmd@), 2int,
{
    if doc.builtin {
        return Err(LogicCommandError::RecipeImmutable(doc.asset_id.clone()));
    }
    match cmd {
        LogicCommand::AddNode { .. } => apply_node_command(doc, cmd),
        LogicCommand::RemoveNode { .. } => apply_node_command(doc, cmd),
        LogicCommand::SetNodeField { .. } => apply_node_command(doc, cmd),
        LogicCommand::ConnectPorts { .. } => apply_edge_command(doc, cmd),
        LogicCommand::DisconnectPorts { .. } => apply_edge_command(doc, cmd),
        LogicCommand::Batch { .. } => apply_logic_batch(doc, cmd, Ghost(fuel)),
    }
}

/// A copy of the nodes.
fn clone_nodes(v: &Vec<LogicNode>) -> (r: Vec<LogicNode>)
    ensures
        nodes_view(r@) == nodes_view(v@),
{
    let mut out: Vec<LogicNode> = Vec::new();
    let mut i: usize = 0;
    while i < v.len()
        invariant
            i <= v.len(),
            nodes_view(out@) == nodes_view(v@).subrange(0, i as int),
        decreases v.len() - i,
    {
        let ghost before = nodes_view(out@);
        let c = clone_node(&v[i]);
        out.push(c);
        assert(nodes_view(out@) =~= before.push(v@[i as int]@));
        assert(nodes_view(out@) =~= nodes_view(v@).subrange(0, i + 1));
        i += 1;
    }
    assert(nodes_view(v@).subrange(0, v.len() as int) =~= nodes_view(v@));
    out
}

/// A copy of the edges.
fn clone_edges(v: &Vec<LogicEdge>) -> (r: Vec<LogicEdge>)
    ensures
        edges_view(r@) == edges_view(v@),
{
    let mut out: Vec<LogicEdge> = Vec::new();
    let mut i: usize = 0;
    while i < v.len()
        invariant
            i <= v.len(),
            edges_view(out@) == edges_view(v@).subrange(0, i as int),
        decreases v.len() - i,
    {
        let ghost before = edges_view(out@);
        let c = clone_edge(&v[i]);
        out.push(c);
        assert(edges_view(out@) =~= before.push(v@[i as int]@));
        assert(edges_view(out@) =~= edges_view(v@).subrange(0, i + 1));
        i += 1;
    }
    assert(edges_view(v@).subrange(0, v.len() as int) =~= edges_view(v@));
    out
}

/// Apply the batch `cmd` to a mutable graph.
fn apply_logic_batch(doc: &mut LogicGraphAsset, cmd: &LogicCommand, Ghost(fuel): Ghost<nat>) -> (r: Result<LogicCommand, LogicCommandError>)
    requires
        !old(doc).builtin,
        cmd is Batch,
        fuel >= logic_depth(cmd@),
    ensures
        spec_logic_apply(old(doc)@, cmd@, fuel) == (final(doc)@, logic_res_view(r)),
        r is Ok ==> logic_depth(r->Ok_0@) <= logic_depth(cmd@),
        final(doc).builtin == old(doc).builtin,
        final(doc).asset_id == old(doc).asset_id,
        final(doc).logical_path == old(doc).logical_path,
        final(doc).version == old(doc).version,
    decreases logic_depth(cmd@), 1int,
{
    let ghost g0 = doc@;
    match cmd {
        LogicCommand::Batch { commands, .. } => {
            let ghost cs = cmd@->Batch_commands;
            let ghost d = logic_depth(cmd@);
            let saved_nodes = clone_nodes(&doc.nodes);
            let saved_edges = clone_edges(&doc.edges);
            let mut inverses: Vec<LogicCommand> = Vec::new();
            let mut i: usize = 0;
            assert(logic_cmds_view(inverses@) =~= Seq::<LogicCommandV>::empty());
            while i < commands.len()
                invariant
                    (*cmd)->Batch_commands == *commands,
                    *cmd is Batch,
                    cmd@ is Batch,
                    cs == cmd@->Batch_commands,
                    cs.len() == commands@.len(),
                    forall|k: int| 0 <= k < cs.len() ==> cs[k] == (#[trigger] commands@[k])@,
                    d == logic_depth(cmd@),
                    d == 1 + logic_max_depth(cs, cs.len() as int),
                    fuel >= d,
                    g0 == old(doc)@,
                    nodes_view(saved_nodes@) == g0.nodes,
                    edges_view(saved_edges@) == g0.edges,
                    !g0.builtin,
                    doc.builtin == old(doc).builtin,
                    doc.asset_id == old(doc).asset_id,
                    doc.logical_path == old(doc).logical_path,
                    doc.version == old(doc).version,
                    i <= commands.len(),
                    inverses.len() == i,
                    forall|k: int| 0 <= k < i ==> logic_depth(#[trigger] inverses@[k]@) <= d - 1,
                    logic_batch_run(g0, cs, 0, Seq::empty(), fuel) == logic_batch_run(doc@, cs, i as int, logic_cmds_view(inverses@), fuel),
                decreases commands.len() - i,
            {
                proof {
                    lemma_logic_max_depth(cs, cs.len() as int, i as int);
                    assert(cs[i as int] == commands@[i as int]@);
                }
                let ghost ivs = logic_cmds_view(inverses@);
                let ghost before = doc@;
                match apply_graph(doc, &commands[i], Ghost(fuel)) {
                    Ok(inv) => {
                        inverses.push(inv);
                        assert(logic_cmds_view(inverses@) =~= ivs.push(inverses@[i as int]@));
                    },
                    Err(e) => {
                        let ghost failed = doc@;
                        doc.nodes = saved_nodes;
                        doc.edges = saved_edges;
                        assert(doc@ == g0);
                        let ghost ev = e@;
                        assert(spec_logic_apply(before, cs[i as int], fuel) == (failed, Err::<LogicCommandV, LogicErrV>(ev)));
                        let er = LogicCommandError::BatchFailed { index: i, source: Box::new(e) };
                        assert(er@ == LogicErrV::BatchFailed { index: i as int, source: Box::new(ev) });
                        assert(spec_logic_apply(g0, cmd@, fuel) == (doc@, Err::<LogicCommandV, LogicErrV>(er@)));
                        return Err(er);
                    },
                }
                i += 1;
            }
            let ghost ivs = logic_cmds_view(inverses@);
            let ghost n = inverses.len();
            let mut out: Vec<LogicCommand> = Vec::new();
            while inverses.len() > 0
                invariant
                    inverses.len() + out.len() == n,
                    ivs.len() == n,
                    logic_cmds_view(inverses@) == ivs.subrange(0, inverses.len() as int),
                    forall|k: int| 0 <= k < out.len() ==> (#[trigger] out@[k])@ == ivs[n - 1 - k],
                decreases inverses.len(),
            {
                let ghost before = inverses@;
                let ghost m = inverses.len();
                match inverses.pop() {
                    Some(x) => {
                        assert(logic_cmds_view(before)[m - 1] == ivs[m - 1]);
                        assert(x@ == ivs[m - 1]);
                        out.push(x);
                        assert(logic_cmds_view(inverses@) =~= ivs.subrange(0, inverses.len() as int));
                    },
                    None => {},
                }
            }
            let r = LogicCommand::Batch { label: String::from_str("inverse"), commands: out };
            proof {
                reveal_strlit("inverse");
                assert(r@->Batch_commands =~= ivs.reverse());
                assert forall|k: int| 0 <= k < ivs.reverse().len() implies logic_depth(#[trigger] ivs.reverse()[k]) <= d - 1 by {
                    assert(ivs.reverse()[k] == ivs[n - 1 - k]);
                }
                lemma_logic_max_depth_bound(ivs.reverse(), ivs.reverse().len() as int, (d - 1) as nat);
            }
            Ok(r)
        },
        _ => {
            proof {
                assert(false);
            }
            Err(LogicCommandError::JsonError(String::new()))
        },
    }
}

/// Apply `cmd` to the logic graph and return the command that undoes it. A built-in
/// recipe is refused whole. Only the nodes and edges change. A command that fails, a
/// batch included, leaves the graph unchanged.
pub fn apply(doc: &mut LogicGraphAsset, cmd: &LogicCommand) -> (r: Result<LogicCommand, LogicCommandError>)
    ensures
        spec_logic_apply(old(doc)@, cmd@, logic_depth(cmd@)) == (final(doc)@, logic_res_view(r)),
        r is Err ==> final(doc)@ == old(doc)@,
{
    proof {
        lemma_failed_logic_apply_keeps_graph(doc@, cmd@, logic_depth(cmd@));
    }
    apply_graph(doc, cmd, Ghost(logic_depth(cmd@)))
}

/// One entry of the logic operation log.
#[derive(Debug)]
pub struct LogicLogEntry {
    pub forward: LogicCommand,
    pub inverse: LogicCommand,
}

/// The models of log entries: each entry's command and inverse.
pub open spec fn logic_entries_view(es: Seq<LogicLogEntry>) -> Seq<(LogicCommandV, LogicCommandV)> {
    es.map_values(|e: LogicLogEntry| (e.forward@, e.inverse@))
}

/// Undo/redo history of the commands applied to one logic graph.
#[derive(Debug)]
pub struct LogicOperationLog {
    history: History<LogicLogEntry>,
}

impl LogicOperationLog {
    /// The recorded commands and inverses, oldest first.
    pub closed spec fn entries(&self) -> Seq<(LogicCommandV, LogicCommandV)> {
        logic_entries_view(self.history.entries())
    }

    /// Index of the last applied entry; -1 when every entry is undone.
    pub closed spec fn cursor(&self) -> int {
        self.history.cursor()
    }

    /// The maximum number of entries kept.
    pub closed spec fn max_size(&self) -> nat {
        self.history.max_size()
    }

    /// The log is consistent: the cursor lies in `-1 .. len` and at most `max_size`
    /// entries are held.
    pub closed spec fn wf(&self) -> bool {
        self.history.wf()
    }

    /// The facts `wf` stands for.
    pub proof fn lemma_wf(&self)
        requires
            self.wf(),
        ensures
            -1 <= self.cursor() < self.entries().len(),
            self.entries().len() <= self.max_size(),
            self.entries().len() <= isize::MAX,
    {
    }

    /// An empty log keeping at most `max_size` entries.
    pub fn with_max_size(max_size: usize) -> (r: LogicOperationLog)
        ensures
            r.wf(),
            r.entries() == Seq::<(LogicCommandV, LogicCommandV)>::empty(),
            r.cursor() == -1,
            r.max_size() == max_size,
    {
        let r = LogicOperationLog { history: History::with_max_size(max_size) };
        assert(r.entries() =~= Seq::<(LogicCommandV, LogicCommandV)>::empty());
        r
    }

    /// An empty log keeping at most 1000 entries.
    pub fn new() -> (r: LogicOperationLog)
        ensures
            r.wf(),
            r.entries() == Seq::<(LogicCommandV, LogicCommandV)>::empty(),
            r.cursor() == -1,
            r.max_size() == 1000,
    {
        Self::with_max_size(1000)
    }

    /// The same empty log as `new`, for initialising shared state.
    pub fn new_const() -> (r: LogicOperationLog)
        ensures
            r.wf(),
            r.entries() == Seq::<(LogicCommandV, LogicCommandV)>::empty(),
            r.cursor() == -1,
            r.max_size() == 1000,
    {
        Self::with_max_size(1000)
    }

    /// Record a command that was just applied, with its inverse.
    pub fn record(&mut self, forward: &LogicCommand, inverse: LogicCommand)
        requires
            old(self).wf(),
            old(self).entries().len() < isize::MAX,
        ensures
            final(self).wf(),
            final(self).entries() == recorded_entries(old(self).entries(), old(self).cursor(), old(self).max_size(), (forward@, inverse@)),
            final(self).cursor() == final(self).entries().len() - 1,
            final(self).max_size() == old(self).max_size(),
    {
        let e = LogicLogEntry { forward: clone_logic_command(forward), inverse };
        proof {
            let es = self.history.entries();
            let c = self.history.cursor();
            let max = self.history.max_size();
            let kept = if c < es.len() - 1 { es.subrange(0, c + 1) } else { es };
            let kv = if c < es.len() - 1 { logic_entries_view(es).subrange(0, c + 1) } else { logic_entries_view(es) };
            assert(logic_entries_view(kept) =~= kv);
            let pushed = kept.push(e);
            assert(logic_entries_view(pushed) =~= kv.push((forward@, inverse@)));
            if pushed.len() > max {
                assert(logic_entries_view(pushed.subrange(pushed.len() - max, pushed.len() as int)) =~= kv.push(
                    (forward@, inverse@),
                ).subrange(pushed.len() - max, pushed.len() as int));
            }
        }
        self.history.record(e);
    }

    /// Undo the entry at the cursor: apply its inverse to `doc` and move the cursor back.
    /// When the inverse fails the cursor stays, and so does the graph: a failed apply changes nothing.
    pub fn undo(&mut self, doc: &mut LogicGraphAsset) -> (r: Result<(), LogicCommandError>)
        requires
            old(self).wf(),
        ensures
            final(self).wf(),
            final(self).entries() == old(self).entries(),
            final(self).max_size() == old(self).max_size(),
            old(self).cursor() < 0 ==> {
                &&& r is Err
                &&& r->Err_0@ == LogicErrV::JsonError("Nothing to undo"@)
                &&& *final(doc) == *old(doc)
                &&& final(self).cursor() == old(self).cursor()
            },
            old(self).cursor() >= 0 ==> {
                let inv = old(self).entries()[old(self).cursor()].1;
                let (g1, res) = spec_logic_apply(old(doc)@, inv, logic_depth(inv));
                &&& final(doc)@ == g1
                &&& match r {
                    Ok(_) => res is Ok && final(self).cursor() == old(self).cursor() - 1,
                    Err(e) => res == Err::<LogicCommandV, LogicErrV>(e@) && final(self).cursor() == old(self).cursor(),
                }
            },
    {
        if !self.history.can_undo() {
            return Err(LogicCommandError::JsonError(String::from_str("Nothing to undo")));
        }
        let entry = self.history.current();
        assert((entry.forward@, entry.inverse@) == self.entries()[self.cursor()]);
        match apply(doc, &entry.inverse) {
            Err(e) => Err(e),
            Ok(_) => {
                self.history.step_back();
                Ok(())
            },
        }
    }

    /// Redo the entry after the cursor: move the cursor forward and apply that entry's
    /// command to `doc`. When the command fails the cursor stays moved.
    pub fn redo(&mut self, doc: &mut LogicGraphAsset) -> (r: Result<(), LogicCommandError>)
        requires
            old(self).wf(),
        ensures
            final(self).wf(),
            final(self).entries() == old(self).entries(),
            final(self).max_size() == old(self).max_size(),
            old(self).cursor() >= old(self).entries().len() - 1 ==> {
                &&& r is Err
                &&& r->Err_0@ == LogicErrV::JsonError("Nothing to redo"@)
                &&& *final(doc) == *old(doc)
                &&& final(self).cursor() == old(self).cursor()
            },
            old(self).cursor() < old(self).entries().len() - 1 ==> {
                let fwd = old(self).entries()[old(self).cursor() + 1].0;
                let (g1, res) = spec_logic_apply(old(doc)@, fwd, logic_depth(fwd));
                &&& final(doc)@ == g1
                &&& final(self).cursor() == old(self).cursor() + 1
                &&& match r {
                    Ok(_) => res is Ok,
                    Err(e) => res == Err::<LogicCommandV, LogicErrV>(e@),
                }
            },
    {
        if !self.history.can_redo() {
            return Err(LogicCommandError::JsonError(String::from_str("Nothing to redo")));
        }
        self.history.step_forward();
        let entry = self.history.current();
        assert((entry.forward@, entry.inverse@) == self.entries()[self.cursor()]);
        match apply(doc, &entry.forward) {
            Err(e) => Err(e),
            Ok(_) => Ok(()),
        }
    }

    /// Whether an entry can be undone.
    pub fn can_undo(&self) -> (r: bool)
        ensures
            r == (self.cursor() >= 0),
    {
        self.history.can_undo()
    }

    /// Whether an entry can be redone.
    pub fn can_redo(&self) -> (r: bool)
        requires
            self.wf(),
        ensures
            r == (self.cursor() < self.entries().len() - 1),
    {
        self.history.can_redo()
    }

    /// Number of entries held.
    pub fn get_log_size(&self) -> (r: usize)
        ensures
            r == self.entries().len(),
    {
        self.history.len()
    }

    /// The cursor.
    pub fn get_cursor(&self) -> (r: isize)
        ensures
            r == self.cursor(),
    {
        self.history.get_cursor()
    }

    /// Whether some recorded change is applied (the cursor is on an entry).
    pub fn is_dirty(&self) -> (r: bool)
        ensures
            r == (self.cursor() >= 0),
    {
        self.history.can_undo()
    }

    /// Drop every entry.
    pub fn clear(&mut self)
        ensures
            final(self).wf(),
            final(self).entries() == Seq::<(LogicCommandV, LogicCommandV)>::empty(),
            final(self).cursor() == -1,
            final(self).max_size() == old(self).max_size(),
    {
        self.history.clear();
        assert(self.entries() =~= Seq::<(LogicCommandV, LogicCommandV)>::empty());
    }
}


/// Applying the inverse that a successful `c` returned, to the graph `c` produced,
/// gives back the original graph.
pub open spec fn logic_undo_restores(g: LogicGraphV, c: LogicCommandV) -> bool {
    let (g1, r) = spec_logic_apply(g, c, logic_depth(c));
    &&& r is Ok
    &&& spec_logic_apply(g1, r->Ok_0, logic_depth(r->Ok_0)).1 is Ok
    &&& spec_logic_apply(g1, r->Ok_0, logic_depth(r->Ok_0)).0 == g
}

/// A built-in recipe refuses every command and stays as it is.
pub proof fn law_builtin_immutable(g: LogicGraphV, c: LogicCommandV, fuel: nat)
    requires
        g.builtin,
    ensures
        spec_logic_apply(g, c, fuel) == (g, Err::<LogicCommandV, LogicErrV>(LogicErrV::RecipeImmutable(g.asset_id))),
{
}

proof fn lemma_edges_without_all(es: Seq<EdgeV>, id: Seq<char>, n: int)
    requires
        0 <= n <= es.len(),
        forall|k: int| 0 <= k < n ==> (#[trigger] es[k]).from_node != id && es[k].to_node != id,
    ensures
        edges_without(es, id, n) == es.subrange(0, n),
    decreases n,
{
    if n > 0 {
        lemma_edges_without_all(es, id, n - 1);
        assert(es.subrange(0, n - 1).push(es[n - 1]) =~= es.subrange(0, n));
    } else {
        assert(es.subrange(0, 0) =~= Seq::<EdgeV>::empty());
    }
}

/// Undoing the addition of a node restores the graph, when no edge touched that id.
pub proof fn law_logic_add_node_undo(
    g: LogicGraphV,
    node_id: Seq<char>,
    role: LogicNodeRole,
    node_type_id: Seq<char>,
    field_values: JsonV,
    controller_id: Option<Seq<char>>,
)
    requires
        spec_logic_apply(g, LogicCommandV::AddNode { node_id, role, node_type_id, field_values, controller_id }, 0).1 is Ok,
        forall|k: int| 0 <= k < g.edges.len() ==> (#[trigger] g.edges[k]).from_node != node_id && g.edges[k].to_node != node_id,
    ensures
        logic_undo_restores(g, LogicCommandV::AddNode { node_id, role, node_type_id, field_values, controller_id }),
{
    let x = NodeV { node_id, role, node_type_id, field_values, controller_id };
    lemma_first_match(g.nodes, nid_is(node_id));
    assert forall|k: int| 0 <= k < g.nodes.len() implies !nid_is(node_id)(#[trigger] g.nodes[k]) by {
        assert(!has_node(g.nodes, node_id));
    }
    lemma_first_match_none(g.nodes, nid_is(node_id));
    lemma_first_match_push(g.nodes, nid_is(node_id), x);
    assert(g.nodes.push(x).remove(g.nodes.len() as int) =~= g.nodes);
    lemma_edges_without_all(g.edges, node_id, g.edges.len() as int);
    assert(g.edges.subrange(0, g.edges.len() as int) =~= g.edges);
}

/// Undoing a new connection restores the graph.
pub proof fn law_logic_connect_undo(g: LogicGraphV, from_node: Seq<char>, from_port: Seq<char>, to_node: Seq<char>, to_port: Seq<char>)
    requires
        spec_logic_apply(g, LogicCommandV::ConnectPorts { from_node, from_port, to_node, to_port }, 0).1 is Ok,
        first_match(g.edges, edge_is(from_node, from_port, to_node, to_port)) == -1,
    ensures
        logic_undo_restores(g, LogicCommandV::ConnectPorts { from_node, from_port, to_node, to_port }),
{
    let x = EdgeV { from_node, from_port, to_node, to_port };
    lemma_first_match_push(g.edges, edge_is(from_node, from_port, to_node, to_port), x);
    assert(g.edges.push(x).remove(g.edges.len() as int) =~= g.edges);
}

/// Undoing a field edit restores the graph.
pub proof fn law_logic_set_field_undo(g: LogicGraphV, node_id: Seq<char>, field_path: Seq<Seq<char>>, value: JsonV)
    requires
        spec_logic_apply(g, LogicCommandV::SetNodeField { node_id, field_path, value }, 0).1 is Ok,
    ensures
        logic_undo_restores(g, LogicCommandV::SetNodeField { node_id, field_path, value }),
{
    let i = first_match(g.nodes, nid_is(node_id));
    lemma_first_match(g.nodes, nid_is(node_id));
    let n = g.nodes[i];
    let (u, old) = json_set_path(n.field_values, field_path, 0, value)->Ok_0;
    lemma_set_set_restores(n.field_values, field_path, 0, value);
    let n1 = NodeV { field_values: u, ..n };
    lemma_first_match_update(g.nodes, nid_is(node_id), i, n1);
    assert(g.nodes.update(i, n1).update(i, NodeV { field_values: n.field_values, ..n1 }) =~= g.nodes);
}

impl Default for LogicOperationLog {
    /// The same empty log as `new`.
    fn default() -> (r: LogicOperationLog)
        ensures
            r.wf(),
            r.entries() == Seq::<(LogicCommandV, LogicCommandV)>::empty(),
            r.cursor() == -1,
            r.max_size() == 1000,
    {
        LogicOperationLog::new()
    }
}

proof fn lemma_edges_without_untouched(es: Seq<EdgeV>, id: Seq<char>, n: int)
    requires
        0 <= n <= es.len(),
        forall|j: int| 0 <= j < es.len() ==> (#[trigger] es[j]).from_node != id && es[j].to_node != id,
    ensures
        edges_without(es, id, n) == es.subrange(0, n),
    decreases n,
{
    if n > 0 {
        lemma_edges_without_untouched(es, id, n - 1);
        assert(es.subrange(0, n - 1).push(es[n - 1]) =~= es.subrange(0, n));
    } else {
        assert(es.subrange(0, 0) =~= Seq::<EdgeV>::empty());
    }
}

/// Undoing the removal of a node restores the graph, when it was the last node and no edge
/// touched it (the inverse appends the node again and cannot restore edges).
pub proof fn law_logic_remove_node_undo(g: LogicGraphV, node_id: Seq<char>)
    requires
        spec_logic_apply(g, LogicCommandV::RemoveNode { node_id }, 0).1 is Ok,
        first_match(g.nodes, nid_is(node_id)) == g.nodes.len() - 1,
        forall|j: int| 0 <= j < g.edges.len() ==> (#[trigger] g.edges[j]).from_node != node_id && g.edges[j].to_node != node_id,
    ensures
        logic_undo_restores(g, LogicCommandV::RemoveNode { node_id }),
{
    let i = first_match(g.nodes, nid_is(node_id));
    lemma_first_match(g.nodes, nid_is(node_id));
    let rest = g.nodes.remove(i);
    lemma_edges_without_untouched(g.edges, node_id, g.edges.len() as int);
    assert(g.edges.subrange(0, g.edges.len() as int) =~= g.edges);
    assert(!has_node(rest, node_id)) by {
        if has_node(rest, node_id) {
            let k = choose|k: int| 0 <= k < rest.len() && (#[trigger] rest[k]).node_id == node_id;
            assert(rest[k] == g.nodes[k]);
        }
    }
    let n = g.nodes[i];
    assert(rest.push(NodeV { node_id: n.node_id, role: n.role, node_type_id: n.node_type_id, field_values: n.field_values, controller_id: n.controller_id }) =~= g.nodes);
}

/// Undoing a disconnection restores the graph, when the removed edge was the last one (the
/// inverse appends it again).
pub proof fn law_logic_disconnect_undo(g: LogicGraphV, from_node: Seq<char>, from_port: Seq<char>, to_node: Seq<char>, to_port: Seq<char>)
    requires
        spec_logic_apply(g, LogicCommandV::DisconnectPorts { from_node, from_port, to_node, to_port }, 0).1 is Ok,
        ({
            let j = first_match(g.edges, edge_is(from_node, from_port, to_node, to_port));
            0 <= j < g.edges.len() ==> j == g.edges.len() - 1
        }),
    ensures
        logic_undo_restores(g, LogicCommandV::DisconnectPorts { from_node, from_port, to_node, to_port }),
{
    let key = edge_is(from_node, from_port, to_node, to_port);
    let j = first_match(g.edges, key);
    lemma_first_match(g.edges, key);
    if 0 <= j < g.edges.len() {
        let rest = g.edges.remove(j);
        assert forall|q: int| 0 <= q < rest.len() implies !key(#[trigger] rest[q]) by {
            assert(rest[q] == g.edges[q]);
        }
        lemma_first_match_none(rest, key);
        let e = g.edges[j];
        assert(first_match(rest, edge_is(e.from_node, e.from_port, e.to_node, e.to_port)) == -1);
        assert(rest.push(e) =~= g.edges);
    }
}

/// "Edge `e` does not touch node `id`."
pub open spec fn edge_clear_of(id: Seq<char>) -> spec_fn(EdgeV) -> bool {
    |e: EdgeV| e.from_node != id && e.to_node != id
}

proof fn lemma_edges_without_is_filter(es: Seq<EdgeV>, id: Seq<char>, n: int)
    requires
        0 <= n <= es.len(),
    ensures
        edges_without(es, id, n) == es.subrange(0, n).filter(edge_clear_of(id)),
    decreases n,
{
    reveal(Seq::filter);
    let s = es.subrange(0, n);
    if n == 0 {
        assert(s.len() == 0);
    } else {
        lemma_edges_without_is_filter(es, id, n - 1);
        assert(s.drop_last() =~= es.subrange(0, n - 1));
        assert(s.last() == es[n - 1]);
    }
}

/// Removing node `id`, when it succeeds, removes the first node named `id`, drops every
/// edge that touches it and keeps every other node and edge, in the order they had: no
/// edge of the graph afterwards has `id` as an endpoint.
pub proof fn law_remove_node_drops_exactly_its_edges(g: LogicGraphV, node_id: Seq<char>, fuel: nat)
    requires
        spec_logic_apply(g, LogicCommandV::RemoveNode { node_id }, fuel).1 is Ok,
    ensures
        spec_logic_apply(g, LogicCommandV::RemoveNode { node_id }, fuel).0.edges == g.edges.filter(edge_clear_of(node_id)),
        forall|j: int|
            0 <= j < spec_logic_apply(g, LogicCommandV::RemoveNode { node_id }, fuel).0.edges.len() ==> {
                let e = #[trigger] spec_logic_apply(g, LogicCommandV::RemoveNode { node_id }, fuel).0.edges[j];
                e.from_node != node_id && e.to_node != node_id
            },
        forall|j: int|
            0 <= j < g.edges.len() && (#[trigger] g.edges[j]).from_node != node_id && g.edges[j].to_node != node_id
                ==> spec_logic_apply(g, LogicCommandV::RemoveNode { node_id }, fuel).0.edges.contains(g.edges[j]),
        exists|i: int|
            0 <= i < g.nodes.len() && (#[trigger] g.nodes[i]).node_id == node_id && (forall|j: int|
                0 <= j < i ==> (#[trigger] g.nodes[j]).node_id != node_id) && spec_logic_apply(
                g,
                LogicCommandV::RemoveNode { node_id },
                fuel,
            ).0.nodes == g.nodes.remove(i),
{
    let i0 = first_match(g.nodes, nid_is(node_id));
    lemma_first_match(g.nodes, nid_is(node_id));
    assert(g.nodes[i0].node_id == node_id);
    let es = g.edges;
    lemma_edges_without_is_filter(es, node_id, es.len() as int);
    assert(es.subrange(0, es.len() as int) =~= es);
    let f = es.filter(edge_clear_of(node_id));
    assert forall|j: int| 0 <= j < f.len() implies (#[trigger] f[j]).from_node != node_id && f[j].to_node != node_id by {
        es.lemma_filter_pred(edge_clear_of(node_id), j);
    }
    assert forall|j: int|
        0 <= j < es.len() && (#[trigger] es[j]).from_node != node_id && es[j].to_node != node_id implies f.contains(es[j]) by {
        es.lemma_filter_contains(edge_clear_of(node_id), j);
    }
}

} // verus!
