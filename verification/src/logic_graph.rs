//! Logic graphs: sensor, controller and actuator nodes wired by port-to-port edges.

use vstd::prelude::*;
use crate::document::opt_view;
use crate::json::{JsonValue, JsonV, json_clone};
use crate::document::clone_opt_string;
use crate::text::{str_equal, decimal, usize_to_decimal, to_owned_string};
use crate::document::{ComponentInstance, ComponentV, comps_view};
use crate::json::JsonEntry;

verus! {

/// The role of a logic node.
#[derive(Debug, Clone, Copy, PartialEq, Eq, Structural)]
pub enum LogicNodeRole {
    Sensor,
    Controller,
    Actuator,
}

/// A node of a logic graph.
#[derive(Debug)]
pub struct LogicNode {
    pub node_id: String,
    pub role: LogicNodeRole,
    pub node_type_id: String,
    pub field_values: JsonValue,
    /// For `rust-controller` nodes: the controller that evaluates them.
    pub controller_id: Option<String>,
}

/// Model of a logic node.
pub struct NodeV {
    pub node_id: Seq<char>,
    pub role: LogicNodeRole,
    pub node_type_id: Seq<char>,
    pub field_values: JsonV,
    pub controller_id: Option<Seq<char>>,
}

impl LogicNode {
    pub open spec fn view(&self) -> NodeV {
        NodeV {
            node_id: self.node_id@,
            role: self.role,
            node_type_id: self.node_type_id@,
            field_values: self.field_values@,
            controller_id: opt_view(self.controller_id),
        }
    }
}

/// An edge from an output port of one node to an input port of another.
#[derive(Debug)]
pub struct LogicEdge {
    pub from_node: String,
    pub from_port: String,
    pub to_node: String,
    pub to_port: String,
}

/// Model of an edge.
pub struct EdgeV {
    pub from_node: Seq<char>,
    pub from_port: Seq<char>,
    pub to_node: Seq<char>,
    pub to_port: Seq<char>,
}

impl LogicEdge {
    pub open spec fn view(&self) -> EdgeV {
        EdgeV { from_node: self.from_node@, from_port: self.from_port@, to_node: self.to_node@, to_port: self.to_port@ }
    }
}

/// A logic graph document.
#[derive(Debug)]
pub struct LogicGraphAsset {
    pub asset_id: String,
    pub logical_path: String,
    pub version: u32,
    pub nodes: Vec<LogicNode>,
    pub edges: Vec<LogicEdge>,
    /// Built-in recipes cannot be edited.
    pub builtin: bool,
}

/// Model of a logic graph.
pub struct LogicGraphV {
    pub asset_id: Seq<char>,
    pub logical_path: Seq<char>,
    pub version: u32,
    pub nodes: Seq<NodeV>,
    pub edges: Seq<EdgeV>,
    pub builtin: bool,
}

/// The models of a list of nodes.
pub open spec fn nodes_view(ns: Seq<LogicNode>) -> Seq<NodeV> {
    ns.map_values(|n: LogicNode| n@)
}

/// The models of a list of edges.
pub open spec fn edges_view(es: Seq<LogicEdge>) -> Seq<EdgeV> {
    es.map_values(|e: LogicEdge| e@)
}

impl LogicGraphAsset {
    pub open spec fn view(&self) -> LogicGraphV {
        LogicGraphV {
            asset_id: self.asset_id@,
            logical_path: self.logical_path@,
            version: self.version,
            nodes: nodes_view(self.nodes@),
            edges: edges_view(self.edges@),
            builtin: self.builtin,
        }
    }
}

/// A copy of a node.
pub fn clone_node(n: &LogicNode) -> (r: LogicNode)
    ensures
        r@ == n@,
{
    LogicNode {
        node_id: n.node_id.clone(),
        role: n.role,
        node_type_id: n.node_type_id.clone(),
        field_values: json_clone(&n.field_values),
        controller_id: clone_opt_string(&n.controller_id),
    }
}

/// A copy of an edge.
pub fn clone_edge(e: &LogicEdge) -> (r: LogicEdge)
    ensures
        r@ == e@,
{
    LogicEdge {
        from_node: e.from_node.clone(),
        from_port: e.from_port.clone(),
        to_node: e.to_node.clone(),
        to_port: e.to_port.clone(),
    }
}

/// A copy of a whole graph.
pub fn clone_graph(g: &LogicGraphAsset) -> (r: LogicGraphAsset)
    ensures
        r@ == g@,
{
    let mut ns: Vec<LogicNode> = Vec::new();
    let mut i: usize = 0;
    while i < g.nodes.len()
        invariant
            i <= g.nodes.len(),
            ns.len() == i,
            forall|k: int| 0 <= k < i ==> (#[trigger] ns@[k])@ == g.nodes@[k]@,
        decreases g.nodes.len() - i,
    {
        ns.push(clone_node(&g.nodes[i]));
        i += 1;
    }
    let mut es: Vec<LogicEdge> = Vec::new();
    let mut j: usize = 0;
    while j < g.edges.len()
        invariant
            j <= g.edges.len(),
            es.len() == j,
            forall|k: int| 0 <= k < j ==> (#[trigger] es@[k])@ == g.edges@[k]@,
        decreases g.edges.len() - j,
    {
        es.push(clone_edge(&g.edges[j]));
        j += 1;
    }
    let r = LogicGraphAsset {
        asset_id: g.asset_id.clone(),
        logical_path: g.logical_path.clone(),
        version: g.version,
        nodes: ns,
        edges: es,
        builtin: g.builtin,
    };
    assert(nodes_view(r.nodes@) =~= nodes_view(g.nodes@));
    assert(edges_view(r.edges@) =~= edges_view(g.edges@));
    r
}

/// Whether some node of `ns` has id `id`.
pub open spec fn has_node(ns: Seq<NodeV>, id: Seq<char>) -> bool {
    exists|k: int| 0 <= k < ns.len() && (#[trigger] ns[k]).node_id == id
}

/// Whether a node of `ns` has id `id`.
pub fn contains_node(ns: &Vec<LogicNode>, id: &str) -> (r: bool)
    ensures
        r == has_node(nodes_view(ns@), id@),
{
    let ghost nv = nodes_view(ns@);
    let mut i: usize = 0;
    while i < ns.len()
        invariant
            nv == nodes_view(ns@),
            i <= ns.len(),
            forall|k: int| 0 <= k < i ==> (#[trigger] nv[k]).node_id != id@,
        decreases ns.len() - i,
    {
        if str_equal(ns[i].node_id.as_str(), id) {
            assert(nv[i as int].node_id == id@);
            return true;
        }
        i += 1;
    }
    false
}

/// The node ids that occur more than once, each reported once, in the order in which
/// their second occurrence appears.
pub open spec fn duplicate_ids(ns: Seq<NodeV>, n: int) -> Seq<Seq<char>>
    decreases n,
{
    if n <= 0 || n > ns.len() {
        Seq::empty()
    } else {
        let prev = duplicate_ids(ns, n - 1);
        let id = ns[n - 1].node_id;
        if has_node(ns.subrange(0, n - 1), id) && !prev.contains(id) {
            prev.push(id)
        } else {
            prev
        }
    }
}

/// The node ids of `asset` that more than one node uses.
pub fn find_duplicate_node_id(asset: &LogicGraphAsset) -> (r: Vec<String>)
    ensures
        r@.map_values(|s: String| s@) == duplicate_ids(asset@.nodes, asset@.nodes.len() as int),
{
    let ghost nv = nodes_view(asset.nodes@);
    let mut out: Vec<String> = Vec::new();
    let mut i: usize = 0;
    while i < asset.nodes.len()
        invariant
            nv == nodes_view(asset.nodes@),
            i <= asset.nodes.len(),
            out@.map_values(|s: String| s@) == duplicate_ids(nv, i as int),
        decreases asset.nodes.len() - i,
    {
        let id = &asset.nodes[i].node_id;
        let ghost prev = out@.map_values(|s: String| s@);
        let mut seen = false;
        let mut k: usize = 0;
        while k < i
            invariant
                nv == nodes_view(asset.nodes@),
                i < asset.nodes.len(),
                k <= i,
                id@ == nv[i as int].node_id,
                seen == has_node(nv.subrange(0, k as int), id@),
            decreases i - k,
        {
            if str_equal(asset.nodes[k].node_id.as_str(), id.as_str()) {
                assert(nv.subrange(0, k + 1)[k as int].node_id == id@);
                seen = true;
            } else {
                assert forall|q: int| 0 <= q < k + 1 && (#[trigger] nv.subrange(0, k + 1)[q]).node_id == id@ implies seen by {
                    if q < k {
                        assert(nv.subrange(0, k + 1)[q] == nv.subrange(0, k as int)[q]);
                    }
                }
                proof {
                    if seen {
                        let w = choose|q: int| 0 <= q < k && (#[trigger] nv.subrange(0, k as int)[q]).node_id == id@;
                        assert(nv.subrange(0, k + 1)[w] == nv.subrange(0, k as int)[w]);
                    }
                }
            }
            k += 1;
        }
        if seen {
            let mut listed = false;
            let mut m: usize = 0;
            while m < out.len()
                invariant
                    prev == out@.map_values(|s: String| s@),
                    m <= out.len(),
                    listed == prev.subrange(0, m as int).contains(id@),
                decreases out.len() - m,
            {
                assert(prev.subrange(0, m + 1) =~= prev.subrange(0, m as int).push(prev[m as int]));
                assert(prev[m as int] == out@[m as int]@);
                if str_equal(out[m].as_str(), id.as_str()) {
                    listed = true;
                    assert(prev.subrange(0, m + 1)[m as int] == id@);
                }
                m += 1;
            }
            assert(prev.subrange(0, out.len() as int) =~= prev);
            if !listed {
                out.push(id.clone());
                assert(out@.map_values(|s: String| s@) =~= prev.push(id@));
            }
        }
        i += 1;
    }
    out
}

/// The edge endpoints that name no node of the graph, in edge order: for each edge its
/// source, then its target, when missing.
pub open spec fn dangling_ids(g: LogicGraphV, n: int) -> Seq<Seq<char>>
    decreases n,
{
    if n <= 0 || n > g.edges.len() {
        Seq::empty()
    } else {
        let prev = dangling_ids(g, n - 1);
        let e = g.edges[n - 1];
        let a = if has_node(g.nodes, e.from_node) { prev } else { prev.push(e.from_node) };
        if has_node(g.nodes, e.to_node) { a } else { a.push(e.to_node) }
    }
}

/// The node ids that edges of `asset` reference but no node has.
pub fn find_dangling_edge_nodes(asset: &LogicGraphAsset) -> (r: Vec<String>)
    ensures
        r@.map_values(|s: String| s@) == dangling_ids(asset@, asset@.edges.len() as int),
{
    let mut out: Vec<String> = Vec::new();
    let mut i: usize = 0;
    while i < asset.edges.len()
        invariant
            i <= asset.edges.len(),
            out@.map_values(|s: String| s@) == dangling_ids(asset@, i as int),
        decreases asset.edges.len() - i,
    {
        let e = &asset.edges[i];
        let ghost prev = out@.map_values(|s: String| s@);
        assert(e@ == asset@.edges[i as int]);
        if !contains_node(&asset.nodes, e.from_node.as_str()) {
            out.push(e.from_node.clone());
            assert(out@.map_values(|s: String| s@) =~= prev.push(e.from_node@));
        }
        let ghost mid = out@.map_values(|s: String| s@);
        if !contains_node(&asset.nodes, e.to_node.as_str()) {
            out.push(e.to_node.clone());
            assert(out@.map_values(|s: String| s@) =~= mid.push(e.to_node@));
        }
        i += 1;
    }
    out
}

/// An entry of the logic graph catalog.
#[derive(Debug, Clone)]
pub struct LogicGraphCatalogEntry {
    pub asset_id: String,
    pub logical_path: String,
    pub builtin: bool,
    pub created_at: u64,
    pub updated_at: u64,
}

/// Model of a catalog entry.
pub struct CatalogEntryV {
    pub asset_id: Seq<char>,
    pub logical_path: Seq<char>,
    pub builtin: bool,
    pub created_at: u64,
    pub updated_at: u64,
}

impl LogicGraphCatalogEntry {
    pub open spec fn view(&self) -> CatalogEntryV {
        CatalogEntryV {
            asset_id: self.asset_id@,
            logical_path: self.logical_path@,
            builtin: self.builtin,
            created_at: self.created_at,
            updated_at: self.updated_at,
        }
    }
}

/// A copy of a catalog entry.
pub fn clone_catalog_entry(e: &LogicGraphCatalogEntry) -> (r: LogicGraphCatalogEntry)
    ensures
        r@ == e@,
{
    LogicGraphCatalogEntry {
        asset_id: e.asset_id.clone(),
        logical_path: e.logical_path.clone(),
        builtin: e.builtin,
        created_at: e.created_at,
        updated_at: e.updated_at,
    }
}

/// A logic graph attached to an entity: which graph, at which version.
#[derive(Debug, Clone, PartialEq, Eq)]
pub struct LogicInstance {
    pub asset_id: String,
    pub version: u32,
}

/// The values of the `editor.LogicBinding` component for a graph and version.
pub open spec fn binding_values(asset_id: Seq<char>, version: u32) -> JsonV {
    JsonV::Object(seq![("asset_id"@, JsonV::Str(asset_id)), ("version"@, JsonV::Number(decimal(version as nat)))])
}

/// The `editor.LogicBinding` component that attaches `instance` to an entity.
pub fn editor_logic_binding_component(instance: &LogicInstance) -> (r: ComponentInstance)
    ensures
        r.type_id@ == "editor.LogicBinding"@,
        r.values@ == binding_values(instance.asset_id@, instance.version),
{
    let k1 = to_owned_string("asset_id");
    let v1 = JsonValue::Str(instance.asset_id.clone());
    let k2 = to_owned_string("version");
    let v2 = JsonValue::Number(usize_to_decimal(instance.version as usize));
    assert(v1@ == JsonV::Str(instance.asset_id@));
    assert(v2@ == JsonV::Number(decimal(instance.version as nat)));
    let mut es: Vec<JsonEntry> = Vec::new();
    es.push(JsonEntry { key: k1, value: v1 });
    es.push(JsonEntry { key: k2, value: v2 });
    let values = JsonValue::Object(es);
    assert(values@->Object_0 =~= seq![("asset_id"@, JsonV::Str(instance.asset_id@)), ("version"@, JsonV::Number(decimal(instance.version as nat)))]);
    ComponentInstance { type_id: to_owned_string("editor.LogicBinding"), values }
}

/// How many of the components `cs[..n]` are `editor.LogicBinding` components.
pub open spec fn bindings_in(cs: Seq<ComponentV>, n: int) -> nat
    decreases n,
{
    if n <= 0 || n > cs.len() {
        0
    } else {
        bindings_in(cs, n - 1) + if cs[n - 1].type_id == "editor.LogicBinding"@ { 1nat } else { 0nat }
    }
}

/// How many logic graphs the components attach to their entity.
pub fn count_logic_bindings(components: &[ComponentInstance]) -> (r: usize)
    ensures
        r == bindings_in(comps_view(components@), components@.len() as int),
{
    let ghost cv = comps_view(components@);
    let mut count: usize = 0;
    let mut i: usize = 0;
    while i < components.len()
        invariant
            cv == comps_view(components@),
            i <= components.len(),
            count == bindings_in(cv, i as int),
            count <= i,
        decreases components.len() - i,
    {
        assert(cv[i as int] == components@[i as int]@);
        if str_equal(components[i].type_id.as_str(), "editor.LogicBinding") {
            count += 1;
        }
        i += 1;
    }
    count
}

} // verus!
