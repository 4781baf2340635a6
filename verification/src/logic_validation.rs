//! Validation of logic graphs: duplicate node ids, dangling edge endpoints, edges
//! between ports of different types, directed cycles, and controller references that
//! the registry does not know.

use vstd::prelude::*;
use vstd::string::*;
use crate::json::strs_view;
use crate::logic_graph::{LogicGraphAsset, LogicGraphV, LogicNode, LogicEdge, NodeV, EdgeV, nodes_view, edges_view, duplicate_ids, dangling_ids, find_duplicate_node_id, find_dangling_edge_nodes, has_node};
use crate::logic_evaluator::{LogicNodeRegistry, DescriptorV, PortSpec, PortSpecV, PortValueType, ports_view, port_type_str, port_type_name, last_node};
use crate::seqs::{first_match, lemma_first_match, lemma_first_match_at, lemma_first_match_none};
use crate::text::str_equal;
use crate::topo_order::{node_ids, lemma_distinct_subset_len, sort_outcome, valid_order, maximal_order, is_order_key};

verus! {

/// The kinds of validation issues.
#[derive(Debug, Clone, Copy, PartialEq, Eq, Structural)]
pub enum LogicValidationIssueCode {
    DuplicateNodeId,
    DanglingEdgeEndpoint,
    InvalidPortType,
    Cycle,
    DanglingControllerRef,
}

/// One defect found in a logic graph.
#[derive(Debug)]
pub struct LogicValidationIssue {
    pub code: LogicValidationIssueCode,
    pub asset_id: String,
    pub message: String,
    pub affected_node_ids: Vec<String>,
}

/// Model of an issue.
pub struct IssueV {
    pub code: LogicValidationIssueCode,
    pub asset_id: Seq<char>,
    pub message: Seq<char>,
    pub affected: Seq<Seq<char>>,
}

impl LogicValidationIssue {
    pub open spec fn view(&self) -> IssueV {
        IssueV {
            code: self.code,
            asset_id: self.asset_id@,
            message: self.message@,
            affected: strs_view(self.affected_node_ids@),
        }
    }
}

/// The models of a list of issues.
pub open spec fn issues_view(v: Seq<LogicValidationIssue>) -> Seq<IssueV> {
    v.map_values(|i: LogicValidationIssue| i@)
}

/// `s` between single quotes.
pub open spec fn quoted(s: Seq<char>) -> Seq<char> {
    "'"@ + s + "'"@
}

fn push_quoted(out: &mut String, s: &str)
    ensures
        final(out)@ == old(out)@ + quoted(s@),
{
    out.append("'");
    out.append(s);
    out.append("'");
    proof {
        reveal_strlit("'");
    }
    assert(final(out)@ =~= old(out)@ + quoted(s@));
}

fn issue1(code: LogicValidationIssueCode, asset_id: &str, message: String, a: &str) -> (r: LogicValidationIssue)
    ensures
        r@ == (IssueV { code, asset_id: asset_id@, message: message@, affected: seq![a@] }),
{
    let mut ids: Vec<String> = Vec::new();
    ids.push(String::from_str(a));
    let r = LogicValidationIssue { code, asset_id: String::from_str(asset_id), message, affected_node_ids: ids };
    assert(strs_view(r.affected_node_ids@) =~= seq![a@]);
    r
}

fn issue2(code: LogicValidationIssueCode, asset_id: &str, message: String, a: &str, b: &str) -> (r: LogicValidationIssue)
    ensures
        r@ == (IssueV { code, asset_id: asset_id@, message: message@, affected: seq![a@, b@] }),
{
    let mut ids: Vec<String> = Vec::new();
    ids.push(String::from_str(a));
    ids.push(String::from_str(b));
    let r = LogicValidationIssue { code, asset_id: String::from_str(asset_id), message, affected_node_ids: ids };
    assert(strs_view(r.affected_node_ids@) =~= seq![a@, b@]);
    r
}

// ---------------------------------------------------------------------------
// Duplicate ids and dangling endpoints
// ---------------------------------------------------------------------------

/// The issue for a duplicate node id.
pub open spec fn duplicate_issue(asset_id: Seq<char>, id: Seq<char>) -> IssueV {
    IssueV {
        code: LogicValidationIssueCode::DuplicateNodeId,
        asset_id,
        message: "duplicate node id "@ + quoted(id),
        affected: seq![id],
    }
}

/// The issue for an edge endpoint that names no node.
pub open spec fn dangling_issue(asset_id: Seq<char>, id: Seq<char>) -> IssueV {
    IssueV {
        code: LogicValidationIssueCode::DanglingEdgeEndpoint,
        asset_id,
        message: "edge references undefined node "@ + quoted(id),
        affected: seq![id],
    }
}

// ---------------------------------------------------------------------------
// Port types
// ---------------------------------------------------------------------------

/// The type of the first port of `ps` named `id`.
pub open spec fn find_port(ps: Seq<PortSpecV>, id: Seq<char>) -> Option<PortValueType> {
    let i = first_match(ps, |p: PortSpecV| p.port_id == id);
    if 0 <= i < ps.len() { Some(ps[i].value_type) } else { None }
}

/// The port-type issue of edge `e` of graph `g`, if any. Edges whose endpoints are
/// missing, or whose node types have no descriptor, are not checked.
pub open spec fn edge_port_issue(g: LogicGraphV, descs: Map<Seq<char>, DescriptorV>, e: EdgeV) -> Option<IssueV> {
    let fi = last_node(g.nodes, e.from_node, g.nodes.len() as int);
    let ti = last_node(g.nodes, e.to_node, g.nodes.len() as int);
    if fi < 0 || ti < 0 {
        None
    } else {
        let fnode = g.nodes[fi];
        let tnode = g.nodes[ti];
        if !descs.contains_key(fnode.node_type_id) || !descs.contains_key(tnode.node_type_id) {
            None
        } else {
            match find_port(descs[fnode.node_type_id].outputs, e.from_port) {
                None => Some(
                    IssueV {
                        code: LogicValidationIssueCode::InvalidPortType,
                        asset_id: g.asset_id,
                        message: "port "@ + quoted(e.from_port) + " not found in outputs of node "@ + quoted(fnode.node_id),
                        affected: seq![e.from_node, e.to_node],
                    },
                ),
                Some(ft) => match find_port(descs[tnode.node_type_id].inputs, e.to_port) {
                    None => Some(
                        IssueV {
                            code: LogicValidationIssueCode::InvalidPortType,
                            asset_id: g.asset_id,
                            message: "port "@ + quoted(e.to_port) + " not found in inputs of node "@ + quoted(tnode.node_id),
                            affected: seq![e.from_node, e.to_node],
                        },
                    ),
                    Some(tt) => if ft != tt {
                        Some(
                            IssueV {
                                code: LogicValidationIssueCode::InvalidPortType,
                                asset_id: g.asset_id,
                                message: "port type mismatch: "@ + quoted(port_type_str(ft)) + " (source output) vs "@
                                    + quoted(port_type_str(tt)) + " (target input) on edge "@ + fnode.node_id + " -> "@
                                    + tnode.node_id,
                                affected: seq![e.from_node, e.to_node],
                            },
                        )
                    } else {
                        None
                    },
                },
            }
        }
    }
}

/// The port-type issues of the first `k` edges, in edge order.
pub open spec fn port_issues(g: LogicGraphV, descs: Map<Seq<char>, DescriptorV>, k: int) -> Seq<IssueV>
    decreases k,
{
    if k <= 0 || k > g.edges.len() {
        Seq::empty()
    } else {
        let prev = port_issues(g, descs, k - 1);
        match edge_port_issue(g, descs, g.edges[k - 1]) {
            Some(i) => prev.push(i),
            None => prev,
        }
    }
}

fn find_port_exec(ps: &Vec<PortSpec>, id: &str) -> (r: Option<PortValueType>)
    ensures
        r == find_port(ports_view(ps@), id@),
{
    let ghost pv = ports_view(ps@);
    let ghost p = |q: PortSpecV| q.port_id == id@;
    let mut i: usize = 0;
    while i < ps.len()
        invariant
            pv == ports_view(ps@),
            p == (|q: PortSpecV| q.port_id == id@),
            i <= ps.len(),
            forall|j: int| 0 <= j < i ==> !p(#[trigger] pv[j]),
        decreases ps.len() - i,
    {
        if str_equal(ps[i].port_id.as_str(), id) {
            proof {
                lemma_first_match_at(pv, p, i as int);
            }
            return Some(ps[i].value_type);
        }
        i += 1;
    }
    proof {
        lemma_first_match_none(pv, p);
    }
    None
}

fn last_node_at(ns: &Vec<LogicNode>, id: &str) -> (r: Option<usize>)
    ensures
        match r {
            Some(i) => last_node(nodes_view(ns@), id@, ns@.len() as int) == i && i < ns.len(),
            None => last_node(nodes_view(ns@), id@, ns@.len() as int) == -1,
        },
{
    let ghost nv = nodes_view(ns@);
    let mut found: Option<usize> = None;
    let mut k: usize = 0;
    while k < ns.len()
        invariant
            nv == nodes_view(ns@),
            k <= ns.len(),
            match found {
                Some(i) => last_node(nv, id@, k as int) == i && i < k,
                None => last_node(nv, id@, k as int) == -1,
            },
        decreases ns.len() - k,
    {
        if str_equal(ns[k].node_id.as_str(), id) {
            found = Some(k);
        }
        k += 1;
    }
    found
}

fn edge_port_issue_exec(asset: &LogicGraphAsset, registry: &LogicNodeRegistry, e: &LogicEdge) -> (r: Option<LogicValidationIssue>)
    requires
        registry.wf(),
    ensures
        match r {
            Some(i) => edge_port_issue(asset@, registry.descriptors(), e@) == Some(i@),
            None => edge_port_issue(asset@, registry.descriptors(), e@) is None,
        },
{
    let fi = match last_node_at(&asset.nodes, e.from_node.as_str()) {
        Some(i) => i,
        None => {
            return None;
        },
    };
    let ti = match last_node_at(&asset.nodes, e.to_node.as_str()) {
        Some(i) => i,
        None => {
            return None;
        },
    };
    let fnode = &asset.nodes[fi];
    let tnode = &asset.nodes[ti];
    assert(fnode@ == asset@.nodes[fi as int]);
    assert(tnode@ == asset@.nodes[ti as int]);
    let fdesc = match registry.descriptor(fnode.node_type_id.as_str()) {
        Some(d) => d,
        None => {
            return None;
        },
    };
    let tdesc = match registry.descriptor(tnode.node_type_id.as_str()) {
        Some(d) => d,
        None => {
            return None;
        },
    };
    let ft = match find_port_exec(&fdesc.outputs, e.from_port.as_str()) {
        Some(t) => t,
        None => {
            let mut m = String::from_str("port ");
            push_quoted(&mut m, e.from_port.as_str());
            m.append(" not found in outputs of node ");
            push_quoted(&mut m, fnode.node_id.as_str());
            return Some(issue2(LogicValidationIssueCode::InvalidPortType, asset.asset_id.as_str(), m, e.from_node.as_str(), e.to_node.as_str()));
        },
    };
    let tt = match find_port_exec(&tdesc.inputs, e.to_port.as_str()) {
        Some(t) => t,
        None => {
            let mut m = String::from_str("port ");
            push_quoted(&mut m, e.to_port.as_str());
            m.append(" not found in inputs of node ");
            push_quoted(&mut m, tnode.node_id.as_str());
            return Some(issue2(LogicValidationIssueCode::InvalidPortType, asset.asset_id.as_str(), m, e.from_node.as_str(), e.to_node.as_str()));
        },
    };
    if ft != tt {
        let mut m = String::from_str("port type mismatch: ");
        push_quoted(&mut m, port_type_name(ft));
        m.append(" (source output) vs ");
        push_quoted(&mut m, port_type_name(tt));
        m.append(" (target input) on edge ");
        m.append(fnode.node_id.as_str());
        m.append(" -> ");
        m.append(tnode.node_id.as_str());
        Some(issue2(LogicValidationIssueCode::InvalidPortType, asset.asset_id.as_str(), m, e.from_node.as_str(), e.to_node.as_str()))
    } else {
        None
    }
}

/// One issue for each edge whose ports do not exist on its nodes' types or carry
/// different types.
pub fn validate_edge_port_types(asset: &LogicGraphAsset, registry: &LogicNodeRegistry) -> (r: Vec<LogicValidationIssue>)
    requires
        registry.wf(),
    ensures
        issues_view(r@) == port_issues(asset@, registry.descriptors(), asset@.edges.len() as int),
{
    let mut issues: Vec<LogicValidationIssue> = Vec::new();
    let mut j: usize = 0;
    while j < asset.edges.len()
        invariant
            registry.wf(),
            j <= asset.edges.len(),
            issues_view(issues@) == port_issues(asset@, registry.descriptors(), j as int),
        decreases asset.edges.len() - j,
    {
        let ghost prev = issues_view(issues@);
        assert(asset.edges@[j as int]@ == asset@.edges[j as int]);
        match edge_port_issue_exec(asset, registry, &asset.edges[j]) {
            Some(i) => {
                let ghost iv = i@;
                issues.push(i);
                assert(issues_view(issues@) =~= prev.push(iv));
            },
            None => {},
        }
        j += 1;
    }
    issues
}

// ---------------------------------------------------------------------------
// Controller references
// ---------------------------------------------------------------------------

/// The controller-reference issue of node `n`, if any: a `rust-controller` node must
/// name a controller that the registry knows.
pub open spec fn controller_issue(asset_id: Seq<char>, n: NodeV, ctrls: Map<Seq<char>, crate::logic_evaluator::EvaluatorKind>) -> Option<IssueV> {
    if n.node_type_id != "rust-controller"@ {
        None
    } else {
        match n.controller_id {
            None => Some(
                IssueV {
                    code: LogicValidationIssueCode::DanglingControllerRef,
                    asset_id,
                    message: "rust-controller node "@ + quoted(n.node_id) + " is missing a controller_id"@,
                    affected: seq![n.node_id],
                },
            ),
            Some(c) => if ctrls.contains_key(c) {
                None
            } else {
                Some(
                    IssueV {
                        code: LogicValidationIssueCode::DanglingControllerRef,
                        asset_id,
                        message: "rust-controller node "@ + quoted(n.node_id) + " references unknown controller "@ + quoted(c),
                        affected: seq![n.node_id],
                    },
                )
            },
        }
    }
}

/// The controller-reference issues of the first `k` nodes, in node order.
pub open spec fn controller_issues(g: LogicGraphV, ctrls: Map<Seq<char>, crate::logic_evaluator::EvaluatorKind>, k: int) -> Seq<IssueV>
    decreases k,
{
    if k <= 0 || k > g.nodes.len() {
        Seq::empty()
    } else {
        let prev = controller_issues(g, ctrls, k - 1);
        match controller_issue(g.asset_id, g.nodes[k - 1], ctrls) {
            Some(i) => prev.push(i),
            None => prev,
        }
    }
}

/// One issue for each `rust-controller` node whose controller id is missing or unknown
/// to the registry.
pub fn validate_controller_refs(asset: &LogicGraphAsset, registry: &LogicNodeRegistry) -> (r: Vec<LogicValidationIssue>)
    requires
        registry.wf(),
    ensures
        issues_view(r@) == controller_issues(asset@, registry.controllers(), asset@.nodes.len() as int),
{
    let mut issues: Vec<LogicValidationIssue> = Vec::new();
    let mut k: usize = 0;
    while k < asset.nodes.len()
        invariant
            registry.wf(),
            k <= asset.nodes.len(),
            issues_view(issues@) == controller_issues(asset@, registry.controllers(), k as int),
        decreases asset.nodes.len() - k,
    {
        let ghost prev = issues_view(issues@);
        let node = &asset.nodes[k];
        assert(node@ == asset@.nodes[k as int]);
        if str_equal(node.node_type_id.as_str(), "rust-controller") {
            match &node.controller_id {
                None => {
                    let mut m = String::from_str("rust-controller node ");
                    push_quoted(&mut m, node.node_id.as_str());
                    m.append(" is missing a controller_id");
                    let i = issue1(LogicValidationIssueCode::DanglingControllerRef, asset.asset_id.as_str(), m, node.node_id.as_str());
                    let ghost iv = i@;
                    issues.push(i);
                    assert(issues_view(issues@) =~= prev.push(iv));
                },
                Some(c) => {
                    if registry.get_controller(c.as_str()).is_none() {
                        let mut m = String::from_str("rust-controller node ");
                        push_quoted(&mut m, node.node_id.as_str());
                        m.append(" references unknown controller ");
                        push_quoted(&mut m, c.as_str());
                        let i = issue1(LogicValidationIssueCode::DanglingControllerRef, asset.asset_id.as_str(), m, node.node_id.as_str());
                        let ghost iv = i@;
                        issues.push(i);
                        assert(issues_view(issues@) =~= prev.push(iv));
                    }
                },
            }
        }
        k += 1;
    }
    issues
}

// ---------------------------------------------------------------------------
// Cycles
// ---------------------------------------------------------------------------

/// The issue for the back edge `from -> to` that closes a cycle.
pub open spec fn cycle_issue(asset_id: Seq<char>, from: Seq<char>, to: Seq<char>) -> IssueV {
    IssueV {
        code: LogicValidationIssueCode::Cycle,
        asset_id,
        message: "cycle detected: "@ + quoted(from) + " -> "@ + quoted(to) + " closes a directed loop"@,
        affected: seq![from, to],
    }
}

/// Depth-first visit of `node`: mark it visited and on the current path, then follow its
/// outgoing edges. `fuel` bounds the depth of the visit.
pub open spec fn dfs_visit(
    aid: Seq<char>,
    es: Seq<EdgeV>,
    fuel: nat,
    node: Seq<char>,
    visited: Seq<Seq<char>>,
    path: Seq<Seq<char>>,
    issues: Seq<IssueV>,
) -> (Seq<Seq<char>>, Seq<IssueV>)
    decreases fuel, 0int, 0int,
{
    if fuel == 0 {
        (visited, issues)
    } else {
        dfs_edges(aid, es, (fuel - 1) as nat, node, 0, visited.push(node), path.push(node), issues)
    }
}

/// Following the edges `es[j..]` that leave `node`: an unvisited target is visited; a
/// target on the current path is a back edge, reported as a cycle.
pub open spec fn dfs_edges(
    aid: Seq<char>,
    es: Seq<EdgeV>,
    fuel: nat,
    node: Seq<char>,
    j: int,
    visited: Seq<Seq<char>>,
    path: Seq<Seq<char>>,
    issues: Seq<IssueV>,
) -> (Seq<Seq<char>>, Seq<IssueV>)
    decreases fuel, 1int, es.len() - j,
{
    if j < 0 || j >= es.len() {
        (visited, issues)
    } else {
        let e = es[j];
        if e.from_node != node {
            dfs_edges(aid, es, fuel, node, j + 1, visited, path, issues)
        } else if !visited.contains(e.to_node) {
            let (v2, i2) = dfs_visit(aid, es, fuel, e.to_node, visited, path, issues);
            dfs_edges(aid, es, fuel, node, j + 1, v2, path, i2)
        } else if path.contains(e.to_node) {
            dfs_edges(aid, es, fuel, node, j + 1, visited, path, issues.push(cycle_issue(aid, node, e.to_node)))
        } else {
            dfs_edges(aid, es, fuel, node, j + 1, visited, path, issues)
        }
    }
}

/// The ids a visit can reach: node ids and edge targets.
pub open spec fn universe(ns: Seq<NodeV>, es: Seq<EdgeV>) -> Seq<Seq<char>> {
    node_ids(ns) + es.map_values(|e: EdgeV| e.to_node)
}

/// Visits started from the nodes `ns[k..]` in order, each unless already visited.
pub open spec fn cycles_from(
    aid: Seq<char>,
    ns: Seq<NodeV>,
    es: Seq<EdgeV>,
    k: int,
    visited: Seq<Seq<char>>,
    issues: Seq<IssueV>,
) -> Seq<IssueV>
    decreases ns.len() - k,
{
    if k < 0 || k >= ns.len() {
        issues
    } else if visited.contains(ns[k].node_id) {
        cycles_from(aid, ns, es, k + 1, visited, issues)
    } else {
        let (v2, i2) = dfs_visit(aid, es, (ns.len() + es.len()) as nat, ns[k].node_id, visited, Seq::empty(), issues);
        cycles_from(aid, ns, es, k + 1, v2, i2)
    }
}

/// The cycle issues of graph `g`: one per back edge of a depth-first search started
/// from each node in order.
pub open spec fn cycle_issues(g: LogicGraphV) -> Seq<IssueV> {
    cycles_from(g.asset_id, g.nodes, g.edges, 0, Seq::empty(), Seq::empty())
}

pub(crate) fn contains_str(v: &Vec<String>, s: &str) -> (r: bool)
    ensures
        r == strs_view(v@).contains(s@),
{
    let mut i: usize = 0;
    while i < v.len()
        invariant
            i <= v.len(),
            forall|k: int| 0 <= k < i ==> v@[k]@ != s@,
        decreases v.len() - i,
    {
        if str_equal(v[i].as_str(), s) {
            assert(strs_view(v@)[i as int] == s@);
            return true;
        }
        i += 1;
    }
    proof {
        if strs_view(v@).contains(s@) {
            let k = choose|k: int| 0 <= k < strs_view(v@).len() && strs_view(v@)[k] == s@;
            assert(v@[k]@ == s@);
        }
    }
    false
}

/// The bookkeeping of a visit: `visited` holds distinct reachable ids.
pub open spec fn visited_ok(visited: Seq<Seq<char>>, u: Seq<Seq<char>>) -> bool {
    &&& visited.no_duplicates()
    &&& forall|i: int| 0 <= i < visited.len() ==> u.contains(#[trigger] visited[i])
}

proof fn lemma_visit_room(visited: Seq<Seq<char>>, u: Seq<Seq<char>>, node: Seq<char>)
    requires
        visited_ok(visited, u),
        u.contains(node),
        !visited.contains(node),
    ensures
        visited.len() + 1 <= u.len(),
        visited_ok(visited.push(node), u),
{
    let v2 = visited.push(node);
    assert(v2.no_duplicates()) by {
        assert forall|a: int, b: int| 0 <= a < v2.len() && 0 <= b < v2.len() && a != b implies v2[a] != v2[b] by {
            if a == visited.len() {
                assert(v2[b] == visited[b]);
            } else if b == visited.len() {
                assert(v2[a] == visited[a]);
            } else {
                assert(v2[a] == visited[a] && v2[b] == visited[b]);
            }
        }
    }
    assert forall|i: int| 0 <= i < v2.len() implies u.contains(#[trigger] v2[i]) by {
        if i < visited.len() {
            assert(v2[i] == visited[i]);
        }
    }
    lemma_distinct_subset_len(v2, u);
    u.lemma_cardinality_of_set();
}

fn detect_cycles_dfs(
    asset_id: &str,
    edges: &Vec<LogicEdge>,
    node: &str,
    visited: &mut Vec<String>,
    path: &mut Vec<String>,
    issues: &mut Vec<LogicValidationIssue>,
    Ghost(fuel): Ghost<nat>,
    Ghost(u): Ghost<Seq<Seq<char>>>,
)
    requires
        visited_ok(strs_view(old(visited)@), u),
        u.contains(node@),
        !strs_view(old(visited)@).contains(node@),
        forall|j: int| 0 <= j < edges@.len() ==> u.contains(#[trigger] edges@[j].to_node@),
        fuel + old(visited)@.len() >= u.len(),
    ensures
        visited_ok(strs_view(final(visited)@), u),
        final(visited)@.len() > old(visited)@.len(),
        strs_view(final(visited)@).subrange(0, old(visited)@.len() as int) == strs_view(old(visited)@),
        final(path)@ == old(path)@,
        (strs_view(final(visited)@), issues_view(final(issues)@)) == dfs_visit(
            asset_id@,
            edges_view(edges@),
            fuel,
            node@,
            strs_view(old(visited)@),
            strs_view(old(path)@),
            issues_view(old(issues)@),
        ),
    decreases fuel,
{
    let ghost es = edges_view(edges@);
    let ghost v0 = strs_view(visited@);
    let ghost p0 = strs_view(path@);
    let ghost path0 = path@;
    let ghost i0 = issues_view(issues@);
    proof {
        lemma_visit_room(v0, u, node@);
    }
    let ghost f1: nat = (fuel - 1) as nat;
    visited.push(String::from_str(node));
    path.push(String::from_str(node));
    assert(strs_view(visited@) =~= v0.push(node@));
    assert(strs_view(path@) =~= p0.push(node@));
    let ghost p1 = strs_view(path@);
    let ghost v1 = strs_view(visited@);
    let mut j: usize = 0;
    while j < edges.len()
        invariant
            es == edges_view(edges@),
            forall|q: int| 0 <= q < edges@.len() ==> u.contains(#[trigger] edges@[q].to_node@),
            j <= edges.len(),
            p1 == strs_view(path@),
            p1 == p0.push(node@),
            path@ == path0.push(path@[path@.len() - 1]),
            path@.len() == path0.len() + 1,
            v1 == v0.push(node@),
            visited_ok(strs_view(visited@), u),
            visited@.len() >= v1.len(),
            strs_view(visited@).subrange(0, v0.len() as int) == v0,
            f1 + visited@.len() >= u.len(),
            f1 < fuel,
            dfs_edges(asset_id@, es, f1, node@, 0, v1, p1, i0) == dfs_edges(
                asset_id@,
                es,
                f1,
                node@,
                j as int,
                strs_view(visited@),
                p1,
                issues_view(issues@),
            ),
        decreases edges.len() - j,
    {
        let e = &edges[j];
        assert(e@ == es[j as int]);
        if str_equal(e.from_node.as_str(), node) {
            if !contains_str(visited, e.to_node.as_str()) {
                let ghost vb = strs_view(visited@);
                proof {
                    assert(u.contains(edges@[j as int].to_node@));
                }
                detect_cycles_dfs(asset_id, edges, e.to_node.as_str(), visited, path, issues, Ghost(f1), Ghost(u));
                assert(strs_view(visited@).subrange(0, v0.len() as int) =~= strs_view(visited@).subrange(0, vb.len() as int).subrange(
                    0,
                    v0.len() as int,
                ));
            } else if contains_str(path, e.to_node.as_str()) {
                let mut m = String::from_str("cycle detected: ");
                push_quoted(&mut m, node);
                m.append(" -> ");
                push_quoted(&mut m, e.to_node.as_str());
                m.append(" closes a directed loop");
                let i = issue2(LogicValidationIssueCode::Cycle, asset_id, m, node, e.to_node.as_str());
                let ghost prev = issues_view(issues@);
                let ghost iv = i@;
                issues.push(i);
                assert(issues_view(issues@) =~= prev.push(iv));
            }
        }
        j += 1;
    }
    path.pop();
    assert(path@ =~= path0);
}

/// One `Cycle` issue for each back edge found by a depth-first search started from each
/// node, in node order.
pub fn detect_cycles(asset: &LogicGraphAsset) -> (r: Vec<LogicValidationIssue>)
    ensures
        issues_view(r@) == cycle_issues(asset@),
{
    let ghost ns = asset@.nodes;
    let ghost es = asset@.edges;
    let ghost u = universe(ns, es);
    let ghost b: nat = (ns.len() + es.len()) as nat;
    let mut visited: Vec<String> = Vec::new();
    let mut path: Vec<String> = Vec::new();
    let mut issues: Vec<LogicValidationIssue> = Vec::new();
    proof {
        assert forall|q: int| 0 <= q < asset.edges@.len() implies u.contains(#[trigger] asset.edges@[q].to_node@) by {
            assert(u[ns.len() + q] == es[q].to_node);
        }
        assert(strs_view(visited@) =~= Seq::<Seq<char>>::empty());
        assert(issues_view(issues@) =~= Seq::<IssueV>::empty());
    }
    let mut k: usize = 0;
    while k < asset.nodes.len()
        invariant
            ns == asset@.nodes,
            es == asset@.edges,
            u == universe(ns, es),
            b == ns.len() + es.len(),
            u.len() == b,
            forall|q: int| 0 <= q < asset.edges@.len() ==> u.contains(#[trigger] asset.edges@[q].to_node@),
            k <= asset.nodes.len(),
            path@.len() == 0,
            visited_ok(strs_view(visited@), u),
            cycle_issues(asset@) == cycles_from(asset@.asset_id, ns, es, k as int, strs_view(visited@), issues_view(issues@)),
        decreases asset.nodes.len() - k,
    {
        let id = &asset.nodes[k].node_id;
        assert(id@ == ns[k as int].node_id);
        if !contains_str(&visited, id.as_str()) {
            proof {
                assert(u[k as int] == ns[k as int].node_id);
                assert(strs_view(path@) =~= Seq::<Seq<char>>::empty());
            }
            detect_cycles_dfs(asset.asset_id.as_str(), &asset.edges, id.as_str(), &mut visited, &mut path, &mut issues, Ghost(b), Ghost(u));
        }
        k += 1;
    }
    issues
}

// ---------------------------------------------------------------------------
// The whole validation
// ---------------------------------------------------------------------------

/// All issues of graph `g` against the node registry's descriptors `descs` and
/// controllers `ctrls`: duplicate ids, dangling endpoints, port types, cycles and
/// controller references, in that order.
pub open spec fn graph_issues(
    g: LogicGraphV,
    descs: Map<Seq<char>, DescriptorV>,
    ctrls: Map<Seq<char>, crate::logic_evaluator::EvaluatorKind>,
) -> Seq<IssueV> {
    duplicate_ids(g.nodes, g.nodes.len() as int).map_values(|id: Seq<char>| duplicate_issue(g.asset_id, id))
        + dangling_ids(g, g.edges.len() as int).map_values(|id: Seq<char>| dangling_issue(g.asset_id, id))
        + port_issues(g, descs, g.edges.len() as int)
        + cycle_issues(g)
        + controller_issues(g, ctrls, g.nodes.len() as int)
}

fn append_issues(out: &mut Vec<LogicValidationIssue>, more: Vec<LogicValidationIssue>)
    ensures
        issues_view(final(out)@) == issues_view(old(out)@) + issues_view(more@),
{
    let ghost mv = issues_view(more@);
    let ghost ov = issues_view(out@);
    let mut more = more;
    out.append(&mut more);
    assert(issues_view(out@) =~= ov + mv);
}

/// Validate a logic graph against the node registry. An empty result means the graph
/// passed every check.
pub fn validate_logic_graph(asset: &LogicGraphAsset, registry: &LogicNodeRegistry) -> (r: Vec<LogicValidationIssue>)
    requires
        registry.wf(),
    ensures
        issues_view(r@) == graph_issues(asset@, registry.descriptors(), registry.controllers()),
{
    let mut issues: Vec<LogicValidationIssue> = Vec::new();
    let dups = find_duplicate_node_id(asset);
    let mut i: usize = 0;
    while i < dups.len()
        invariant
            i <= dups.len(),
            issues_view(issues@) == strs_view(dups@).subrange(0, i as int).map_values(
                |id: Seq<char>| duplicate_issue(asset@.asset_id, id),
            ),
        decreases dups.len() - i,
    {
        let ghost prev = issues_view(issues@);
        let mut m = String::from_str("duplicate node id ");
        push_quoted(&mut m, dups[i].as_str());
        let it = issue1(LogicValidationIssueCode::DuplicateNodeId, asset.asset_id.as_str(), m, dups[i].as_str());
        let ghost iv = it@;
        assert(iv == duplicate_issue(asset@.asset_id, strs_view(dups@)[i as int]));
        issues.push(it);
        assert(strs_view(dups@).subrange(0, i + 1) =~= strs_view(dups@).subrange(0, i as int).push(strs_view(dups@)[i as int]));
        assert(issues_view(issues@) =~= prev.push(iv));
        assert(issues_view(issues@) =~= strs_view(dups@).subrange(0, i + 1).map_values(
            |id: Seq<char>| duplicate_issue(asset@.asset_id, id),
        ));
        i += 1;
    }
    assert(strs_view(dups@).subrange(0, dups.len() as int) =~= strs_view(dups@));
    let dangling = find_dangling_edge_nodes(asset);
    let ghost first = issues_view(issues@);
    let mut d_issues: Vec<LogicValidationIssue> = Vec::new();
    let mut i: usize = 0;
    while i < dangling.len()
        invariant
            i <= dangling.len(),
            issues_view(d_issues@) == strs_view(dangling@).subrange(0, i as int).map_values(
                |id: Seq<char>| dangling_issue(asset@.asset_id, id),
            ),
        decreases dangling.len() - i,
    {
        let mut m = String::from_str("edge references undefined node ");
        push_quoted(&mut m, dangling[i].as_str());
        let it = issue1(LogicValidationIssueCode::DanglingEdgeEndpoint, asset.asset_id.as_str(), m, dangling[i].as_str());
        let ghost iv = it@;
        let ghost prev = issues_view(d_issues@);
        assert(iv == dangling_issue(asset@.asset_id, strs_view(dangling@)[i as int]));
        d_issues.push(it);
        assert(strs_view(dangling@).subrange(0, i + 1) =~= strs_view(dangling@).subrange(0, i as int).push(strs_view(dangling@)[i as int]));
        assert(issues_view(d_issues@) =~= prev.push(iv));
        assert(issues_view(d_issues@) =~= strs_view(dangling@).subrange(0, i + 1).map_values(
            |id: Seq<char>| dangling_issue(asset@.asset_id, id),
        ));
        i += 1;
    }
    assert(strs_view(dangling@).subrange(0, dangling.len() as int) =~= strs_view(dangling@));
    append_issues(&mut issues, d_issues);
    append_issues(&mut issues, validate_edge_port_types(asset, registry));
    append_issues(&mut issues, detect_cycles(asset));
    append_issues(&mut issues, validate_controller_refs(asset, registry));
    issues
}

// ---------------------------------------------------------------------------
// Law: every reported cycle is a real directed loop
// ---------------------------------------------------------------------------

/// Some edge of `es` goes from `a` to `b`.
pub open spec fn has_edge(es: Seq<EdgeV>, a: Seq<char>, b: Seq<char>) -> bool {
    exists|j: int| 0 <= j < es.len() && (#[trigger] es[j]).from_node == a && es[j].to_node == b
}

/// Each element of `p` has an edge to the next one.
pub open spec fn is_walk(es: Seq<EdgeV>, p: Seq<Seq<char>>) -> bool {
    forall|i: int, k: int| 0 <= i && k == i + 1 && k < p.len() ==> has_edge(es, #[trigger] p[i], #[trigger] p[k])
}

/// The edge `from -> to` exists and a walk leads from `to` back to `from`: together they
/// form a directed loop.
pub open spec fn closes_loop(es: Seq<EdgeV>, from: Seq<char>, to: Seq<char>) -> bool {
    &&& has_edge(es, from, to)
    &&& exists|p: Seq<Seq<char>>| #![trigger is_walk(es, p)] is_walk(es, p) && p.len() > 0 && p[0] == to && p.last() == from
}

/// An issue whose two affected nodes close a directed loop.
pub open spec fn names_loop(es: Seq<EdgeV>, iv: IssueV) -> bool {
    iv.affected.len() == 2 && closes_loop(es, iv.affected[0], iv.affected[1])
}

/// Every issue of `issues` names a directed loop.
pub open spec fn all_name_loops(es: Seq<EdgeV>, issues: Seq<IssueV>) -> bool {
    forall|i: int| 0 <= i < issues.len() ==> names_loop(es, #[trigger] issues[i])
}

proof fn lemma_walk_push(es: Seq<EdgeV>, p: Seq<Seq<char>>, x: Seq<char>)
    requires
        is_walk(es, p),
        p.len() > 0 ==> has_edge(es, p.last(), x),
    ensures
        is_walk(es, p.push(x)),
{
    let q = p.push(x);
    assert forall|i: int, k: int| 0 <= i && k == i + 1 && k < q.len() implies has_edge(es, #[trigger] q[i], #[trigger] q[k]) by {
        if k < p.len() {
            assert(q[i] == p[i] && q[k] == p[k]);
        } else {
            assert(q[i] == p.last());
        }
    }
}

proof fn lemma_dfs_visit_names_loops(
    aid: Seq<char>,
    es: Seq<EdgeV>,
    fuel: nat,
    node: Seq<char>,
    visited: Seq<Seq<char>>,
    path: Seq<Seq<char>>,
    issues: Seq<IssueV>,
)
    requires
        is_walk(es, path),
        path.len() > 0 ==> has_edge(es, path.last(), node),
        all_name_loops(es, issues),
    ensures
        all_name_loops(es, dfs_visit(aid, es, fuel, node, visited, path, issues).1),
    decreases fuel, 0int, 0int,
{
    if fuel > 0 {
        lemma_walk_push(es, path, node);
        lemma_dfs_edges_names_loops(aid, es, (fuel - 1) as nat, node, 0, visited.push(node), path.push(node), issues);
    }
}

proof fn lemma_dfs_edges_names_loops(
    aid: Seq<char>,
    es: Seq<EdgeV>,
    fuel: nat,
    node: Seq<char>,
    j: int,
    visited: Seq<Seq<char>>,
    path: Seq<Seq<char>>,
    issues: Seq<IssueV>,
)
    requires
        is_walk(es, path),
        path.len() > 0,
        path.last() == node,
        all_name_loops(es, issues),
    ensures
        all_name_loops(es, dfs_edges(aid, es, fuel, node, j, visited, path, issues).1),
    decreases fuel, 1int, es.len() - j,
{
    if 0 <= j < es.len() {
        let e = es[j];
        if e.from_node != node {
            lemma_dfs_edges_names_loops(aid, es, fuel, node, j + 1, visited, path, issues);
        } else if !visited.contains(e.to_node) {
            assert(has_edge(es, path.last(), e.to_node));
            lemma_dfs_visit_names_loops(aid, es, fuel, e.to_node, visited, path, issues);
            let (v2, i2) = dfs_visit(aid, es, fuel, e.to_node, visited, path, issues);
            lemma_dfs_edges_names_loops(aid, es, fuel, node, j + 1, v2, path, i2);
        } else if path.contains(e.to_node) {
            let t = choose|t: int| 0 <= t < path.len() && path[t] == e.to_node;
            let w = path.subrange(t, path.len() as int);
            assert(is_walk(es, w)) by {
                assert forall|i: int, k: int| 0 <= i && k == i + 1 && k < w.len() implies has_edge(es, #[trigger] w[i], #[trigger] w[k]) by {
                    assert(w[i] == path[t + i] && w[k] == path[t + k]);
                    assert(has_edge(es, path[t + i], path[t + k]));
                }
            }
            assert(w[0] == e.to_node && w.last() == node);
            assert(has_edge(es, node, e.to_node));
            let iv = cycle_issue(aid, node, e.to_node);
            assert(names_loop(es, iv));
            let i2 = issues.push(iv);
            assert(all_name_loops(es, i2)) by {
                assert forall|i: int| 0 <= i < i2.len() implies names_loop(es, #[trigger] i2[i]) by {
                    if i < issues.len() {
                        assert(i2[i] == issues[i]);
                    }
                }
            }
            lemma_dfs_edges_names_loops(aid, es, fuel, node, j + 1, visited, path, i2);
        } else {
            lemma_dfs_edges_names_loops(aid, es, fuel, node, j + 1, visited, path, issues);
        }
    }
}

proof fn lemma_cycles_from_names_loops(
    aid: Seq<char>,
    ns: Seq<NodeV>,
    es: Seq<EdgeV>,
    k: int,
    visited: Seq<Seq<char>>,
    issues: Seq<IssueV>,
)
    requires
        all_name_loops(es, issues),
    ensures
        all_name_loops(es, cycles_from(aid, ns, es, k, visited, issues)),
    decreases ns.len() - k,
{
    if 0 <= k < ns.len() {
        if visited.contains(ns[k].node_id) {
            lemma_cycles_from_names_loops(aid, ns, es, k + 1, visited, issues);
        } else {
            let fuel = (ns.len() + es.len()) as nat;
            assert(is_walk(es, Seq::<Seq<char>>::empty()));
            lemma_dfs_visit_names_loops(aid, es, fuel, ns[k].node_id, visited, Seq::empty(), issues);
            let (v2, i2) = dfs_visit(aid, es, fuel, ns[k].node_id, visited, Seq::empty(), issues);
            lemma_cycles_from_names_loops(aid, ns, es, k + 1, v2, i2);
        }
    }
}

/// Every cycle that validation reports is real: its two nodes are joined by an edge that,
/// with a walk from the second back to the first, closes a directed loop. So a graph
/// without a directed loop gets no cycle issue.
pub proof fn law_reported_cycles_are_real(g: LogicGraphV)
    ensures
        all_name_loops(g.edges, cycle_issues(g)),
        (forall|a: Seq<char>, b: Seq<char>| !#[trigger] closes_loop(g.edges, a, b)) ==> cycle_issues(g).len() == 0,
{
    lemma_cycles_from_names_loops(g.asset_id, g.nodes, g.edges, 0, Seq::empty(), Seq::empty());
    let c = cycle_issues(g);
    if (forall|a: Seq<char>, b: Seq<char>| !#[trigger] closes_loop(g.edges, a, b)) && c.len() > 0 {
        assert(names_loop(g.edges, c[0]));
        assert(closes_loop(g.edges, c[0].affected[0], c[0].affected[1]));
    }
}

// ---------------------------------------------------------------------------
// Law: a directed loop through a node is always reported
// ---------------------------------------------------------------------------

/// The depth-first visit again, also listing the nodes in the order their visits finish.
spec fn visit_fin(
    aid: Seq<char>,
    es: Seq<EdgeV>,
    fuel: nat,
    node: Seq<char>,
    visited: Seq<Seq<char>>,
    path: Seq<Seq<char>>,
    issues: Seq<IssueV>,
    fin: Seq<Seq<char>>,
) -> (Seq<Seq<char>>, Seq<IssueV>, Seq<Seq<char>>)
    decreases fuel, 0int, 0int,
{
    if fuel == 0 {
        (visited, issues, fin)
    } else {
        let r = edges_fin(aid, es, (fuel - 1) as nat, node, 0, visited.push(node), path.push(node), issues, fin);
        (r.0, r.1, r.2.push(node))
    }
}

/// The edge loop of the visit again, also listing finished nodes.
spec fn edges_fin(
    aid: Seq<char>,
    es: Seq<EdgeV>,
    fuel: nat,
    node: Seq<char>,
    j: int,
    visited: Seq<Seq<char>>,
    path: Seq<Seq<char>>,
    issues: Seq<IssueV>,
    fin: Seq<Seq<char>>,
) -> (Seq<Seq<char>>, Seq<IssueV>, Seq<Seq<char>>)
    decreases fuel, 1int, es.len() - j,
{
    if j < 0 || j >= es.len() {
        (visited, issues, fin)
    } else {
        let e = es[j];
        if e.from_node != node {
            edges_fin(aid, es, fuel, node, j + 1, visited, path, issues, fin)
        } else if !visited.contains(e.to_node) {
            let r = visit_fin(aid, es, fuel, e.to_node, visited, path, issues, fin);
            edges_fin(aid, es, fuel, node, j + 1, r.0, path, r.1, r.2)
        } else if path.contains(e.to_node) {
            edges_fin(aid, es, fuel, node, j + 1, visited, path, issues.push(cycle_issue(aid, node, e.to_node)), fin)
        } else {
            edges_fin(aid, es, fuel, node, j + 1, visited, path, issues, fin)
        }
    }
}

/// The top-level searches again, also listing finished nodes.
spec fn cycles_fin(
    aid: Seq<char>,
    ns: Seq<NodeV>,
    es: Seq<EdgeV>,
    k: int,
    visited: Seq<Seq<char>>,
    issues: Seq<IssueV>,
    fin: Seq<Seq<char>>,
) -> (Seq<Seq<char>>, Seq<IssueV>, Seq<Seq<char>>)
    decreases ns.len() - k,
{
    if k < 0 || k >= ns.len() {
        (visited, issues, fin)
    } else if visited.contains(ns[k].node_id) {
        cycles_fin(aid, ns, es, k + 1, visited, issues, fin)
    } else {
        let r = visit_fin(aid, es, (ns.len() + es.len()) as nat, ns[k].node_id, visited, Seq::empty(), issues, fin);
        cycles_fin(aid, ns, es, k + 1, r.0, r.1, r.2)
    }
}

proof fn lemma_visit_fin_agrees(
    aid: Seq<char>,
    es: Seq<EdgeV>,
    fuel: nat,
    node: Seq<char>,
    visited: Seq<Seq<char>>,
    path: Seq<Seq<char>>,
    issues: Seq<IssueV>,
    fin: Seq<Seq<char>>,
)
    ensures
        ({
            let r = visit_fin(aid, es, fuel, node, visited, path, issues, fin);
            (r.0, r.1) == dfs_visit(aid, es, fuel, node, visited, path, issues)
        }),
    decreases fuel, 0int, 0int,
{
    if fuel > 0 {
        lemma_edges_fin_agrees(aid, es, (fuel - 1) as nat, node, 0, visited.push(node), path.push(node), issues, fin);
    }
}

proof fn lemma_edges_fin_agrees(
    aid: Seq<char>,
    es: Seq<EdgeV>,
    fuel: nat,
    node: Seq<char>,
    j: int,
    visited: Seq<Seq<char>>,
    path: Seq<Seq<char>>,
    issues: Seq<IssueV>,
    fin: Seq<Seq<char>>,
)
    ensures
        ({
            let r = edges_fin(aid, es, fuel, node, j, visited, path, issues, fin);
            (r.0, r.1) == dfs_edges(aid, es, fuel, node, j, visited, path, issues)
        }),
    decreases fuel, 1int, es.len() - j,
{
    if 0 <= j < es.len() {
        let e = es[j];
        if e.from_node != node {
            lemma_edges_fin_agrees(aid, es, fuel, node, j + 1, visited, path, issues, fin);
        } else if !visited.contains(e.to_node) {
            lemma_visit_fin_agrees(aid, es, fuel, e.to_node, visited, path, issues, fin);
            let r = visit_fin(aid, es, fuel, e.to_node, visited, path, issues, fin);
            lemma_edges_fin_agrees(aid, es, fuel, node, j + 1, r.0, path, r.1, r.2);
        } else if path.contains(e.to_node) {
            lemma_edges_fin_agrees(aid, es, fuel, node, j + 1, visited, path, issues.push(cycle_issue(aid, node, e.to_node)), fin);
        } else {
            lemma_edges_fin_agrees(aid, es, fuel, node, j + 1, visited, path, issues, fin);
        }
    }
}

proof fn lemma_cycles_fin_agrees(
    aid: Seq<char>,
    ns: Seq<NodeV>,
    es: Seq<EdgeV>,
    k: int,
    visited: Seq<Seq<char>>,
    issues: Seq<IssueV>,
    fin: Seq<Seq<char>>,
)
    ensures
        cycles_fin(aid, ns, es, k, visited, issues, fin).1 == cycles_from(aid, ns, es, k, visited, issues),
    decreases ns.len() - k,
{
    if 0 <= k < ns.len() {
        if visited.contains(ns[k].node_id) {
            lemma_cycles_fin_agrees(aid, ns, es, k + 1, visited, issues, fin);
        } else {
            let fuel = (ns.len() + es.len()) as nat;
            lemma_visit_fin_agrees(aid, es, fuel, ns[k].node_id, visited, Seq::empty(), issues, fin);
            let r = visit_fin(aid, es, fuel, ns[k].node_id, visited, Seq::empty(), issues, fin);
            lemma_cycles_fin_agrees(aid, ns, es, k + 1, r.0, r.1, r.2);
        }
    }
}

/// How many of the positions `u[..n]` hold an id that `v` does not contain.
spec fn unvisited(u: Seq<Seq<char>>, v: Seq<Seq<char>>, n: int) -> nat
    decreases n,
{
    if n <= 0 || n > u.len() {
        0
    } else {
        unvisited(u, v, n - 1) + if v.contains(u[n - 1]) { 0nat } else { 1nat }
    }
}

/// Every id of `a` occurs in `b`.
spec fn ids_within(a: Seq<Seq<char>>, b: Seq<Seq<char>>) -> bool {
    forall|x: Seq<char>| a.contains(x) ==> b.contains(x)
}

proof fn lemma_unvisited_bound(u: Seq<Seq<char>>, v: Seq<Seq<char>>, n: int)
    requires
        0 <= n <= u.len(),
    ensures
        unvisited(u, v, n) <= n,
    decreases n,
{
    if n > 0 {
        lemma_unvisited_bound(u, v, n - 1);
    }
}

/// Visiting more ids never raises the count, and visiting a new id of `u[..n]` lowers it.
proof fn lemma_unvisited_drop(u: Seq<Seq<char>>, v: Seq<Seq<char>>, w: Seq<Seq<char>>, n: int, x: Seq<char>)
    requires
        0 <= n <= u.len(),
        ids_within(v, w),
    ensures
        unvisited(u, w, n) <= unvisited(u, v, n),
        (exists|i: int| 0 <= i < n && u[i] == x) && w.contains(x) && !v.contains(x) ==> unvisited(u, w, n) < unvisited(u, v, n),
    decreases n,
{
    if n > 0 {
        lemma_unvisited_drop(u, v, w, n - 1, x);
        if (exists|i: int| 0 <= i < n && u[i] == x) && w.contains(x) && !v.contains(x) {
            if u[n - 1] != x {
                let i = choose|i: int| 0 <= i < n && u[i] == x;
                assert(0 <= i < n - 1);
            }
        }
    }
}

proof fn lemma_visit_fin_grows(
    aid: Seq<char>,
    es: Seq<EdgeV>,
    fuel: nat,
    node: Seq<char>,
    visited: Seq<Seq<char>>,
    path: Seq<Seq<char>>,
    issues: Seq<IssueV>,
    fin: Seq<Seq<char>>,
)
    ensures
        ({
            let r = visit_fin(aid, es, fuel, node, visited, path, issues, fin);
            r.1.len() >= issues.len() && ids_within(visited, r.0)
        }),
    decreases fuel, 0int, 0int,
{
    if fuel > 0 {
        lemma_edges_fin_grows(aid, es, (fuel - 1) as nat, node, 0, visited.push(node), path.push(node), issues, fin);
        assert(ids_within(visited, visited.push(node))) by {
            assert forall|x: Seq<char>| visited.contains(x) implies visited.push(node).contains(x) by {
                let i = choose|i: int| 0 <= i < visited.len() && visited[i] == x;
                assert(visited.push(node)[i] == x);
            }
        }
    }
}

proof fn lemma_edges_fin_grows(
    aid: Seq<char>,
    es: Seq<EdgeV>,
    fuel: nat,
    node: Seq<char>,
    j: int,
    visited: Seq<Seq<char>>,
    path: Seq<Seq<char>>,
    issues: Seq<IssueV>,
    fin: Seq<Seq<char>>,
)
    ensures
        ({
            let r = edges_fin(aid, es, fuel, node, j, visited, path, issues, fin);
            r.1.len() >= issues.len() && ids_within(visited, r.0)
        }),
    decreases fuel, 1int, es.len() - j,
{
    if 0 <= j < es.len() {
        let e = es[j];
        if e.from_node != node {
            lemma_edges_fin_grows(aid, es, fuel, node, j + 1, visited, path, issues, fin);
        } else if !visited.contains(e.to_node) {
            lemma_visit_fin_grows(aid, es, fuel, e.to_node, visited, path, issues, fin);
            let r = visit_fin(aid, es, fuel, e.to_node, visited, path, issues, fin);
            lemma_edges_fin_grows(aid, es, fuel, node, j + 1, r.0, path, r.1, r.2);
        } else if path.contains(e.to_node) {
            lemma_edges_fin_grows(aid, es, fuel, node, j + 1, visited, path, issues.push(cycle_issue(aid, node, e.to_node)), fin);
        } else {
            lemma_edges_fin_grows(aid, es, fuel, node, j + 1, visited, path, issues, fin);
        }
    }
}

proof fn lemma_cycles_fin_grows(
    aid: Seq<char>,
    ns: Seq<NodeV>,
    es: Seq<EdgeV>,
    k: int,
    visited: Seq<Seq<char>>,
    issues: Seq<IssueV>,
    fin: Seq<Seq<char>>,
)
    ensures
        cycles_fin(aid, ns, es, k, visited, issues, fin).1.len() >= issues.len(),
    decreases ns.len() - k,
{
    if 0 <= k < ns.len() {
        if visited.contains(ns[k].node_id) {
            lemma_cycles_fin_grows(aid, ns, es, k + 1, visited, issues, fin);
        } else {
            let fuel = (ns.len() + es.len()) as nat;
            lemma_visit_fin_grows(aid, es, fuel, ns[k].node_id, visited, Seq::empty(), issues, fin);
            let r = visit_fin(aid, es, fuel, ns[k].node_id, visited, Seq::empty(), issues, fin);
            lemma_cycles_fin_grows(aid, ns, es, k + 1, r.0, r.1, r.2);
        }
    }
}

/// Every edge that leaves a finished node leads to a node that finished earlier.
spec fn finish_closed(es: Seq<EdgeV>, fin: Seq<Seq<char>>) -> bool {
    forall|k: int, j: int|
        0 <= k < fin.len() && 0 <= j < es.len() && (#[trigger] es[j]).from_node == #[trigger] fin[k] ==> exists|m: int|
            #![trigger fin[m]]
            0 <= m < k && fin[m] == es[j].to_node
}

/// The search state: visited ids are those on the path or finished, never both, and
/// finished nodes only lead to nodes finished before them.
spec fn search_inv(es: Seq<EdgeV>, visited: Seq<Seq<char>>, path: Seq<Seq<char>>, fin: Seq<Seq<char>>) -> bool {
    &&& forall|x: Seq<char>| #[trigger] visited.contains(x) <==> (path.contains(x) || fin.contains(x))
    &&& forall|x: Seq<char>| !(#[trigger] path.contains(x) && fin.contains(x))
    &&& finish_closed(es, fin)
}

/// `a` is where `b` starts.
spec fn is_prefix_of(a: Seq<Seq<char>>, b: Seq<Seq<char>>) -> bool {
    a.len() <= b.len() && b.subrange(0, a.len() as int) == a
}

/// The edges `es[..j]` that leave `node` lead to finished nodes.
spec fn done_upto(es: Seq<EdgeV>, node: Seq<char>, j: int, fin: Seq<Seq<char>>) -> bool {
    forall|i: int| 0 <= i < j && i < es.len() && (#[trigger] es[i]).from_node == node ==> fin.contains(es[i].to_node)
}

/// Every edge target is an id of `u`.
spec fn targets_within(es: Seq<EdgeV>, u: Seq<Seq<char>>) -> bool {
    forall|j: int| 0 <= j < es.len() ==> u.contains((#[trigger] es[j]).to_node)
}

proof fn lemma_push_contains(s: Seq<Seq<char>>, a: Seq<char>, x: Seq<char>)
    ensures
        s.push(a).contains(x) == (s.contains(x) || x == a),
{
    let t = s.push(a);
    if t.contains(x) && x != a {
        let i = choose|i: int| 0 <= i < t.len() && t[i] == x;
        assert(s[i] == x);
    }
    if s.contains(x) {
        let i = choose|i: int| 0 <= i < s.len() && s[i] == x;
        assert(t[i] == x);
    }
    if x == a {
        assert(t[s.len() as int] == a);
    }
}

proof fn lemma_prefix_keeps(a: Seq<Seq<char>>, b: Seq<Seq<char>>)
    requires
        is_prefix_of(a, b),
    ensures
        ids_within(a, b),
        forall|i: int| 0 <= i < a.len() ==> #[trigger] b[i] == a[i],
{
    assert forall|i: int| 0 <= i < a.len() implies #[trigger] b[i] == a[i] by {
        assert(b.subrange(0, a.len() as int)[i] == b[i]);
    }
    assert forall|x: Seq<char>| a.contains(x) implies b.contains(x) by {
        let i = choose|i: int| 0 <= i < a.len() && a[i] == x;
        assert(b[i] == a[i]);
    }
}

proof fn lemma_finish_closed_prefix(es: Seq<EdgeV>, a: Seq<Seq<char>>, b: Seq<Seq<char>>)
    requires
        finish_closed(es, b),
        is_prefix_of(a, b),
    ensures
        finish_closed(es, a),
{
    lemma_prefix_keeps(a, b);
    assert forall|k: int, j: int|
        0 <= k < a.len() && 0 <= j < es.len() && (#[trigger] es[j]).from_node == #[trigger] a[k] implies exists|m: int|
            #![trigger a[m]]
            0 <= m < k && a[m] == es[j].to_node by {
        assert(b[k] == a[k]);
        let m = choose|m: int| #![trigger b[m]] 0 <= m < k && b[m] == es[j].to_node;
        assert(a[m] == b[m]);
    }
}

proof fn lemma_visit_fin_inv(
    aid: Seq<char>,
    es: Seq<EdgeV>,
    u: Seq<Seq<char>>,
    fuel: nat,
    node: Seq<char>,
    visited: Seq<Seq<char>>,
    path: Seq<Seq<char>>,
    issues: Seq<IssueV>,
    fin: Seq<Seq<char>>,
)
    requires
        search_inv(es, visited, path, fin),
        targets_within(es, u),
        u.contains(node),
        !visited.contains(node),
        fuel >= unvisited(u, visited, u.len() as int),
    ensures
        ({
            let r = visit_fin(aid, es, fuel, node, visited, path, issues, fin);
            r.1.len() == issues.len() ==> {
                &&& search_inv(es, r.0, path, r.2)
                &&& is_prefix_of(fin, r.2)
                &&& r.2.contains(node)
            }
        }),
    decreases fuel, 0int, 0int,
{
    let v1 = visited.push(node);
    let p1 = path.push(node);
    assert(v1.contains(node)) by {
        assert(v1[visited.len() as int] == node);
    }
    assert(ids_within(visited, v1)) by {
        assert forall|x: Seq<char>| visited.contains(x) implies v1.contains(x) by {
            let i = choose|i: int| 0 <= i < visited.len() && visited[i] == x;
            assert(v1[i] == x);
        }
    }
    lemma_unvisited_drop(u, visited, v1, u.len() as int, node);
    assert(fuel > 0);
    let f1 = (fuel - 1) as nat;
    assert forall|x: Seq<char>| #[trigger] v1.contains(x) == (visited.contains(x) || x == node) by {
        lemma_push_contains(visited, node, x);
    }
    assert forall|x: Seq<char>| #[trigger] p1.contains(x) == (path.contains(x) || x == node) by {
        lemma_push_contains(path, node, x);
    }
    assert(!fin.contains(node));
    assert(search_inv(es, v1, p1, fin)) by {
        assert forall|x: Seq<char>| #[trigger] v1.contains(x) <==> (p1.contains(x) || fin.contains(x)) by {
            assert(visited.contains(x) <==> (path.contains(x) || fin.contains(x)));
        }
        assert forall|x: Seq<char>| !(#[trigger] p1.contains(x) && fin.contains(x)) by {
            assert(!(path.contains(x) && fin.contains(x)));
        }
    }
    assert(p1.last() == node);
    lemma_edges_fin_inv(aid, es, u, f1, node, 0, v1, p1, issues, fin);
    let r = edges_fin(aid, es, f1, node, 0, v1, p1, issues, fin);
    if r.1.len() == issues.len() {
        let f3 = r.2.push(node);
        assert(f3.subrange(0, r.2.len() as int) =~= r.2);
        lemma_prefix_keeps(r.2, f3);
        assert(r.2.subrange(0, fin.len() as int) == fin);
        assert(f3.subrange(0, fin.len() as int) =~= r.2.subrange(0, fin.len() as int));
        assert forall|x: Seq<char>| #[trigger] f3.contains(x) == (r.2.contains(x) || x == node) by {
            lemma_push_contains(r.2, node, x);
        }
        assert(!r.2.contains(node)) by {
            assert(p1.contains(node));
            assert(!(p1.contains(node) && r.2.contains(node)));
        }
        assert(!path.contains(node));
        assert forall|x: Seq<char>| #[trigger] r.0.contains(x) <==> (path.contains(x) || f3.contains(x)) by {
            assert(r.0.contains(x) <==> (p1.contains(x) || r.2.contains(x)));
            assert(p1.contains(x) == (path.contains(x) || x == node));
        }
        assert forall|x: Seq<char>| !(#[trigger] path.contains(x) && f3.contains(x)) by {
            assert(!(p1.contains(x) && r.2.contains(x)));
            assert(p1.contains(x) == (path.contains(x) || x == node));
        }
        assert(f3.contains(node));
        assert(finish_closed(es, f3)) by {
            assert forall|k: int, j: int|
                0 <= k < f3.len() && 0 <= j < es.len() && (#[trigger] es[j]).from_node == #[trigger] f3[k] implies exists|m: int|
                    #![trigger f3[m]]
                    0 <= m < k && f3[m] == es[j].to_node by {
                if k < r.2.len() {
                    assert(f3[k] == r.2[k]);
                    let m = choose|m: int| #![trigger r.2[m]] 0 <= m < k && r.2[m] == es[j].to_node;
                    assert(f3[m] == r.2[m]);
                } else {
                    assert(f3[k] == node);
                    assert(r.2.contains(es[j].to_node));
                    let m = choose|m: int| 0 <= m < r.2.len() && r.2[m] == es[j].to_node;
                    assert(f3[m] == r.2[m]);
                }
            }
        }
    }
}

proof fn lemma_edges_fin_inv(
    aid: Seq<char>,
    es: Seq<EdgeV>,
    u: Seq<Seq<char>>,
    fuel: nat,
    node: Seq<char>,
    j: int,
    visited: Seq<Seq<char>>,
    path: Seq<Seq<char>>,
    issues: Seq<IssueV>,
    fin: Seq<Seq<char>>,
)
    requires
        search_inv(es, visited, path, fin),
        targets_within(es, u),
        path.len() > 0,
        path.last() == node,
        0 <= j,
        done_upto(es, node, j, fin),
        fuel >= unvisited(u, visited, u.len() as int),
    ensures
        ({
            let r = edges_fin(aid, es, fuel, node, j, visited, path, issues, fin);
            r.1.len() == issues.len() ==> {
                &&& search_inv(es, r.0, path, r.2)
                &&& is_prefix_of(fin, r.2)
                &&& done_upto(es, node, es.len() as int, r.2)
            }
        }),
    decreases fuel, 1int, es.len() - j,
{
    assert(fin.subrange(0, fin.len() as int) =~= fin);
    if j < es.len() {
        let e = es[j];
        if e.from_node != node {
            lemma_edges_fin_inv(aid, es, u, fuel, node, j + 1, visited, path, issues, fin);
        } else if !visited.contains(e.to_node) {
            lemma_visit_fin_grows(aid, es, fuel, e.to_node, visited, path, issues, fin);
            lemma_visit_fin_inv(aid, es, u, fuel, e.to_node, visited, path, issues, fin);
            let r = visit_fin(aid, es, fuel, e.to_node, visited, path, issues, fin);
            lemma_edges_fin_grows(aid, es, fuel, node, j + 1, r.0, path, r.1, r.2);
            if r.1.len() == issues.len() {
                lemma_prefix_keeps(fin, r.2);
                lemma_unvisited_drop(u, visited, r.0, u.len() as int, node);
                assert(done_upto(es, node, j + 1, r.2));
                lemma_edges_fin_inv(aid, es, u, fuel, node, j + 1, r.0, path, r.1, r.2);
                let r2 = edges_fin(aid, es, fuel, node, j + 1, r.0, path, r.1, r.2);
                if r2.1.len() == issues.len() {
                    lemma_prefix_keeps(r.2, r2.2);
                    assert(r2.2.subrange(0, fin.len() as int) =~= r.2.subrange(0, fin.len() as int));
                }
            }
        } else if path.contains(e.to_node) {
            lemma_edges_fin_grows(aid, es, fuel, node, j + 1, visited, path, issues.push(cycle_issue(aid, node, e.to_node)), fin);
        } else {
            assert(fin.contains(e.to_node));
            assert(done_upto(es, node, j + 1, fin));
            lemma_edges_fin_inv(aid, es, u, fuel, node, j + 1, visited, path, issues, fin);
        }
    }
}

proof fn lemma_cycles_fin_inv(
    aid: Seq<char>,
    ns: Seq<NodeV>,
    es: Seq<EdgeV>,
    u: Seq<Seq<char>>,
    k: int,
    visited: Seq<Seq<char>>,
    issues: Seq<IssueV>,
    fin: Seq<Seq<char>>,
)
    requires
        search_inv(es, visited, Seq::empty(), fin),
        targets_within(es, u),
        forall|i: int| 0 <= i < ns.len() ==> u.contains(#[trigger] ns[i].node_id),
        u.len() == ns.len() + es.len(),
        0 <= k,
    ensures
        ({
            let r = cycles_fin(aid, ns, es, k, visited, issues, fin);
            r.1.len() == issues.len() ==> {
                &&& search_inv(es, r.0, Seq::empty(), r.2)
                &&& ids_within(visited, r.0)
                &&& forall|i: int| k <= i < ns.len() ==> r.0.contains(#[trigger] ns[i].node_id)
            }
        }),
    decreases ns.len() - k,
{
    let r = cycles_fin(aid, ns, es, k, visited, issues, fin);
    if k < ns.len() {
        if visited.contains(ns[k].node_id) {
            lemma_cycles_fin_inv(aid, ns, es, u, k + 1, visited, issues, fin);
        } else {
            let fuel = (ns.len() + es.len()) as nat;
            lemma_unvisited_bound(u, visited, u.len() as int);
            lemma_visit_fin_grows(aid, es, fuel, ns[k].node_id, visited, Seq::empty(), issues, fin);
            lemma_visit_fin_inv(aid, es, u, fuel, ns[k].node_id, visited, Seq::empty(), issues, fin);
            let r1 = visit_fin(aid, es, fuel, ns[k].node_id, visited, Seq::empty(), issues, fin);
            lemma_cycles_fin_grows(aid, ns, es, k + 1, r1.0, r1.1, r1.2);
            if r1.1.len() == issues.len() {
                lemma_cycles_fin_inv(aid, ns, es, u, k + 1, r1.0, r1.1, r1.2);
                assert(r1.0.contains(ns[k].node_id));
            }
        }
    } else {
        assert(ids_within(visited, visited));
    }
}

proof fn lemma_walk_finished_before(es: Seq<EdgeV>, fin: Seq<Seq<char>>, p: Seq<Seq<char>>, k0: int, i: int)
    requires
        finish_closed(es, fin),
        is_walk(es, p),
        0 <= k0 < fin.len(),
        p.len() > 0,
        fin[k0] == p[0],
        0 <= i < p.len(),
    ensures
        exists|m: int| 0 <= m <= k0 && #[trigger] fin[m] == p[i],
    decreases i,
{
    if i == 0 {
        assert(fin[k0] == p[0]);
    } else {
        lemma_walk_finished_before(es, fin, p, k0, i - 1);
        let m1 = choose|m: int| 0 <= m <= k0 && #[trigger] fin[m] == p[i - 1];
        assert(has_edge(es, p[i - 1], p[i]));
        let j = choose|j: int| 0 <= j < es.len() && (#[trigger] es[j]).from_node == p[i - 1] && es[j].to_node == p[i];
        assert(es[j].from_node == fin[m1]);
        let m = choose|m: int| #![trigger fin[m]] 0 <= m < m1 && fin[m] == es[j].to_node;
        assert(fin[m] == p[i]);
    }
}

/// Validation reports a cycle whenever a directed loop passes through a node of the graph:
/// an edge `from -> to`, with `to` a node and a walk from `to` back to `from`.
pub proof fn law_loops_through_nodes_are_reported(g: LogicGraphV, from: Seq<char>, to: Seq<char>)
    requires
        closes_loop(g.edges, from, to),
        has_node(g.nodes, to),
    ensures
        cycle_issues(g).len() > 0,
{
    let ns = g.nodes;
    let es = g.edges;
    let u = universe(ns, es);
    assert(u.len() == ns.len() + es.len());
    assert forall|j: int| 0 <= j < es.len() implies u.contains((#[trigger] es[j]).to_node) by {
        assert(u[ns.len() + j] == es[j].to_node);
    }
    assert forall|i: int| 0 <= i < ns.len() implies u.contains(#[trigger] ns[i].node_id) by {
        assert(u[i] == ns[i].node_id);
    }
    let e: Seq<Seq<char>> = Seq::empty();
    assert(search_inv(es, e, e, e));
    lemma_cycles_fin_agrees(g.asset_id, ns, es, 0, e, Seq::empty(), e);
    lemma_cycles_fin_inv(g.asset_id, ns, es, u, 0, e, Seq::empty(), e);
    let r = cycles_fin(g.asset_id, ns, es, 0, e, Seq::empty(), e);
    if cycle_issues(g).len() == 0 {
        let fin = r.2;
        let kt = choose|k: int| 0 <= k < ns.len() && (#[trigger] ns[k]).node_id == to;
        assert(r.0.contains(ns[kt].node_id));
        assert(fin.contains(to));
        let pred = |x: Seq<char>| x == to;
        lemma_first_match(fin, pred);
        let k0 = first_match(fin, pred);
        assert(pred(fin[k0]));
        let p = choose|p: Seq<Seq<char>>| #![trigger is_walk(es, p)] is_walk(es, p) && p.len() > 0 && p[0] == to && p.last() == from;
        lemma_walk_finished_before(es, fin, p, k0, p.len() - 1);
        let ma = choose|m: int| 0 <= m <= k0 && #[trigger] fin[m] == p[p.len() - 1];
        let j = choose|j: int| 0 <= j < es.len() && (#[trigger] es[j]).from_node == from && es[j].to_node == to;
        assert(es[j].from_node == fin[ma]);
        let m = choose|m: int| #![trigger fin[m]] 0 <= m < ma && fin[m] == es[j].to_node;
        assert(pred(fin[m]));
        assert(false);
    }
}

/// On a graph whose edges all lead to nodes of the graph, validation reports no cycle
/// exactly when the graph has no directed loop.
pub proof fn law_no_cycle_issue_iff_no_loop(g: LogicGraphV)
    requires
        forall|j: int| 0 <= j < g.edges.len() ==> has_node(g.nodes, (#[trigger] g.edges[j]).to_node),
    ensures
        cycle_issues(g).len() == 0 <==> (forall|a: Seq<char>, b: Seq<char>| !#[trigger] closes_loop(g.edges, a, b)),
{
    law_reported_cycles_are_real(g);
    if exists|a: Seq<char>, b: Seq<char>| #[trigger] closes_loop(g.edges, a, b) {
        let (a, b) = choose|a: Seq<char>, b: Seq<char>| #[trigger] closes_loop(g.edges, a, b);
        let j = choose|j: int| 0 <= j < g.edges.len() && (#[trigger] g.edges[j]).from_node == a && g.edges[j].to_node == b;
        assert(has_node(g.nodes, g.edges[j].to_node));
        law_loops_through_nodes_are_reported(g, a, b);
    }
}

proof fn lemma_no_duplicate_ids(ns: Seq<NodeV>, n: int)
    requires
        0 <= n <= ns.len(),
        duplicate_ids(ns, n).len() == 0,
    ensures
        forall|a: int, b: int| 0 <= a < n && 0 <= b < n && a != b ==> (#[trigger] ns[a]).node_id != (#[trigger] ns[b]).node_id,
    decreases n,
{
    if n > 0 {
        let prev = duplicate_ids(ns, n - 1);
        let id = ns[n - 1].node_id;
        assert(prev.len() == 0) by {
            if prev.len() > 0 {
                assert(duplicate_ids(ns, n).len() >= prev.len());
            }
        }
        lemma_no_duplicate_ids(ns, n - 1);
        assert(!has_node(ns.subrange(0, n - 1), id)) by {
            if has_node(ns.subrange(0, n - 1), id) {
                assert(!prev.contains(id));
                assert(duplicate_ids(ns, n) == prev.push(id));
            }
        }
        assert forall|a: int, b: int| 0 <= a < n && 0 <= b < n && a != b implies (#[trigger] ns[a]).node_id != (#[trigger] ns[b]).node_id by {
            if a == n - 1 && ns[a].node_id == ns[b].node_id {
                assert(ns.subrange(0, n - 1)[b].node_id == id);
            } else if b == n - 1 && ns[a].node_id == ns[b].node_id {
                assert(ns.subrange(0, n - 1)[a].node_id == id);
            }
        }
    }
}

proof fn lemma_no_dangling_ids(g: LogicGraphV, n: int)
    requires
        0 <= n <= g.edges.len(),
        dangling_ids(g, n).len() == 0,
    ensures
        forall|j: int| 0 <= j < n ==> has_node(g.nodes, (#[trigger] g.edges[j]).from_node) && has_node(g.nodes, g.edges[j].to_node),
    decreases n,
{
    if n > 0 {
        let prev = dangling_ids(g, n - 1);
        let e = g.edges[n - 1];
        let a = if has_node(g.nodes, e.from_node) { prev } else { prev.push(e.from_node) };
        assert(dangling_ids(g, n) == if has_node(g.nodes, e.to_node) { a } else { a.push(e.to_node) });
        assert(a.len() >= prev.len());
        lemma_no_dangling_ids(g, n - 1);
    }
}

/// A node that is not in `p`, reached by an edge from a node not in `p`, one step back
/// from `x`.
spec fn unordered_pred(es: Seq<EdgeV>, p: Seq<Seq<char>>, x: Seq<char>) -> Seq<char> {
    choose|y: Seq<char>| #[trigger] unordered_edge(es, p, y, x)
}

/// An edge `y -> x` comes from `y`, which is not in `p`.
spec fn unordered_edge(es: Seq<EdgeV>, p: Seq<Seq<char>>, y: Seq<char>, x: Seq<char>) -> bool {
    !p.contains(y) && exists|j: int| 0 <= j < es.len() && (#[trigger] es[j]).to_node == x && es[j].from_node == y
}

/// `k` steps back from `x` along `unordered_pred`.
spec fn back_chain(es: Seq<EdgeV>, p: Seq<Seq<char>>, x: Seq<char>, k: nat) -> Seq<char>
    decreases k,
{
    if k == 0 { x } else { unordered_pred(es, p, back_chain(es, p, x, (k - 1) as nat)) }
}

/// Every node left out of a maximal order has an incoming edge from a node left out too.
proof fn lemma_left_out_has_left_out_pred(ns: Seq<NodeV>, es: Seq<EdgeV>, p: Seq<Seq<char>>, x: Seq<char>)
    requires
        valid_order(p, ns, es),
        maximal_order(p, ns, es),
        has_node(ns, x),
        !p.contains(x),
    ensures
        exists|j: int| 0 <= j < es.len() && (#[trigger] es[j]).to_node == x && !p.contains(es[j].from_node),
{
    if !exists|j: int| 0 <= j < es.len() && (#[trigger] es[j]).to_node == x && !p.contains(es[j].from_node) {
        let q = p.push(x);
        assert(valid_order(q, ns, es)) by {
            assert forall|a: int, b: int| 0 <= a < q.len() && 0 <= b < q.len() && a != b implies q[a] != q[b] by {
                if a < p.len() && b < p.len() {
                } else if a < p.len() {
                    assert(p.contains(q[a]));
                } else {
                    assert(p.contains(q[b]));
                }
            }
            assert forall|i: int| 0 <= i < q.len() implies is_order_key(ns, es, #[trigger] q[i]) by {
                if i < p.len() {
                    assert(q[i] == p[i]);
                }
            }
            assert forall|i: int, j: int|
                0 <= i < q.len() && 0 <= j < es.len() && (#[trigger] es[j]).to_node == #[trigger] q[i] implies exists|k: int|
                0 <= k < i && q[k] == es[j].from_node by {
                if i < p.len() {
                    assert(q[i] == p[i]);
                    let k = choose|k: int| 0 <= k < i && p[k] == es[j].from_node;
                    assert(q[k] == p[k]);
                } else {
                    assert(p.contains(es[j].from_node));
                    let k = choose|k: int| 0 <= k < p.len() && p[k] == es[j].from_node;
                    assert(q[k] == p[k]);
                }
            }
        }
        assert(q[p.len() as int] == x);
        assert(p.contains(q[p.len() as int]));
    }
}

proof fn lemma_back_chain(ns: Seq<NodeV>, es: Seq<EdgeV>, p: Seq<Seq<char>>, x: Seq<char>, k: nat)
    requires
        valid_order(p, ns, es),
        maximal_order(p, ns, es),
        has_node(ns, x),
        !p.contains(x),
        forall|j: int| 0 <= j < es.len() ==> has_node(ns, (#[trigger] es[j]).from_node),
    ensures
        has_node(ns, back_chain(es, p, x, k)),
        !p.contains(back_chain(es, p, x, k)),
        k > 0 ==> has_edge(es, back_chain(es, p, x, k), back_chain(es, p, x, (k - 1) as nat)),
    decreases k,
{
    if k > 0 {
        let prev = back_chain(es, p, x, (k - 1) as nat);
        lemma_back_chain(ns, es, p, x, (k - 1) as nat);
        lemma_left_out_has_left_out_pred(ns, es, p, prev);
        let j0 = choose|j: int| 0 <= j < es.len() && (#[trigger] es[j]).to_node == prev && !p.contains(es[j].from_node);
        assert(unordered_edge(es, p, es[j0].from_node, prev));
        let y = unordered_pred(es, p, prev);
        assert(unordered_edge(es, p, y, prev));
        let j = choose|j: int| 0 <= j < es.len() && (#[trigger] es[j]).to_node == prev && es[j].from_node == y;
        assert(has_node(ns, es[j].from_node));
    }
}

/// A graph on which validation reports nothing has an execution order:
/// `topological_sort` succeeds on it.
pub proof fn law_issue_free_graph_is_sortable(
    g: LogicGraphV,
    descs: Map<Seq<char>, DescriptorV>,
    ctrls: Map<Seq<char>, crate::logic_evaluator::EvaluatorKind>,
    r: Option<Seq<Seq<char>>>,
)
    requires
        graph_issues(g, descs, ctrls).len() == 0,
        sort_outcome(g.nodes, g.edges, r),
    ensures
        r is Some,
{
    let ns = g.nodes;
    let es = g.edges;
    assert(duplicate_ids(ns, ns.len() as int).len() == 0);
    assert(dangling_ids(g, es.len() as int).len() == 0);
    assert(cycle_issues(g).len() == 0);
    lemma_no_duplicate_ids(ns, ns.len() as int);
    lemma_no_dangling_ids(g, es.len() as int);
    law_no_cycle_issue_iff_no_loop(g);
    if r is None {
        let p = choose|p: Seq<Seq<char>>| valid_order(p, ns, es) && maximal_order(p, ns, es) && p.len() != ns.len();
        let ids = node_ids(ns);
        assert(ids.no_duplicates()) by {
            assert forall|a: int, b: int| 0 <= a < ids.len() && 0 <= b < ids.len() && a != b implies ids[a] != ids[b] by {
                assert(ns[a].node_id != ns[b].node_id);
            }
        }
        ids.unique_seq_to_set();
        assert forall|i: int| 0 <= i < p.len() implies ids.contains(#[trigger] p[i]) by {
            assert(is_order_key(ns, es, p[i]));
            if has_node(ns, p[i]) {
                let k = choose|k: int| 0 <= k < ns.len() && (#[trigger] ns[k]).node_id == p[i];
                assert(ids[k] == p[i]);
            } else {
                let j = choose|j: int| 0 <= j < es.len() && (#[trigger] es[j]).to_node == p[i];
                let k = choose|k: int| 0 <= k < ns.len() && (#[trigger] ns[k]).node_id == es[j].to_node;
                assert(ids[k] == p[i]);
            }
        }
        lemma_distinct_subset_len(p, ids);
        // Some node is left out of p.
        let x_idx: int = if forall|k: int| 0 <= k < ns.len() ==> p.contains(#[trigger] ns[k].node_id) {
            assert forall|i: int| 0 <= i < ids.len() implies p.contains(#[trigger] ids[i]) by {
                assert(p.contains(ns[i].node_id));
            }
            lemma_distinct_subset_len(ids, p);
            p.unique_seq_to_set();
            assert(false);
            0
        } else {
            choose|k: int| 0 <= k < ns.len() && !p.contains(#[trigger] ns[k].node_id)
        };
        let x = ns[x_idx].node_id;
        assert(has_node(ns, x));
        let n = ns.len();
        let c = Seq::new((n + 1) as nat, |k: int| back_chain(es, p, x, k as nat));
        assert forall|k: int| 0 <= k < c.len() implies ids.contains(#[trigger] c[k]) by {
            lemma_back_chain(ns, es, p, x, k as nat);
            let m = choose|m: int| 0 <= m < ns.len() && (#[trigger] ns[m]).node_id == c[k];
            assert(ids[m] == c[k]);
        }
        if c.no_duplicates() {
            lemma_distinct_subset_len(c, ids);
            assert(false);
        }
        let (i, j) = choose|i: int, j: int| 0 <= i < c.len() && 0 <= j < c.len() && i != j && c[i] == c[j];
        let lo = if i < j { i } else { j };
        let hi = if i < j { j } else { i };
        assert(c[lo] == c[hi]);
        let a = back_chain(es, p, x, (lo + 1) as nat);
        let b = back_chain(es, p, x, lo as nat);
        lemma_back_chain(ns, es, p, x, (lo + 1) as nat);
        assert(has_edge(es, a, b));
        let w = Seq::new((hi - lo) as nat, |t: int| back_chain(es, p, x, (hi - t) as nat));
        assert(is_walk(es, w)) by {
            assert forall|t: int, u: int| 0 <= t && u == t + 1 && u < w.len() implies has_edge(es, #[trigger] w[t], #[trigger] w[u]) by {
                lemma_back_chain(ns, es, p, x, (hi - t) as nat);
                assert((hi - t - 1) as nat == ((hi - t) as nat - 1) as nat);
            }
        }
        assert(w[0] == c[hi]);
        assert(w[0] == b);
        assert(w.last() == a);
        assert(closes_loop(es, a, b));
    }
}

// ---------------------------------------------------------------------------
// Law: an edge between ports of different declared types is reported
// ---------------------------------------------------------------------------

proof fn lemma_last_node_range(ns: Seq<NodeV>, id: Seq<char>, k: int)
    requires
        k <= ns.len(),
    ensures
        last_node(ns, id, k) == -1 || (0 <= last_node(ns, id, k) < k && ns[last_node(ns, id, k)].node_id == id),
    decreases k,
{
    if k > 0 && ns[k - 1].node_id != id {
        lemma_last_node_range(ns, id, k - 1);
    }
}

/// Every issue that edge `k` gives is among the port-type issues of the first `n` edges.
proof fn lemma_port_issues_contain(g: LogicGraphV, descs: Map<Seq<char>, DescriptorV>, n: int, k: int)
    requires
        0 <= k < n <= g.edges.len(),
        edge_port_issue(g, descs, g.edges[k]) is Some,
    ensures
        port_issues(g, descs, n).contains(edge_port_issue(g, descs, g.edges[k])->Some_0),
    decreases n,
{
    let x = edge_port_issue(g, descs, g.edges[k])->Some_0;
    if k == n - 1 {
        let prev = port_issues(g, descs, n - 1);
        assert(port_issues(g, descs, n) == prev.push(x));
        assert(port_issues(g, descs, n)[prev.len() as int] == x);
    } else {
        lemma_port_issues_contain(g, descs, n - 1, k);
        let prev = port_issues(g, descs, n - 1);
        let j = choose|j: int| 0 <= j < prev.len() && prev[j] == x;
        match edge_port_issue(g, descs, g.edges[n - 1]) {
            Some(y) => assert(prev.push(y)[j] == x),
            None => {},
        }
    }
}

/// An edge whose two endpoints name nodes with registered descriptors, and whose source
/// output port and target input port are both declared, with types `ft` and `tt`: when
/// the types differ, validation reports an `InvalidPortType` issue naming the edge's two
/// nodes and both types; when they agree, the edge gives no port issue.
pub proof fn law_port_type_mismatch_is_reported(
    g: LogicGraphV,
    descs: Map<Seq<char>, DescriptorV>,
    ctrls: Map<Seq<char>, crate::logic_evaluator::EvaluatorKind>,
    k: int,
    ft: PortValueType,
    tt: PortValueType,
)
    requires
        0 <= k < g.edges.len(),
        ({
            let e = g.edges[k];
            let fi = last_node(g.nodes, e.from_node, g.nodes.len() as int);
            let ti = last_node(g.nodes, e.to_node, g.nodes.len() as int);
            &&& 0 <= fi
            &&& 0 <= ti
            &&& descs.contains_key(g.nodes[fi].node_type_id)
            &&& descs.contains_key(g.nodes[ti].node_type_id)
            &&& find_port(descs[g.nodes[fi].node_type_id].outputs, e.from_port) == Some(ft)
            &&& find_port(descs[g.nodes[ti].node_type_id].inputs, e.to_port) == Some(tt)
        }),
    ensures
        ft == tt ==> edge_port_issue(g, descs, g.edges[k]) is None,
        ft != tt ==> exists|i: int|
            0 <= i < graph_issues(g, descs, ctrls).len() && {
                let iv = #[trigger] graph_issues(g, descs, ctrls)[i];
                &&& iv.code == LogicValidationIssueCode::InvalidPortType
                &&& iv.asset_id == g.asset_id
                &&& iv.affected == seq![g.edges[k].from_node, g.edges[k].to_node]
                &&& iv.message == "port type mismatch: "@ + quoted(port_type_str(ft)) + " (source output) vs "@
                    + quoted(port_type_str(tt)) + " (target input) on edge "@ + g.edges[k].from_node + " -> "@
                    + g.edges[k].to_node
            },
{
    let e = g.edges[k];
    lemma_last_node_range(g.nodes, e.from_node, g.nodes.len() as int);
    lemma_last_node_range(g.nodes, e.to_node, g.nodes.len() as int);
    if ft != tt {
        let n = g.edges.len() as int;
        lemma_port_issues_contain(g, descs, n, k);
        let x = edge_port_issue(g, descs, e)->Some_0;
        let p = port_issues(g, descs, n);
        let j = choose|j: int| 0 <= j < p.len() && p[j] == x;
        let a = duplicate_ids(g.nodes, g.nodes.len() as int).map_values(|id: Seq<char>| duplicate_issue(g.asset_id, id));
        let b = dangling_ids(g, g.edges.len() as int).map_values(|id: Seq<char>| dangling_issue(g.asset_id, id));
        let all = graph_issues(g, descs, ctrls);
        let i = a.len() + b.len() + j;
        assert(all[i] == x);
    }
}

/// A graph on which validation reports nothing is well formed: its node ids are distinct,
/// every edge joins two nodes of the graph, and no edge joins declared ports of different
/// types.
pub proof fn law_issue_free_graph_is_well_formed(
    g: LogicGraphV,
    descs: Map<Seq<char>, DescriptorV>,
    ctrls: Map<Seq<char>, crate::logic_evaluator::EvaluatorKind>,
)
    requires
        graph_issues(g, descs, ctrls).len() == 0,
    ensures
        forall|a: int, b: int|
            0 <= a < g.nodes.len() && 0 <= b < g.nodes.len() && a != b ==> (#[trigger] g.nodes[a]).node_id != (
            #[trigger] g.nodes[b]).node_id,
        forall|j: int|
            0 <= j < g.edges.len() ==> has_node(g.nodes, (#[trigger] g.edges[j]).from_node) && has_node(
                g.nodes,
                g.edges[j].to_node,
            ),
        forall|j: int|
            0 <= j < g.edges.len() ==> {
                let e = #[trigger] g.edges[j];
                let fi = last_node(g.nodes, e.from_node, g.nodes.len() as int);
                let ti = last_node(g.nodes, e.to_node, g.nodes.len() as int);
                (0 <= fi && 0 <= ti && descs.contains_key(g.nodes[fi].node_type_id) && descs.contains_key(
                    g.nodes[ti].node_type_id,
                ) && find_port(descs[g.nodes[fi].node_type_id].outputs, e.from_port) is Some && find_port(
                    descs[g.nodes[ti].node_type_id].inputs,
                    e.to_port,
                ) is Some) ==> find_port(descs[g.nodes[fi].node_type_id].outputs, e.from_port) == find_port(
                    descs[g.nodes[ti].node_type_id].inputs,
                    e.to_port,
                )
            },
{
    let ns = g.nodes;
    let es = g.edges;
    assert(duplicate_ids(ns, ns.len() as int).len() == 0);
    assert(dangling_ids(g, es.len() as int).len() == 0);
    assert(port_issues(g, descs, es.len() as int).len() == 0);
    lemma_no_duplicate_ids(ns, ns.len() as int);
    lemma_no_dangling_ids(g, es.len() as int);
    assert forall|j: int| 0 <= j < es.len() implies edge_port_issue(g, descs, #[trigger] es[j]) is None by {
        if edge_port_issue(g, descs, es[j]) is Some {
            lemma_port_issues_contain(g, descs, es.len() as int, j);
        }
    }
    assert forall|j: int| 0 <= j < es.len() implies {
        let e = #[trigger] g.edges[j];
        let fi = last_node(g.nodes, e.from_node, g.nodes.len() as int);
        let ti = last_node(g.nodes, e.to_node, g.nodes.len() as int);
        (0 <= fi && 0 <= ti && descs.contains_key(g.nodes[fi].node_type_id) && descs.contains_key(
            g.nodes[ti].node_type_id,
        ) && find_port(descs[g.nodes[fi].node_type_id].outputs, e.from_port) is Some && find_port(
            descs[g.nodes[ti].node_type_id].inputs,
            e.to_port,
        ) is Some) ==> find_port(descs[g.nodes[fi].node_type_id].outputs, e.from_port) == find_port(
            descs[g.nodes[ti].node_type_id].inputs,
            e.to_port,
        )
    } by {
        let e = es[j];
        lemma_last_node_range(ns, e.from_node, ns.len() as int);
        lemma_last_node_range(ns, e.to_node, ns.len() as int);
        assert(edge_port_issue(g, descs, e) is None);
    }
}

} // verus!
