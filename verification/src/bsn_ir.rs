//! A lossy projection of a scene asset onto the shape of a Bevy scene: the first entity
//! is the root, and the entities it has as children become its child nodes.

use vstd::prelude::*;
use vstd::string::*;
use crate::document::{ComponentInstance, ComponentV, comps_view};
use crate::json::{JsonValue, JsonV, json_clone, strs_view};
use crate::scene_asset::{SceneAssetDocument, SceneAssetRelationship, RelationshipKind, AssetEntityV, asset_ents_view, rel_view};
use crate::assoc::{keys_unique, has_assoc_key, assoc_map, lemma_assoc_insert, lemma_assoc_update};
use crate::logic_state::{lex_lt, lemma_lex_irreflexive, lemma_lex_total, lemma_lex_transitive, str_lt};
use crate::text::str_equal;
use crate::logic_validation::contains_str;

verus! {

/// A relationship of a node: its kind and the identifier of its target.
#[derive(Debug, Clone, PartialEq)]
pub struct BsnIrRelationship {
    pub kind: String,
    pub target_identifier: String,
}

/// A node: an identifier, its components by type (in order of type), its children and
/// relationships.
#[derive(Debug)]
pub struct BsnIrNode {
    pub identifier: String,
    pub components: Vec<(String, JsonValue)>,
    pub children: Vec<BsnIrNode>,
    pub relationships: Vec<BsnIrRelationship>,
}

/// How a patch changes its target.
#[derive(Debug, Clone, PartialEq, Eq)]
pub enum BsnPatchOp {
    Replace,
    AddChild,
    RemoveChild,
    Custom(String),
}

/// A change to the node with the given identifier.
#[derive(Debug)]
pub struct BsnPatch {
    pub target_identifier: String,
    pub op: BsnPatchOp,
    pub value: JsonValue,
}

/// The projection: a root node, the assets it refers to, and patches.
#[derive(Debug)]
pub struct BsnIr {
    pub scene_root: BsnIrNode,
    pub asset_refs: Vec<String>,
    pub patches: Vec<BsnPatch>,
}

/// Models of a component table.
pub open spec fn table_view(v: Seq<(String, JsonValue)>) -> Seq<(Seq<char>, JsonV)> {
    v.map_values(|p: (String, JsonValue)| (p.0@, p.1@))
}

/// The keys of `t` are in strictly increasing order.
pub open spec fn keys_sorted(t: Seq<(Seq<char>, JsonV)>) -> bool {
    forall|i: int, j: int| 0 <= i < j < t.len() ==> lex_lt((#[trigger] t[i]).0, (#[trigger] t[j]).0)
}

/// The components `cs[..n]` by type; a later component of a type replaces an earlier one.
pub open spec fn components_map(cs: Seq<ComponentV>, n: int) -> Map<Seq<char>, JsonV>
    decreases n,
{
    if n <= 0 || n > cs.len() {
        Map::empty()
    } else {
        components_map(cs, n - 1).insert(cs[n - 1].type_id, cs[n - 1].values)
    }
}

proof fn lemma_sorted_keys_unique(t: Seq<(Seq<char>, JsonV)>)
    requires
        keys_sorted(t),
    ensures
        keys_unique(t),
{
    assert forall|i: int, j: int| 0 <= i < t.len() && 0 <= j < t.len() && i != j implies (#[trigger] t[i]).0 != (#[trigger] t[j]).0 by {
        if t[i].0 == t[j].0 {
            lemma_lex_irreflexive(t[i].0);
        }
    }
}

/// Set `key` to `value` in a table sorted by key.
fn table_put(t: &mut Vec<(String, JsonValue)>, key: &str, value: JsonValue)
    requires
        keys_sorted(table_view(old(t)@)),
    ensures
        keys_sorted(table_view(final(t)@)),
        assoc_map(table_view(final(t)@)) == assoc_map(table_view(old(t)@)).insert(key@, value@),
{
    let ghost s = table_view(t@);
    let ghost vv = value@;
    proof {
        lemma_sorted_keys_unique(s);
    }
    let mut p: usize = 0;
    while p < t.len() && str_lt(t[p].0.as_str(), key)
        invariant
            s == table_view(t@),
            p <= t.len(),
            forall|k: int| 0 <= k < p ==> lex_lt(#[trigger] s[k].0, key@),
        decreases t.len() - p,
    {
        assert(s[p as int].0 == t@[p as int].0@);
        p += 1;
    }
    if p < t.len() && str_equal(t[p].0.as_str(), key) {
        let k = t[p].0.clone();
        t.set(p, (k, value));
        proof {
            lemma_assoc_update(s, p as int, vv);
            assert(table_view(t@) =~= s.update(p as int, (s[p as int].0, vv)));
            let u = table_view(t@);
            assert forall|i: int, j: int| 0 <= i < j < u.len() implies lex_lt((#[trigger] u[i]).0, (#[trigger] u[j]).0) by {
                assert(u[i].0 == s[i].0 && u[j].0 == s[j].0);
            }
        }
    } else {
        proof {
            assert forall|k: int| p <= k < s.len() implies lex_lt(key@, #[trigger] s[k].0) by {
                assert(s[p as int].0 != key@);
                lemma_lex_total(s[p as int].0, key@);
                if k > p {
                    lemma_lex_transitive(key@, s[p as int].0, s[k].0);
                }
            }
            assert(!has_assoc_key(s, key@)) by {
                if has_assoc_key(s, key@) {
                    let k = choose|k: int| 0 <= k < s.len() && (#[trigger] s[k]).0 == key@;
                    if k < p {
                        lemma_lex_irreflexive(key@);
                    } else {
                        lemma_lex_irreflexive(key@);
                    }
                }
            }
            lemma_assoc_insert(s, p as int, key@, vv);
        }
        t.insert(p, (String::from_str(key), value));
        proof {
            let u = table_view(t@);
            assert(u =~= s.insert(p as int, (key@, vv)));
            assert forall|i: int, j: int| 0 <= i < j < u.len() implies lex_lt((#[trigger] u[i]).0, (#[trigger] u[j]).0) by {
                if i < p && j < p {
                    assert(u[i] == s[i] && u[j] == s[j]);
                } else if i < p && j == p {
                    assert(u[i] == s[i]);
                } else if i < p {
                    assert(u[i] == s[i] && u[j] == s[j - 1]);
                    lemma_lex_transitive(s[i].0, key@, s[j - 1].0);
                } else if i == p {
                    assert(u[j] == s[j - 1]);
                } else {
                    assert(u[i] == s[i - 1] && u[j] == s[j - 1]);
                }
            }
        }
    }
}

/// The components of an entity as a table by type, in order of type.
fn component_table(cs: &Vec<ComponentInstance>) -> (r: Vec<(String, JsonValue)>)
    ensures
        keys_sorted(table_view(r@)),
        assoc_map(table_view(r@)) == components_map(comps_view(cs@), cs@.len() as int),
{
    let ghost cv = comps_view(cs@);
    let mut t: Vec<(String, JsonValue)> = Vec::new();
    let mut i: usize = 0;
    assert(assoc_map(table_view(t@)) =~= Map::<Seq<char>, JsonV>::empty());
    while i < cs.len()
        invariant
            cv == comps_view(cs@),
            i <= cs.len(),
            keys_sorted(table_view(t@)),
            assoc_map(table_view(t@)) == components_map(cv, i as int),
        decreases cs.len() - i,
    {
        assert(cv[i as int] == cs@[i as int]@);
        table_put(&mut t, cs[i].type_id.as_str(), json_clone(&cs[i].values));
        i += 1;
    }
    t
}

/// Model of a projected node without children below its own children.
pub struct NodeShapeV {
    pub identifier: Seq<char>,
    pub components: Map<Seq<char>, JsonV>,
    pub children: Seq<(Seq<char>, Map<Seq<char>, JsonV>)>,
    pub relationships: Seq<Seq<char>>,
}

/// The ids that the relationships `rs[..n]` make children of `root`, in order.
pub open spec fn child_targets(rs: Seq<(Seq<char>, Seq<char>, bool, Option<Seq<char>>)>, root: Seq<char>, n: int) -> Seq<Seq<char>>
    decreases n,
{
    if n <= 0 || n > rs.len() {
        Seq::empty()
    } else {
        let p = child_targets(rs, root, n - 1);
        if rs[n - 1].0 == root && rs[n - 1].2 { p.push(rs[n - 1].1) } else { p }
    }
}

/// The entities `es[1..n]` that are children of the root, as (id, components by type).
pub open spec fn child_nodes(es: Seq<AssetEntityV>, targets: Seq<Seq<char>>, n: int) -> Seq<(Seq<char>, Map<Seq<char>, JsonV>)>
    decreases n,
{
    if n <= 1 || n > es.len() {
        Seq::empty()
    } else {
        let p = child_nodes(es, targets, n - 1);
        let e = es[n - 1];
        if targets.contains(e.local_id) {
            p.push((e.local_id, components_map(e.components, e.components.len() as int)))
        } else {
            p
        }
    }
}

/// Models of a list of relationships.
pub open spec fn rels_view(rs: Seq<SceneAssetRelationship>) -> Seq<(Seq<char>, Seq<char>, bool, Option<Seq<char>>)> {
    rs.map_values(|r: SceneAssetRelationship| rel_view(r))
}

/// The shape of a projected node: its id, components by type, its children as
/// (id, components by type), and the targets of its relationships.
pub open spec fn node_shape(n: BsnIrNode) -> NodeShapeV {
    NodeShapeV {
        identifier: n.identifier@,
        components: assoc_map(table_view(n.components@)),
        children: n.children@.map_values(|c: BsnIrNode| (c.identifier@, assoc_map(table_view(c.components@)))),
        relationships: n.relationships@.map_values(|r: BsnIrRelationship| r.target_identifier@),
    }
}

/// Every component table of the node and of its children is sorted by type, the children
/// have no children or relationships of their own, and every relationship is a child link.
pub open spec fn node_well_shaped(n: BsnIrNode) -> bool {
    &&& keys_sorted(table_view(n.components@))
    &&& forall|i: int| 0 <= i < n.children@.len() ==> {
        &&& keys_sorted(table_view((#[trigger] n.children@[i]).components@))
        &&& n.children@[i].children@.len() == 0
        &&& n.children@[i].relationships@.len() == 0
    }
    &&& forall|i: int| 0 <= i < n.relationships@.len() ==> (#[trigger] n.relationships@[i]).kind@ == "child"@
}

/// The root that the projection builds from the entities `es` and relationships `rs`: the
/// first entity, with the entities it has as children (after itself, in order), and one
/// child relationship per child link from it; a placeholder named "empty" when there are
/// no entities.
pub open spec fn projected_root(es: Seq<AssetEntityV>, rs: Seq<(Seq<char>, Seq<char>, bool, Option<Seq<char>>)>) -> NodeShapeV {
    if es.len() == 0 {
        NodeShapeV {
            identifier: "empty"@,
            components: Map::empty(),
            children: Seq::empty(),
            relationships: Seq::empty(),
        }
    } else {
        let root = es[0];
        let targets = child_targets(rs, root.local_id, rs.len() as int);
        NodeShapeV {
            identifier: root.local_id,
            components: components_map(root.components, root.components.len() as int),
            children: child_nodes(es, targets, es.len() as int),
            relationships: targets,
        }
    }
}

/// Projects a scene asset onto the shape of a Bevy scene. The root is the first entity
/// (or a placeholder named "empty"), its children are the later entities that a child
/// relationship from the root names, in entity order. A plain document has no asset
/// refs and no patches (those come from instances). Asset id, logical path, version and
/// the other relationships are dropped.
pub fn bsn_ir_from_scene_asset(doc: &SceneAssetDocument) -> (ir: BsnIr)
    ensures
        node_shape(ir.scene_root) == projected_root(asset_ents_view(doc.entities@), rels_view(doc.relationships@)),
        node_well_shaped(ir.scene_root),
        ir.asset_refs@.len() == 0,
        ir.patches@.len() == 0,
{
    let ghost es = asset_ents_view(doc.entities@);
    let ghost rs = rels_view(doc.relationships@);
    let scene_root = if doc.entities.len() == 0 {
        let r = BsnIrNode {
            identifier: String::from_str("empty"),
            components: Vec::new(),
            children: Vec::new(),
            relationships: Vec::new(),
        };
        proof {
            assert(assoc_map(table_view(r.components@)) =~= Map::<Seq<char>, JsonV>::empty());
            assert(node_shape(r).children =~= Seq::empty());
            assert(node_shape(r).relationships =~= Seq::empty());
        }
        r
    } else {
        let root = &doc.entities[0];
        let ghost root_id = root.local_id@;
        assert(es[0] == root@);
        let components = component_table(&root.components);
        let mut rels: Vec<BsnIrRelationship> = Vec::new();
        let mut targets: Vec<String> = Vec::new();
        let mut i: usize = 0;
        while i < doc.relationships.len()
            invariant
                rs == rels_view(doc.relationships@),
                root_id == root.local_id@,
                i <= doc.relationships.len(),
                strs_view(targets@) == child_targets(rs, root_id, i as int),
                rels@.map_values(|r: BsnIrRelationship| r.target_identifier@) == strs_view(targets@),
                forall|k: int| 0 <= k < rels@.len() ==> (#[trigger] rels@[k]).kind@ == "child"@,
            decreases doc.relationships.len() - i,
        {
            let r = &doc.relationships[i];
            assert(rs[i as int] == rel_view(*r));
            let is_child = match &r.kind {
                RelationshipKind::Child => true,
                RelationshipKind::Other(_) => false,
            };
            if is_child && str_equal(r.from_local_id.as_str(), root.local_id.as_str()) {
                targets.push(r.to_local_id.clone());
                rels.push(BsnIrRelationship { kind: String::from_str("child"), target_identifier: r.to_local_id.clone() });
            }
            proof {
                assert(strs_view(targets@) =~= child_targets(rs, root_id, i + 1));
                assert(rels@.map_values(|r: BsnIrRelationship| r.target_identifier@) =~= strs_view(targets@));
            }
            i += 1;
        }
        let ghost t = strs_view(targets@);
        let mut children: Vec<BsnIrNode> = Vec::new();
        let mut j: usize = 1;
        proof {
            assert(children@.map_values(|c: BsnIrNode| (c.identifier@, assoc_map(table_view(c.components@)))) =~= child_nodes(es, t, 1));
        }
        while j < doc.entities.len()
            invariant
                es == asset_ents_view(doc.entities@),
                t == strs_view(targets@),
                1 <= j <= doc.entities.len(),
                children@.map_values(|c: BsnIrNode| (c.identifier@, assoc_map(table_view(c.components@)))) == child_nodes(es, t, j as int),
                forall|k: int| 0 <= k < children@.len() ==> {
                    &&& keys_sorted(table_view((#[trigger] children@[k]).components@))
                    &&& children@[k].children@.len() == 0
                    &&& children@[k].relationships@.len() == 0
                },
            decreases doc.entities.len() - j,
        {
            let e = &doc.entities[j];
            assert(es[j as int] == e@);
            if contains_str(&targets, e.local_id.as_str()) {
                let ct = component_table(&e.components);
                children.push(BsnIrNode {
                    identifier: e.local_id.clone(),
                    components: ct,
                    children: Vec::new(),
                    relationships: Vec::new(),
                });
            }
            proof {
                assert(children@.map_values(|c: BsnIrNode| (c.identifier@, assoc_map(table_view(c.components@)))) =~= child_nodes(es, t, j + 1));
            }
            j += 1;
        }
        BsnIrNode { identifier: root.local_id.clone(), components, children, relationships: rels }
    };
    BsnIr { scene_root, asset_refs: Vec::new(), patches: Vec::new() }
}

} // verus!
