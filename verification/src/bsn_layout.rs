//! The layout of `.bsn` text: a `bsn!{` block per node, its `#identifier`, its
//! components one level deeper, its children inside `Children [ ... ]`, and the closing
//! brace. Lines are four spaces per level of indentation. Transforms and sprites are
//! left as slots for the writer, which prints their numbers.

use vstd::prelude::*;
use vstd::string::*;
use crate::json::{JsonValue, JsonV, json_clone};
use crate::bsn_ir::{BsnIr, BsnIrNode, node_shape, node_well_shaped, projected_root, rels_view};
use crate::bsn_export::{bsn_component_text, component_text, export_bsn_ir, BsnComponentText, BsnExportError, BsnExportErrV, ComponentTextV};
use crate::scene_asset::{SceneAssetDocument, SceneAssetRole, asset_ents_view};
use crate::text::{concat2, str_equal, to_owned_string};

verus! {

/// One line of `.bsn` text, with its level of indentation.
#[derive(Debug)]
pub enum BsnLine {
    /// A line of text.
    Text { indent: usize, text: String },
    /// The transform whose component values these are.
    Transform { indent: usize, values: JsonValue },
    /// The sprite whose component values these are.
    Sprite { indent: usize, values: JsonValue },
}

/// Model of a line.
pub enum BsnLineV {
    Text(nat, Seq<char>),
    Transform(nat, JsonV),
    Sprite(nat, JsonV),
}

impl BsnLine {
    pub open spec fn view(&self) -> BsnLineV {
        match self {
            BsnLine::Text { indent, text } => BsnLineV::Text(*indent as nat, text@),
            BsnLine::Transform { indent, values } => BsnLineV::Transform(*indent as nat, values@),
            BsnLine::Sprite { indent, values } => BsnLineV::Sprite(*indent as nat, values@),
        }
    }
}

/// The models of a run of lines.
pub open spec fn lines_view(v: Seq<BsnLine>) -> Seq<BsnLineV> {
    v.map_values(|l: BsnLine| l@)
}

/// One level deeper, saturating at the largest level a `usize` counts.
pub open spec fn deeper(indent: nat) -> nat {
    if indent < usize::MAX { indent + 1 } else { indent }
}

/// The lines of one component at `indent`.
pub open spec fn component_lines(indent: nat, type_id: Seq<char>, values: JsonV) -> Seq<BsnLineV> {
    match component_text(type_id, values) {
        ComponentTextV::Skip => Seq::empty(),
        ComponentTextV::Line(s) => seq![BsnLineV::Text(indent, s)],
        ComponentTextV::Transform2D => seq![BsnLineV::Transform(indent, values)],
        ComponentTextV::Sprite2D => seq![BsnLineV::Sprite(indent, values)],
    }
}

/// The lines of each component of a node, at `indent`.
pub open spec fn components_lines(cs: Seq<(String, JsonValue)>, indent: nat) -> Seq<Seq<BsnLineV>> {
    Seq::new(cs.len(), |i: int| component_lines(indent, cs[i].0@, cs[i].1@))
}

/// The block of node `n` at `indent`: `bsn!{`, `#identifier`, its components one level
/// deeper, `Children [` with the children's blocks one level deeper and `]` when it has
/// children, and `}`.
pub open spec fn node_lines(n: BsnIrNode, indent: nat) -> Seq<BsnLineV>
    decreases n,
{
    seq![BsnLineV::Text(indent, "bsn!{"@), BsnLineV::Text(indent, "#"@ + n.identifier@)]
        + components_lines(n.components@, deeper(indent)).flatten()
        + (if n.children@.len() == 0 {
            Seq::empty()
        } else {
            seq![BsnLineV::Text(indent, "Children ["@)] + children_lines(n.children@, deeper(indent)).flatten()
                + seq![BsnLineV::Text(indent, "]"@)]
        })
        + seq![BsnLineV::Text(indent, "}"@)]
}

/// The blocks of each child, at `indent`.
pub open spec fn children_lines(cs: Seq<BsnIrNode>, indent: nat) -> Seq<Seq<BsnLineV>>
    decreases cs,
{
    Seq::new(cs.len(), |i: int| if 0 <= i < cs.len() { node_lines(cs[i], indent) } else { Seq::empty() })
}

/// The root is the placeholder of a document without entities.
pub open spec fn is_placeholder(n: BsnIrNode) -> bool {
    n.components@.len() == 0 && n.children@.len() == 0 && n.identifier@ == "empty"@
}

/// The lines of a projection: nothing for the placeholder root, else the root's block.
pub open spec fn ir_lines(ir: BsnIr) -> Seq<BsnLineV> {
    if is_placeholder(ir.scene_root) {
        Seq::empty()
    } else {
        node_lines(ir.scene_root, 0)
    }
}

proof fn lemma_flatten_step<A>(parts: Seq<Seq<A>>, i: int)
    requires
        0 <= i < parts.len(),
    ensures
        parts.subrange(0, i + 1).flatten() == parts.subrange(0, i).flatten() + parts[i],
{
    assert(parts.subrange(0, i + 1) =~= parts.subrange(0, i).push(parts[i]));
    parts.subrange(0, i).lemma_flatten_push(parts[i]);
}

fn push_text(out: &mut Vec<BsnLine>, indent: usize, text: String)
    ensures
        lines_view(final(out)@) == lines_view(old(out)@).push(BsnLineV::Text(indent as nat, text@)),
{
    out.push(BsnLine::Text { indent, text });
    assert(lines_view(out@) =~= lines_view(old(out)@).push(BsnLineV::Text(indent as nat, text@)));
}

fn deeper_exec(indent: usize) -> (r: usize)
    ensures
        r as nat == deeper(indent as nat),
{
    if indent < usize::MAX { indent + 1 } else { indent }
}

/// Append the lines of one component.
fn push_component_lines(out: &mut Vec<BsnLine>, indent: usize, type_id: &str, values: &JsonValue)
    ensures
        lines_view(final(out)@) == lines_view(old(out)@) + component_lines(indent as nat, type_id@, values@),
{
    let text = bsn_component_text(type_id, values);
    let ghost before = lines_view(out@);
    match text {
        BsnComponentText::Skip => {
            assert(lines_view(out@) =~= before + component_lines(indent as nat, type_id@, values@));
        },
        BsnComponentText::Line(s) => {
            push_text(out, indent, s);
            assert(lines_view(out@) =~= before + component_lines(indent as nat, type_id@, values@));
        },
        BsnComponentText::Transform2D => {
            out.push(BsnLine::Transform { indent, values: json_clone(values) });
            assert(lines_view(out@) =~= before + component_lines(indent as nat, type_id@, values@));
        },
        BsnComponentText::Sprite2D => {
            out.push(BsnLine::Sprite { indent, values: json_clone(values) });
            assert(lines_view(out@) =~= before + component_lines(indent as nat, type_id@, values@));
        },
    }
}

/// Append the block of node `n` at `indent`.
fn push_node_lines(out: &mut Vec<BsnLine>, n: &BsnIrNode, indent: usize)
    ensures
        lines_view(final(out)@) == lines_view(old(out)@) + node_lines(*n, indent as nat),
    decreases n,
{
    let ghost start = lines_view(out@);
    let inner = deeper_exec(indent);
    push_text(out, indent, to_owned_string("bsn!{"));
    push_text(out, indent, concat2("#", n.identifier.as_str()));
    let ghost head = lines_view(out@);
    assert(head =~= start + seq![BsnLineV::Text(indent as nat, "bsn!{"@), BsnLineV::Text(indent as nat, "#"@ + n.identifier@)]);
    let ghost cparts = components_lines(n.components@, inner as nat);
    let mut i: usize = 0;
    while i < n.components.len()
        invariant
            i <= n.components.len(),
            cparts == components_lines(n.components@, inner as nat),
            lines_view(out@) == head + cparts.subrange(0, i as int).flatten(),
        decreases n.components.len() - i,
    {
        push_component_lines(out, inner, n.components[i].0.as_str(), &n.components[i].1);
        proof {
            lemma_flatten_step(cparts, i as int);
            assert(cparts[i as int] == component_lines(inner as nat, n.components@[i as int].0@, n.components@[i as int].1@));
        }
        i += 1;
    }
    assert(cparts.subrange(0, n.components@.len() as int) =~= cparts);
    let ghost after_comps = lines_view(out@);
    if n.children.len() > 0 {
        push_text(out, indent, to_owned_string("Children ["));
        let ghost open = lines_view(out@);
        let ghost kparts = children_lines(n.children@, inner as nat);
        let mut j: usize = 0;
        while j < n.children.len()
            invariant
                j <= n.children.len(),
                kparts == children_lines(n.children@, inner as nat),
                lines_view(out@) == open + kparts.subrange(0, j as int).flatten(),
            decreases n.children.len() - j,
        {
            proof {
                assert(decreases_to!(*n => (*n).children));
                assert(decreases_to!((*n).children => (*n).children@));
                assert(decreases_to!((*n).children@ => (*n).children@[j as int]));
            }
            push_node_lines(out, &n.children[j], inner);
            proof {
                lemma_flatten_step(kparts, j as int);
            }
            j += 1;
        }
        assert(kparts.subrange(0, n.children@.len() as int) =~= kparts);
        push_text(out, indent, to_owned_string("]"));
        push_text(out, indent, to_owned_string("}"));
        proof {
            reveal_strlit("bsn!{");
            reveal_strlit("Children [");
            reveal_strlit("]");
            reveal_strlit("}");
            assert(lines_view(out@) =~= start + node_lines(*n, indent as nat));
        }
    } else {
        push_text(out, indent, to_owned_string("}"));
        proof {
            assert(lines_view(out@) =~= start + node_lines(*n, indent as nat));
        }
    }
}

/// The lines of the `.bsn` text of a projection.
pub fn bsn_lines(ir: &BsnIr) -> (r: Vec<BsnLine>)
    ensures
        lines_view(r@) == ir_lines(*ir),
{
    let mut out: Vec<BsnLine> = Vec::new();
    let root = &ir.scene_root;
    if root.components.len() == 0 && root.children.len() == 0 && str_equal(root.identifier.as_str(), "empty") {
        proof {
            reveal_strlit("empty");
        }
        assert(lines_view(out@) =~= ir_lines(*ir));
        return out;
    }
    proof {
        reveal_strlit("empty");
    }
    push_node_lines(&mut out, root, 0);
    assert(lines_view(out@) =~= ir_lines(*ir));
    out
}

/// The lines of the `.bsn` text of a document, after the checks of the export.
pub fn export_bsn_lines(doc: &SceneAssetDocument) -> (r: Result<Vec<BsnLine>, BsnExportError>)
    ensures
        doc.role == SceneAssetRole::Logic ==> (r matches Err(e) && e@ == BsnExportErrV::UnsupportedShape(
            "logic role is not exported to .bsn"@)),
        doc.role != SceneAssetRole::Logic && doc.entities@.len() == 0 ==> (r matches Err(e) && e@ == BsnExportErrV::EmptyScene),
        doc.role != SceneAssetRole::Logic && doc.entities@.len() > 0 ==> (r matches Ok(ls) && exists|ir: BsnIr|
            node_shape(ir.scene_root) == projected_root(asset_ents_view(doc.entities@), rels_view(doc.relationships@))
                && node_well_shaped(ir.scene_root) && lines_view(ls@) == #[trigger] ir_lines(ir)),
{
    match export_bsn_ir(doc) {
        Ok(ir) => {
            let ls = bsn_lines(&ir);
            assert(lines_view(ls@) == ir_lines(ir));
            Ok(ls)
        },
        Err(e) => Err(e),
    }
}

/// Four spaces per level.
pub open spec fn indentation(indent: nat) -> Seq<char>
    decreases indent,
{
    if indent == 0 { Seq::empty() } else { indentation((indent - 1) as nat) + "    "@ }
}

/// A line of text as written: its indentation, the text and a newline.
pub open spec fn written_line(indent: nat, text: Seq<char>) -> Seq<char> {
    indentation(indent) + text + "\n"@
}

/// A line of text as written: its indentation, the text and a newline.
pub fn indented_line(indent: usize, text: &str) -> (r: String)
    ensures
        r@ == written_line(indent as nat, text@),
{
    let mut r = String::new();
    let mut k: usize = 0;
    proof {
        reveal_strlit("    ");
        reveal_strlit("\n");
    }
    assert(r@ =~= indentation(0));
    while k < indent
        invariant
            k <= indent,
            r@ == indentation(k as nat),
        decreases indent - k,
    {
        r.append("    ");
        k += 1;
    }
    r.append(text);
    r.append("\n");
    r
}

/// The text of lines that hold no slot, written one after another; `None` when a line
/// is a transform or sprite slot.
pub open spec fn written_text(ls: Seq<BsnLineV>) -> Option<Seq<char>>
    decreases ls.len(),
{
    if ls.len() == 0 {
        Some(Seq::empty())
    } else {
        match ls.last() {
            BsnLineV::Text(indent, text) => match written_text(ls.drop_last()) {
                Some(t) => Some(t + written_line(indent, text)),
                None => None,
            },
            _ => None,
        }
    }
}

/// The text of lines without transform or sprite slots; `None` when there is a slot,
/// whose numbers only the writer prints.
pub fn write_text_lines(lines: &Vec<BsnLine>) -> (r: Option<String>)
    ensures
        match r {
            Some(t) => written_text(lines_view(lines@)) == Some(t@),
            None => written_text(lines_view(lines@)) is None,
        },
{
    let ghost ls = lines_view(lines@);
    let mut out = String::new();
    let mut i: usize = 0;
    assert(ls.subrange(0, 0) =~= Seq::<BsnLineV>::empty());
    while i < lines.len()
        invariant
            i <= lines.len(),
            ls == lines_view(lines@),
            written_text(ls.subrange(0, i as int)) == Some(out@),
        decreases lines.len() - i,
    {
        assert(ls.subrange(0, i + 1).drop_last() =~= ls.subrange(0, i as int));
        assert(ls.subrange(0, i + 1).last() == lines@[i as int]@);
        match &lines[i] {
            BsnLine::Text { indent, text } => {
                let l = indented_line(*indent, text.as_str());
                out.append(l.as_str());
            },
            _ => {
                proof {
                    lemma_written_text_none_after(ls, i as int + 1);
                }
                return None;
            },
        }
        i += 1;
    }
    assert(ls.subrange(0, lines@.len() as int) =~= ls);
    Some(out)
}

proof fn lemma_written_text_none_after(ls: Seq<BsnLineV>, n: int)
    requires
        0 < n <= ls.len(),
        written_text(ls.subrange(0, n)) is None,
    ensures
        written_text(ls) is None,
    decreases ls.len() - n,
{
    if n < ls.len() {
        assert(ls.subrange(0, n + 1).drop_last() =~= ls.subrange(0, n));
        lemma_written_text_none_after(ls, n + 1);
    } else {
        assert(ls.subrange(0, n) =~= ls);
    }
}

} // verus!
