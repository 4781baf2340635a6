//! The decisions of `.bsn` export: which documents can be exported, how a component is
//! written, and how strings, literals and struct fields are spelled.

use vstd::prelude::*;
use vstd::string::*;
use crate::json::{JsonValue, JsonEntry, JsonV, json_get, find_key};
use crate::text::{concat2, concat3, to_owned_string, split_on, split_by_char, is_prefix, starts_with, str_equal};
use crate::scene_asset::{SceneAssetDocument, SceneAssetRole, asset_ents_view};
use crate::bsn_ir::{BsnIr, bsn_ir_from_scene_asset, node_shape, node_well_shaped, projected_root, rels_view};

verus! {

/// Why a document cannot be exported to `.bsn` text.
#[derive(Debug, Clone, PartialEq, Eq)]
pub enum BsnExportError {
    /// The document has no entities, so there is nothing to export.
    EmptyScene,
    /// The document has a shape that `.bsn` text does not carry.
    UnsupportedShape(String),
    /// Writing the text out failed.
    IoError(String),
}

/// Model of an export error.
pub enum BsnExportErrV {
    EmptyScene,
    UnsupportedShape(Seq<char>),
    IoError(Seq<char>),
}

impl BsnExportError {
    pub open spec fn view(&self) -> BsnExportErrV {
        match self {
            BsnExportError::EmptyScene => BsnExportErrV::EmptyScene,
            BsnExportError::UnsupportedShape(s) => BsnExportErrV::UnsupportedShape(s@),
            BsnExportError::IoError(s) => BsnExportErrV::IoError(s@),
        }
    }

    /// The message of the error.
    pub fn to_string(&self) -> (r: String)
        ensures
            r@ == bsn_export_message(self@),
    {
        match self {
            BsnExportError::EmptyScene => to_owned_string("SceneAssetDocument has no entities; nothing to export"),
            BsnExportError::UnsupportedShape(s) => concat2("Unsupported BSN shape: ", s.as_str()),
            BsnExportError::IoError(s) => concat2("BSN export IO error: ", s.as_str()),
        }
    }
}

/// The message of an export error.
pub open spec fn bsn_export_message(e: BsnExportErrV) -> Seq<char> {
    match e {
        BsnExportErrV::EmptyScene => "SceneAssetDocument has no entities; nothing to export"@,
        BsnExportErrV::UnsupportedShape(s) => "Unsupported BSN shape: "@ + s,
        BsnExportErrV::IoError(s) => "BSN export IO error: "@ + s,
    }
}

/// How one character is written inside a quoted `.bsn` string.
pub open spec fn escaped_char(c: char) -> Seq<char> {
    if c == '\\' {
        seq!['\\', '\\']
    } else if c == '"' {
        seq!['\\', '"']
    } else {
        seq![c]
    }
}

/// `s` with every backslash and double quote escaped by a backslash.
pub open spec fn escaped(s: Seq<char>) -> Seq<char>
    decreases s.len(),
{
    if s.len() == 0 {
        Seq::empty()
    } else {
        escaped(s.drop_last()) + escaped_char(s.last())
    }
}

/// Escape backslashes and double quotes of `s`.
pub fn escape_string(s: &str) -> (r: String)
    ensures
        r@ == escaped(s@),
{
    let n = s.unicode_len();
    let mut out = String::new();
    let mut i: usize = 0;
    while i < n
        invariant
            n == s@.len(),
            i <= n,
            out@ == escaped(s@.subrange(0, i as int)),
        decreases n - i,
    {
        let c = s.get_char(i);
        if c == '\\' {
            out.append("\\\\");
            proof {
                reveal_strlit("\\\\");
            }
        } else if c == '"' {
            out.append("\\\"");
            proof {
                reveal_strlit("\\\"");
            }
        } else {
            out.append(s.substring_char(i, i + 1));
        }
        proof {
            let p = s@.subrange(0, i + 1);
            assert(p.drop_last() =~= s@.subrange(0, i as int));
            assert(p.last() == c);
            assert(out@ =~= escaped(p));
        }
        i += 1;
    }
    assert(s@.subrange(0, n as int) =~= s@);
    out
}

/// The `.bsn` literal for a JSON value: booleans and numbers as written, strings quoted
/// and escaped; nothing for null, arrays and objects.
pub open spec fn bsn_literal(v: JsonV) -> Seq<char> {
    match v {
        JsonV::Bool(b) => if b { "true"@ } else { "false"@ },
        JsonV::Number(n) => n,
        JsonV::Str(s) => "\""@ + escaped(s) + "\""@,
        _ => Seq::empty(),
    }
}

/// The `.bsn` literal for `v`.
pub fn format_bsn_literal(v: &JsonValue) -> (r: String)
    ensures
        r@ == bsn_literal(v@),
{
    match v {
        JsonValue::Null => String::new(),
        JsonValue::Bool(b) => if *b { to_owned_string("true") } else { to_owned_string("false") },
        JsonValue::Number(n) => n.clone(),
        JsonValue::Str(s) => {
            let e = escape_string(s.as_str());
            concat3("\"", e.as_str(), "\"")
        },
        JsonValue::Array(_) => String::new(),
        JsonValue::Object(_) => String::new(),
    }
}

/// The `key: literal` parts for the members `es[..n]` whose literal is not empty.
pub open spec fn field_parts(es: Seq<(Seq<char>, JsonV)>, n: int) -> Seq<Seq<char>>
    decreases n,
{
    if n <= 0 || n > es.len() {
        Seq::empty()
    } else {
        let p = field_parts(es, n - 1);
        let lit = bsn_literal(es[n - 1].1);
        if lit.len() == 0 {
            p
        } else {
            p.push(es[n - 1].0 + ": "@ + lit)
        }
    }
}

/// The parts joined with `sep` between each two.
pub open spec fn joined(parts: Seq<Seq<char>>, sep: Seq<char>) -> Seq<char>
    decreases parts.len(),
{
    if parts.len() == 0 {
        Seq::empty()
    } else if parts.len() == 1 {
        parts[0]
    } else {
        joined(parts.drop_last(), sep) + sep + parts.last()
    }
}

/// The fields of a struct literal written from a JSON object, in member order; nothing
/// for any other value.
pub open spec fn struct_fields(v: JsonV) -> Seq<char> {
    match v {
        JsonV::Object(es) => joined(field_parts(es, es.len() as int), ", "@),
        _ => Seq::empty(),
    }
}

/// The fields of a struct literal written from `values`.
pub fn emit_struct_fields(values: &JsonValue) -> (r: String)
    ensures
        r@ == struct_fields(values@),
{
    match values {
        JsonValue::Object(es) => {
            let ghost ev = values@->Object_0;
            assert(ev.len() == es@.len());
            let mut out = String::new();
            let mut count: usize = 0;
            let mut i: usize = 0;
            while i < es.len()
                invariant
                    ev == JsonValue::Object(*es)@->Object_0,
                    ev.len() == es@.len(),
                    i <= es.len(),
                    count <= i,
                    count == field_parts(ev, i as int).len(),
                    out@ == joined(field_parts(ev, i as int), ", "@),
                decreases es.len() - i,
            {
                let e: &JsonEntry = &es[i];
                assert(ev[i as int] == (e.key@, e.value@));
                let lit = format_bsn_literal(&e.value);
                let ghost before = field_parts(ev, i as int);
                if lit.unicode_len() > 0 {
                    let part = concat3(e.key.as_str(), ": ", lit.as_str());
                    if count > 0 {
                        out.append(", ");
                    }
                    out.append(part.as_str());
                    count += 1;
                    proof {
                        let after = before.push(part@);
                        assert(field_parts(ev, i + 1) == after);
                        assert(after.drop_last() =~= before);
                        if before.len() == 0 {
                            assert(out@ =~= joined(after, ", "@));
                        } else {
                            assert(out@ =~= joined(after, ", "@));
                        }
                    }
                }
                i += 1;
            }
            out
        },
        _ => String::new(),
    }
}

/// The characters that `char::to_uppercase` yields for `c` (the Unicode uppercase mapping).
pub uninterp spec fn uppercase_of(c: char) -> Seq<char>;

/// Calls `char::to_uppercase` and collects what it yields; the contract names that result
/// `uppercase_of(c)` and says nothing more of it.
#[verifier::external_body]
fn char_to_uppercase(c: char) -> (r: String)
    ensures
        r@ == uppercase_of(c),
{
    c.to_uppercase().collect()
}

/// The result of turning `s[..n]` into PascalCase, and whether the next letter is upper-cased:
/// `_` and `-` are dropped and upper-case the letter after them; the first letter is upper-cased.
pub open spec fn pascal_fold(s: Seq<char>, n: int) -> (Seq<char>, bool)
    decreases n,
{
    if n <= 0 || n > s.len() {
        (Seq::empty(), true)
    } else {
        let p = pascal_fold(s, n - 1);
        let c = s[n - 1];
        if c == '_' || c == '-' {
            (p.0, true)
        } else if p.1 {
            (p.0 + uppercase_of(c), false)
        } else {
            (p.0.push(c), false)
        }
    }
}

/// The struct name for a component type id: its last dot-separated segment in PascalCase.
pub open spec fn pascal_case(type_id: Seq<char>) -> Seq<char> {
    let last = split_on(type_id, '.').last();
    pascal_fold(last, last.len() as int).0
}

/// The struct name for a component type id.
pub fn pascal_case_struct_name(type_id: &str) -> (r: String)
    ensures
        r@ == pascal_case(type_id@),
{
    let parts = split_by_char(type_id, '.');
    proof {
        assert(split_on(type_id@, '.').len() >= 1);
    }
    let last = parts[parts.len() - 1].as_str();
    assert(last@ == split_on(type_id@, '.').last());
    let n = last.unicode_len();
    let mut out = String::new();
    let mut upper_next = true;
    let mut i: usize = 0;
    while i < n
        invariant
            n == last@.len(),
            i <= n,
            (out@, upper_next) == pascal_fold(last@, i as int),
        decreases n - i,
    {
        let ch = last.get_char(i);
        if ch == '_' || ch == '-' {
            upper_next = true;
        } else if upper_next {
            let u = char_to_uppercase(ch);
            out.append(u.as_str());
            upper_next = false;
        } else {
            out.append(last.substring_char(i, i + 1));
            upper_next = false;
        }
        proof {
            assert(last@.subrange(i as int, i + 1) =~= seq![ch]);
            assert(out@ =~= pascal_fold(last@, i + 1).0);
        }
        i += 1;
    }
    out
}

/// Component types that exist only in the editor and are not exported.
pub open spec fn is_editor_only(type_id: Seq<char>) -> bool {
    type_id == "editor.Visible"@ || type_id == "editor.Locked"@
}

fn is_editor_only_type(type_id: &str) -> (r: bool)
    ensures
        r == is_editor_only(type_id@),
{
    str_equal(type_id, "editor.Visible") || str_equal(type_id, "editor.Locked")
}

/// Component types defined by the game rather than the editor.
pub open spec fn is_user(type_id: Seq<char>) -> bool {
    is_prefix("game."@, type_id)
}

fn is_user_type(type_id: &str) -> (r: bool)
    ensures
        r == is_user(type_id@),
{
    starts_with(type_id, "game.")
}

/// How a component appears in `.bsn` text: not at all, as one line of text, or as a
/// transform or sprite, whose numbers the writer formats.
#[derive(Debug)]
pub enum BsnComponentText {
    Skip,
    Line(String),
    Transform2D,
    Sprite2D,
}

/// Model of how a component appears in `.bsn` text.
pub enum ComponentTextV {
    Skip,
    Line(Seq<char>),
    Transform2D,
    Sprite2D,
}

impl BsnComponentText {
    pub open spec fn view(&self) -> ComponentTextV {
        match self {
            BsnComponentText::Skip => ComponentTextV::Skip,
            BsnComponentText::Line(s) => ComponentTextV::Line(s@),
            BsnComponentText::Transform2D => ComponentTextV::Transform2D,
            BsnComponentText::Sprite2D => ComponentTextV::Sprite2D,
        }
    }
}

/// How the component of type `type_id` with `values` appears in `.bsn` text: editor-only
/// types not at all; a name as `Name("...")`; transforms and sprites by their numbers; a
/// game type as a struct literal; any other type as a comment.
pub open spec fn component_text(type_id: Seq<char>, values: JsonV) -> ComponentTextV {
    if is_editor_only(type_id) {
        ComponentTextV::Skip
    } else if type_id == "editor.Name"@ {
        ComponentTextV::Line("Name(\""@ + escaped(name_member(values)) + "\")"@)
    } else if type_id == "editor.Transform2D"@ {
        ComponentTextV::Transform2D
    } else if type_id == "editor.Sprite2D"@ {
        ComponentTextV::Sprite2D
    } else if is_user(type_id) {
        ComponentTextV::Line(pascal_case(type_id) + " { "@ + struct_fields(values) + " }"@)
    } else {
        ComponentTextV::Line("// unknown component type: "@ + type_id)
    }
}

/// The `name` member of `v` when it is a string, else the empty string.
pub open spec fn name_member(v: JsonV) -> Seq<char> {
    match json_get(v, "name"@) {
        Some(JsonV::Str(s)) => s,
        _ => Seq::empty(),
    }
}

fn name_member_exec(v: &JsonValue) -> (r: String)
    ensures
        r@ == name_member(v@),
{
    match v {
        JsonValue::Object(es) => {
            match find_key(es, "name") {
                Some(i) => {
                    assert(v@->Object_0[i as int] == (es@[i as int].key@, es@[i as int].value@));
                    match &es[i].value {
                        JsonValue::Str(s) => s.clone(),
                        _ => String::new(),
                    }
                },
                None => String::new(),
            }
        },
        _ => String::new(),
    }
}

/// The line written for a component of type `type_id` with `values` (before indentation).
pub fn bsn_component_text(type_id: &str, values: &JsonValue) -> (r: BsnComponentText)
    ensures
        is_editor_only(type_id@) ==> r is Skip,
        !is_editor_only(type_id@) && type_id@ == "editor.Name"@ ==> (r matches BsnComponentText::Line(s)
            && s@ == "Name(\""@ + escaped(name_member(values@)) + "\")"@),
        !is_editor_only(type_id@) && type_id@ == "editor.Transform2D"@ ==> r is Transform2D,
        !is_editor_only(type_id@) && type_id@ == "editor.Sprite2D"@ ==> r is Sprite2D,
        !is_editor_only(type_id@) && type_id@ != "editor.Name"@ && type_id@ != "editor.Transform2D"@
            && type_id@ != "editor.Sprite2D"@ && is_user(type_id@) ==> (r matches BsnComponentText::Line(s)
            && s@ == pascal_case(type_id@) + " { "@ + struct_fields(values@) + " }"@),
        !is_editor_only(type_id@) && type_id@ != "editor.Name"@ && type_id@ != "editor.Transform2D"@
            && type_id@ != "editor.Sprite2D"@ && !is_user(type_id@) ==> (r matches BsnComponentText::Line(s)
            && s@ == "// unknown component type: "@ + type_id@),
        r@ == component_text(type_id@, values@),
{
    proof {
        reveal_strlit("editor.Name");
        reveal_strlit("editor.Transform2D");
        reveal_strlit("editor.Sprite2D");
        assert("editor.Name"@.len() == 11);
        assert("editor.Transform2D"@.len() == 18);
        assert("editor.Sprite2D"@.len() == 15);
    }
    if is_editor_only_type(type_id) {
        BsnComponentText::Skip
    } else if str_equal(type_id, "editor.Name") {
        let name = name_member_exec(values);
        let e = escape_string(name.as_str());
        BsnComponentText::Line(concat3("Name(\"", e.as_str(), "\")"))
    } else if str_equal(type_id, "editor.Transform2D") {
        BsnComponentText::Transform2D
    } else if str_equal(type_id, "editor.Sprite2D") {
        BsnComponentText::Sprite2D
    } else if is_user_type(type_id) {
        let name = pascal_case_struct_name(type_id);
        let fields = emit_struct_fields(values);
        let mut line = concat3(name.as_str(), " { ", fields.as_str());
        line.append(" }");
        BsnComponentText::Line(line)
    } else {
        BsnComponentText::Line(concat2("// unknown component type: ", type_id))
    }
}

/// The projection that `.bsn` export writes out, after its checks: a logic asset is
/// refused as an unsupported shape, a document without entities as an empty scene.
pub fn export_bsn_ir(doc: &SceneAssetDocument) -> (r: Result<BsnIr, BsnExportError>)
    ensures
        doc.role == SceneAssetRole::Logic ==> (r matches Err(e) && e@ == BsnExportErrV::UnsupportedShape(
            "logic role is not exported to .bsn"@)),
        doc.role != SceneAssetRole::Logic && doc.entities@.len() == 0 ==> (r matches Err(e) && e@ == BsnExportErrV::EmptyScene),
        doc.role != SceneAssetRole::Logic && doc.entities@.len() > 0 ==> (r matches Ok(ir)
            && node_shape(ir.scene_root) == projected_root(asset_ents_view(doc.entities@), rels_view(doc.relationships@))
            && node_well_shaped(ir.scene_root)
            && ir.patches@.len() == 0),
{
    if doc.role == SceneAssetRole::Logic {
        return Err(BsnExportError::UnsupportedShape(to_owned_string("logic role is not exported to .bsn")));
    }
    if doc.entities.len() == 0 {
        return Err(BsnExportError::EmptyScene);
    }
    Ok(bsn_ir_from_scene_asset(doc))
}

} // verus!
