//! The validation center: project-wide issues gathered into one list, each with an id
//! that is stable across polls (`vi_1`, `vi_2`, ... in the order they are gathered).

use vstd::prelude::*;
use crate::document::{ents_view, opt_view, SceneDocument};
use crate::dynamic_scene::{entity_ids, plan_dynamic_scene, scene_export, warns_view, ExportWarning, WarnV};
use crate::text::{concat2, to_owned_string, u128_to_decimal, decimal};

verus! {

/// How serious an issue is.
#[derive(Debug, Clone, Copy, PartialEq, Eq, Structural)]
pub enum ValidationSeverity {
    /// Blocks save or export.
    Error,
    /// Does not block anything.
    Warning,
    /// Advice only.
    Info,
}

/// The part of the editor an issue comes from.
#[derive(Debug, Clone, Copy, PartialEq, Eq, Structural)]
pub enum ValidationCategory {
    Catalog,
    Override,
    Export,
    Schema,
    Dirty,
}

/// One issue shown by the validation center.
#[derive(Debug)]
pub struct ValidationIssue {
    pub id: String,
    pub severity: ValidationSeverity,
    pub category: ValidationCategory,
    /// Machine-readable code.
    pub code: String,
    pub message: String,
    pub affected_entity_id: Option<String>,
    pub affected_asset_id: Option<String>,
    pub affected_scene_id: Option<String>,
}

/// A warning raised by the scene asset catalog.
#[derive(Debug)]
pub struct CatalogWarning {
    pub code: String,
    pub message: String,
    pub asset_id: Option<String>,
    pub logical_path: Option<String>,
}

/// Model of an issue.
pub struct IssueV {
    pub id: Seq<char>,
    pub severity: ValidationSeverity,
    pub category: ValidationCategory,
    pub code: Seq<char>,
    pub message: Seq<char>,
    pub affected_entity_id: Option<Seq<char>>,
    pub affected_asset_id: Option<Seq<char>>,
    pub affected_scene_id: Option<Seq<char>>,
}

impl ValidationIssue {
    pub open spec fn view(&self) -> IssueV {
        IssueV {
            id: self.id@,
            severity: self.severity,
            category: self.category,
            code: self.code@,
            message: self.message@,
            affected_entity_id: opt_view(self.affected_entity_id),
            affected_asset_id: opt_view(self.affected_asset_id),
            affected_scene_id: opt_view(self.affected_scene_id),
        }
    }
}

/// The models of a list of issues.
pub open spec fn issues_view(v: Seq<ValidationIssue>) -> Seq<IssueV> {
    v.map_values(|i: ValidationIssue| i@)
}

/// The id of the `n`-th issue gathered, counting from 1.
pub open spec fn issue_id(n: nat) -> Seq<char> {
    "vi_"@ + decimal(n)
}

/// The issue for a catalog warning.
pub open spec fn catalog_issue(w: CatalogWarning, n: nat) -> IssueV {
    IssueV {
        id: issue_id(n),
        severity: ValidationSeverity::Warning,
        category: ValidationCategory::Catalog,
        code: w.code@,
        message: w.message@,
        affected_entity_id: None,
        affected_asset_id: opt_view(w.asset_id),
        affected_scene_id: None,
    }
}

/// The issue for an export warning of scene `scene_id`: its code is the component type
/// concerned, or `export_warning`.
pub open spec fn export_issue(w: WarnV, n: nat, scene_id: Seq<char>) -> IssueV {
    IssueV {
        id: issue_id(n),
        severity: ValidationSeverity::Warning,
        category: ValidationCategory::Export,
        code: match w.1 {
            Some(t) => t,
            None => "export_warning"@,
        },
        message: w.2,
        affected_entity_id: w.0,
        affected_asset_id: None,
        affected_scene_id: Some(scene_id),
    }
}

/// The catalog's warnings first, then the export warnings of the open scene, numbered
/// in that order.
pub open spec fn gathered_issues(cw: Seq<CatalogWarning>, ew: Seq<WarnV>, scene_id: Seq<char>) -> Seq<IssueV> {
    Seq::new(cw.len(), |i: int| catalog_issue(cw[i], (i + 1) as nat)) + Seq::new(
        ew.len(),
        |j: int| export_issue(ew[j], (cw.len() + j + 1) as nat, scene_id),
    )
}

/// The export warnings of a scene document.
pub open spec fn export_warnings(doc: SceneDocument) -> Seq<WarnV> {
    scene_export(ents_view(doc.entities@), entity_ids(ents_view(doc.entities@)), doc.entities@.len() as int).1
}

fn numbered_id(n: u128) -> (r: String)
    ensures
        r@ == issue_id(n as nat),
{
    let d = u128_to_decimal(n);
    concat2("vi_", d.as_str())
}

fn copy_opt(s: &Option<String>) -> (r: Option<String>)
    ensures
        opt_view(r) == opt_view(*s),
{
    match s {
        Some(x) => Some(x.clone()),
        None => None,
    }
}

/// All the issues of the project: one per catalog warning, then, when a scene is open,
/// one per warning of its export, numbered `vi_1`, `vi_2`, ... in that order.
pub fn collect_validation_issues(catalog_warnings: &Vec<CatalogWarning>, scene: Option<&SceneDocument>) -> (r: Vec<
    ValidationIssue,
>)
    ensures
        issues_view(r@) == match scene {
            Some(doc) => gathered_issues(catalog_warnings@, export_warnings(*doc), doc.scene_id@),
            None => gathered_issues(catalog_warnings@, Seq::empty(), Seq::empty()),
        },
{
    let ghost cw = catalog_warnings@;
    let mut out: Vec<ValidationIssue> = Vec::new();
    let mut i: usize = 0;
    while i < catalog_warnings.len()
        invariant
            i <= catalog_warnings.len(),
            cw == catalog_warnings@,
            issues_view(out@) == Seq::new(i as nat, |k: int| catalog_issue(cw[k], (k + 1) as nat)),
        decreases catalog_warnings.len() - i,
    {
        let w = &catalog_warnings[i];
        let issue = ValidationIssue {
            id: numbered_id(i as u128 + 1),
            severity: ValidationSeverity::Warning,
            category: ValidationCategory::Catalog,
            code: w.code.clone(),
            message: w.message.clone(),
            affected_entity_id: None,
            affected_asset_id: copy_opt(&w.asset_id),
            affected_scene_id: None,
        };
        assert(issue@.id == issue_id((i + 1) as nat));
        assert(issue@.code == cw[i as int].code@);
        assert(issue@.affected_asset_id == opt_view(cw[i as int].asset_id));
        assert(issue@ == catalog_issue(cw[i as int], (i + 1) as nat));
        let ghost before = issues_view(out@);
        out.push(issue);
        assert(issues_view(out@) =~= before.push(catalog_issue(cw[i as int], (i + 1) as nat)));
        assert(before.push(catalog_issue(cw[i as int], (i + 1) as nat)) =~= Seq::new(
            (i + 1) as nat,
            |k: int| catalog_issue(cw[k], (k + 1) as nat),
        ));
        i += 1;
    }
    let ghost first = issues_view(out@);
    match scene {
        Some(doc) => {
            let plan = plan_dynamic_scene(doc);
            let ghost ew = warns_view(plan.warnings@);
            assert(ew == export_warnings(*doc));
            let mut j: usize = 0;
            while j < plan.warnings.len()
                invariant
                    j <= plan.warnings.len(),
                    cw == catalog_warnings@,
                    ew == warns_view(plan.warnings@),
                    first == Seq::new(cw.len(), |k: int| catalog_issue(cw[k], (k + 1) as nat)),
                    issues_view(out@) == first + Seq::new(
                        j as nat,
                        |k: int| export_issue(ew[k], (cw.len() + k + 1) as nat, doc.scene_id@),
                    ),
                decreases plan.warnings.len() - j,
            {
                let w: &ExportWarning = &plan.warnings[j];
                let code = match &w.component_type_id {
                    Some(t) => t.clone(),
                    None => to_owned_string("export_warning"),
                };
                let issue = ValidationIssue {
                    id: numbered_id(catalog_warnings.len() as u128 + j as u128 + 1),
                    severity: ValidationSeverity::Warning,
                    category: ValidationCategory::Export,
                    code,
                    message: w.message.clone(),
                    affected_entity_id: copy_opt(&w.entity_stable_id),
                    affected_asset_id: None,
                    affected_scene_id: Some(doc.scene_id.clone()),
                };
                let ghost target = export_issue(ew[j as int], (cw.len() + j + 1) as nat, doc.scene_id@);
                assert(ew[j as int] == (opt_view(w.entity_stable_id), opt_view(w.component_type_id), w.message@));
                assert(issue@.id == target.id);
                assert(issue@.code == target.code) by {
                    reveal_strlit("export_warning");
                }
                assert(issue@ == target);
                let ghost before = issues_view(out@);
                let ghost tail = Seq::new(
                    j as nat,
                    |k: int| export_issue(ew[k], (cw.len() + k + 1) as nat, doc.scene_id@),
                );
                out.push(issue);
                assert(issues_view(out@) =~= before.push(target));
                assert(tail.push(target) =~= Seq::new(
                    (j + 1) as nat,
                    |k: int| export_issue(ew[k], (cw.len() + k + 1) as nat, doc.scene_id@),
                ));
                assert(first + tail.push(target) =~= (first + tail).push(target));
                j += 1;
            }
            assert(issues_view(out@) =~= gathered_issues(cw, ew, doc.scene_id@));
        },
        None => {
            assert(issues_view(out@) =~= gathered_issues(cw, Seq::empty(), Seq::empty()));
        },
    }
    out
}

} // verus!
