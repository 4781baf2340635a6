//! Project layout on disk: where scenes, schemas and entity templates are stored, and
//! the project metadata file.

use vstd::prelude::*;
use vstd::string::*;
use crate::text::{concat3, decimal, usize_to_decimal, str_equal};
use crate::json::strs_view;
use crate::logic_validation::contains_str;

verus! {

/// The project metadata file at the project root.
pub const PROJECT_FILE: &'static str = "project.json";

/// Directory of scene documents.
pub const SCENES_DIR: &'static str = "scenes";

/// Directory of component schemas.
pub const SCHEMAS_DIR: &'static str = "schemas";

/// Directory of entity templates.
pub const ENTITIES_DIR: &'static str = "entities";

/// Project metadata: version, name, and the scenes, schemas and templates it holds.
#[derive(Debug, Clone, PartialEq)]
pub struct ProjectMetadata {
    pub version: String,
    pub name: String,
    pub scenes: Vec<String>,
    pub schemas: Vec<String>,
    pub templates: Vec<String>,
    /// The scene currently open, if any.
    pub active_scene: Option<String>,
}

impl Default for ProjectMetadata {
    /// Version `0.1`, named `Untitled Project`, with no scene, schema or template.
    fn default() -> (r: ProjectMetadata)
        ensures
            r.version@ == "0.1"@,
            r.name@ == "Untitled Project"@,
            r.scenes@.len() == 0,
            r.schemas@.len() == 0,
            r.templates@.len() == 0,
            r.active_scene is None,
    {
        ProjectMetadata {
            version: String::from_str("0.1"),
            name: String::from_str("Untitled Project"),
            scenes: Vec::new(),
            schemas: Vec::new(),
            templates: Vec::new(),
            active_scene: None,
        }
    }
}

/// The path of scene `name`: `scenes/<name>.scene.json`.
pub fn scene_path(name: &str) -> (r: String)
    ensures
        r@ == "scenes/"@ + name@ + ".scene.json"@,
{
    concat3("scenes/", name, ".scene.json")
}

/// The path of the schema of component type `type_id`: `schemas/<type_id>.schema.json`.
pub fn schema_path(type_id: &str) -> (r: String)
    ensures
        r@ == "schemas/"@ + type_id@ + ".schema.json"@,
{
    concat3("schemas/", type_id, ".schema.json")
}

/// The path of entity template `template_id`: `entities/<template_id>.template.json`.
pub fn template_path(template_id: &str) -> (r: String)
    ensures
        r@ == "entities/"@ + template_id@ + ".template.json"@,
{
    concat3("entities/", template_id, ".template.json")
}

/// `names` with `x` appended unless it already holds it.
pub open spec fn listed(names: Seq<Seq<char>>, x: Seq<char>) -> Seq<Seq<char>> {
    if names.contains(x) { names } else { names.push(x) }
}

/// The test "differs from `x`".
pub open spec fn other_than(x: Seq<char>) -> spec_fn(Seq<char>) -> bool {
    |n: Seq<char>| n != x
}

/// `names` without any occurrence of `x`, in order.
pub open spec fn unlisted(names: Seq<Seq<char>>, x: Seq<char>) -> Seq<Seq<char>> {
    names.filter(other_than(x))
}

fn remove_all(names: &mut Vec<String>, x: &str)
    ensures
        strs_view(final(names)@) == unlisted(strs_view(old(names)@), x@),
{
    let ghost s = strs_view(names@);
    let mut kept: Vec<String> = Vec::new();
    let mut i: usize = 0;
    while i < names.len()
        invariant
            s == strs_view(names@),
            i <= names.len(),
            strs_view(kept@) == unlisted(s.subrange(0, i as int), x@),
        decreases names.len() - i,
    {
        let ghost before = strs_view(kept@);
        assert(s.subrange(0, i + 1) =~= s.subrange(0, i as int).push(s[i as int]));
        if !str_equal(names[i].as_str(), x) {
            kept.push(names[i].clone());
            assert(strs_view(kept@) =~= before.push(s[i as int]));
        }
        proof {
            s.subrange(0, i as int).lemma_filter_push(s[i as int], other_than(x@));
        }
        i += 1;
    }
    assert(s.subrange(0, names.len() as int) =~= s);
    *names = kept;
}

impl ProjectMetadata {
    /// List scene `name` in the project, unless it is listed already.
    pub fn add_scene(&mut self, name: &str)
        ensures
            strs_view(final(self).scenes@) == listed(strs_view(old(self).scenes@), name@),
            final(self).version == old(self).version,
            final(self).name == old(self).name,
            final(self).schemas == old(self).schemas,
            final(self).templates == old(self).templates,
            final(self).active_scene == old(self).active_scene,
    {
        if !contains_str(&self.scenes, name) {
            self.scenes.push(String::from_str(name));
            assert(strs_view(self.scenes@) =~= strs_view(old(self).scenes@).push(name@));
        }
    }

    /// List the schema of component type `type_id` in the project (`add`), unless listed
    /// already, or drop it from the list.
    pub fn set_schema(&mut self, type_id: &str, add: bool)
        ensures
            strs_view(final(self).schemas@) == (if add {
                listed(strs_view(old(self).schemas@), type_id@)
            } else {
                unlisted(strs_view(old(self).schemas@), type_id@)
            }),
            final(self).version == old(self).version,
            final(self).name == old(self).name,
            final(self).scenes == old(self).scenes,
            final(self).templates == old(self).templates,
            final(self).active_scene == old(self).active_scene,
    {
        if add {
            if !contains_str(&self.schemas, type_id) {
                self.schemas.push(String::from_str(type_id));
                assert(strs_view(self.schemas@) =~= strs_view(old(self).schemas@).push(type_id@));
            }
        } else {
            remove_all(&mut self.schemas, type_id);
        }
    }
}

/// Listing a name twice lists it once.
pub proof fn law_listing_is_idempotent(names: Seq<Seq<char>>, x: Seq<char>)
    ensures
        listed(listed(names, x), x) == listed(names, x),
{
    if !names.contains(x) {
        assert(names.push(x)[names.len() as int] == x);
    }
}

/// Listing keeps a list of distinct names distinct, and holds the name afterwards.
pub proof fn law_listing_keeps_names_distinct(names: Seq<Seq<char>>, x: Seq<char>)
    requires
        names.no_duplicates(),
    ensures
        listed(names, x).no_duplicates(),
        listed(names, x).contains(x),
{
    if !names.contains(x) {
        let l = names.push(x);
        assert(l[names.len() as int] == x);
        assert forall|i: int, j: int| 0 <= i < l.len() && 0 <= j < l.len() && i != j implies l[i] != l[j] by {
            if i < names.len() && j < names.len() {
                assert(l[i] == names[i] && l[j] == names[j]);
            } else if i < names.len() {
                assert(l[i] == names[i]);
            } else {
                assert(l[j] == names[j]);
            }
        }
    }
}

/// Unlisting drops every occurrence of the name and keeps every other name.
pub proof fn law_unlisting_drops_only_that_name(names: Seq<Seq<char>>, x: Seq<char>, y: Seq<char>)
    ensures
        !unlisted(names, x).contains(x),
        y != x ==> (unlisted(names, x).contains(y) <==> names.contains(y)),
{
    broadcast use vstd::seq_lib::group_filter_ensures;
    if unlisted(names, x).contains(x) {
        let i = choose|i: int| 0 <= i < unlisted(names, x).len() && unlisted(names, x)[i] == x;
        assert(other_than(x)(unlisted(names, x)[i]));
    }
    if y != x && names.contains(y) {
        let i = choose|i: int| 0 <= i < names.len() && names[i] == y;
        assert(other_than(x)(names[i]));
        names.lemma_filter_contains(other_than(x), i);
    }
    if unlisted(names, x).contains(y) {
        names.lemma_filter_contains_rev(other_than(x), y);
    }
}

/// The candidate path `<original>_<n>`.
pub open spec fn numbered(original: Seq<char>, n: nat) -> Seq<char> {
    original + "_"@ + decimal(n)
}

/// The first of `<original>_n` for `n` in `from..=100` that `taken` does not hold, if any.
pub open spec fn first_free(original: Seq<char>, taken: Seq<Seq<char>>, from: nat) -> Option<Seq<char>>
    decreases 101 - from,
{
    if from > 100 {
        None
    } else if !taken.contains(numbered(original, from)) {
        Some(numbered(original, from))
    } else {
        first_free(original, taken, from + 1)
    }
}

/// The path for a copy of the asset at `original`: `<original>_2`, or the first free of
/// `<original>_3` to `<original>_100` when that is taken, falling back to `<original>_2`.
pub open spec fn duplicate_path(original: Seq<char>, taken: Seq<Seq<char>>) -> Seq<char> {
    if !taken.contains(numbered(original, 2)) {
        numbered(original, 2)
    } else {
        match first_free(original, taken, 3) {
            Some(p) => p,
            None => numbered(original, 2),
        }
    }
}

fn numbered_exec(original: &str, n: usize) -> (r: String)
    ensures
        r@ == numbered(original@, n as nat),
{
    let d = usize_to_decimal(n);
    concat3(original, "_", d.as_str())
}

/// The path for a copy of the asset at `original`, given the logical paths already taken.
pub fn derive_duplicate_path(original: &str, taken: &Vec<String>) -> (r: String)
    ensures
        r@ == duplicate_path(original@, strs_view(taken@)),
{
    let base = numbered_exec(original, 2);
    if !contains_str(taken, base.as_str()) {
        return base;
    }
    let mut n: usize = 3;
    while n <= 100
        invariant
            3 <= n <= 101,
            first_free(original@, strs_view(taken@), 3) == first_free(original@, strs_view(taken@), n as nat),
            base@ == numbered(original@, 2),
            strs_view(taken@).contains(base@),
        decreases 101 - n,
    {
        let candidate = numbered_exec(original, n);
        if !contains_str(taken, candidate.as_str()) {
            return candidate;
        }
        n += 1;
    }
    base
}

} // verus!
