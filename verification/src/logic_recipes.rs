//! The built-in logic recipes: three immutable graphs shipped with the editor.

use vstd::prelude::*;
use vstd::string::*;
use crate::text::str_equal;

verus! {

/// What the recipe list says of a built-in recipe.
#[derive(Debug, Clone)]
pub struct RecipeMetadata {
    pub asset_id: String,
    pub name: String,
    pub description: String,
    pub node_count: usize,
}

/// The asset ids of the built-in recipes.
pub open spec fn recipe_ids() -> Seq<Seq<char>> {
    seq!["lga_recipe_jump"@, "lga_recipe_health"@, "lga_recipe_proximity"@]
}

/// The model of one recipe entry: asset id, name, description, node count.
pub open spec fn recipe_entry(i: int) -> (Seq<char>, Seq<char>, Seq<char>, nat) {
    if i == 0 {
        ("lga_recipe_jump"@, "Platformer Jump"@, "Jump when Space is pressed. Sensor → Gate → ApplyImpulse."@, 3)
    } else if i == 1 {
        (
            "lga_recipe_health"@,
            "Health Damage"@,
            "Apply damage on hazard collision. Collision → Compare → ModifyHealth."@,
            3,
        )
    } else {
        (
            "lga_recipe_proximity"@,
            "Proximity Trigger"@,
            "Emit signal when player enters radius. Proximity → Compare → EmitSignal."@,
            3,
        )
    }
}

fn recipe(asset_id: &str, name: &str, description: &str) -> (r: RecipeMetadata)
    ensures
        r.asset_id@ == asset_id@,
        r.name@ == name@,
        r.description@ == description@,
        r.node_count == 3,
{
    RecipeMetadata {
        asset_id: String::from_str(asset_id),
        name: String::from_str(name),
        description: String::from_str(description),
        node_count: 3,
    }
}

/// The built-in recipes, each with its name, description and number of nodes.
pub fn list_builtin_recipes() -> (r: Vec<RecipeMetadata>)
    ensures
        r.len() == 3,
        forall|i: int|
            0 <= i < 3 ==> ((#[trigger] r@[i]).asset_id@, r@[i].name@, r@[i].description@, r@[i].node_count as nat)
                == recipe_entry(i),
{
    let mut r: Vec<RecipeMetadata> = Vec::new();
    r.push(recipe("lga_recipe_jump", "Platformer Jump", "Jump when Space is pressed. Sensor → Gate → ApplyImpulse."));
    r.push(
        recipe(
            "lga_recipe_health",
            "Health Damage",
            "Apply damage on hazard collision. Collision → Compare → ModifyHealth.",
        ),
    );
    r.push(
        recipe(
            "lga_recipe_proximity",
            "Proximity Trigger",
            "Emit signal when player enters radius. Proximity → Compare → EmitSignal.",
        ),
    );
    r
}

/// Whether `asset_id` names a built-in recipe.
pub fn is_builtin_recipe(asset_id: &str) -> (r: bool)
    ensures
        r == recipe_ids().contains(asset_id@),
{
    let r = str_equal(asset_id, "lga_recipe_jump") || str_equal(asset_id, "lga_recipe_health") || str_equal(
        asset_id,
        "lga_recipe_proximity",
    );
    proof {
        let s = recipe_ids();
        if r {
            if asset_id@ == "lga_recipe_jump"@ { assert(s[0] == asset_id@); }
            if asset_id@ == "lga_recipe_health"@ { assert(s[1] == asset_id@); }
            if asset_id@ == "lga_recipe_proximity"@ { assert(s[2] == asset_id@); }
        } else if s.contains(asset_id@) {
            let i = choose|i: int| 0 <= i < s.len() && s[i] == asset_id@;
            assert(i == 0 || i == 1 || i == 2);
        }
    }
    r
}

} // verus!
