//! Nature-themed enemy stat blocks. Each trait comes in three power tiers
//! met at increasing dungeon depth: the universal elements (color, corpse)
//! are fixed, and the tier picks the stat line.
use vstd::prelude::*;

use crate::tiles::Color;

verus! {

/// A reusable enemy archetype: display name, combat stats and corpse label.
#[derive(Debug)]
pub struct Trait {
    pub name: String,
    pub exp: i32,
    pub hp: i32,
    pub defense: i32,
    pub power: i32,
    pub color: Color,
    pub corpse_type: String,
}

/// The nature trait at the given tier: tier one is the weak form, tier two
/// the middle form, and any other tier the strong form.
pub fn nature_trait(tier: i32) -> (t: Trait)
    ensures
        t.color == (Color { r: 0, g: 255, b: 0 }),
        t.corpse_type@ == "leaves"@,
        tier == 1 ==> t.name@ == "Bush "@ && t.exp == 15 && t.hp == 1 && t.defense == 1
            && t.power == 1,
        tier == 2 ==> t.name@ == "Tree "@ && t.exp == 50 && t.hp == 3 && t.defense == 2
            && t.power == 2,
        tier != 1 && tier != 2 ==> t.name@ == "Forest "@ && t.exp == 150 && t.hp == 7
            && t.defense == 5 && t.power == 5,
        0 < t.hp && 0 <= t.defense <= 10000 && 0 <= t.power <= 10000 && 0 <= t.exp,
{
    let color = Color { r: 0, g: 255, b: 0 };
    if tier == 1 {
        Trait {
            name: "Bush ".to_owned(),
            exp: 15,
            hp: 1,
            defense: 1,
            power: 1,
            color,
            corpse_type: "leaves".to_owned(),
        }
    } else if tier == 2 {
        Trait {
            name: "Tree ".to_owned(),
            exp: 50,
            hp: 3,
            defense: 2,
            power: 2,
            color,
            corpse_type: "leaves".to_owned(),
        }
    } else {
        Trait {
            name: "Forest ".to_owned(),
            exp: 150,
            hp: 7,
            defense: 5,
            power: 5,
            color,
            corpse_type: "leaves".to_owned(),
        }
    }
}

} // verus!
