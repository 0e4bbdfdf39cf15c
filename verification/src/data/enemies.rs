//! Enemies: rewards and loot grafted onto an entity.
//!
//! Behaviour, damage, attack rate and the probability of each loot line are
//! floating-point values and live with the game's runtime.

use vstd::prelude::*;

use super::registry::{Definition, Id, Registry};

verus! {

/// One line of a loot table.
#[derive(Debug, Clone, Copy, PartialEq)]
pub struct LootEntry {
    /// Dropped item, in the items table.
    pub item: Id,
    /// Quantity drawn uniformly in `min..=max`.
    pub min: u16,
    pub max: u16,
}

/// Static definition of an enemy.
#[derive(Debug, Clone)]
pub struct EnemyDef {
    pub id: Id,
    /// Body of the enemy, in the entities table.
    pub entity: Id,
    /// Weapon used, for ranged enemies.
    pub weapon: Option<Id>,
    /// Experience granted on death.
    pub experience: u32,
    pub loot: Vec<LootEntry>,
}

impl Definition for EnemyDef {
    fn kind() -> (r: &'static str)
        ensures
            r@ == "ennemi"@,
    {
        "ennemi"
    }

    open spec fn spec_id(&self) -> Id {
        self.id
    }

    fn id(&self) -> (r: Id) {
        self.id
    }
}

/// `t` is the game's enemy table.
pub open spec fn is_enemy_table(t: Seq<EnemyDef>) -> bool {
    &&& t.len() == 3
    &&& t[0].id == Id("crawler") && t[0].entity == Id("crawler") && t[0].weapon == None::<Id>
        && t[0].experience == 5
    &&& t[0].loot@ == seq![LootEntry { item: Id("scrap"), min: 1, max: 3 }]
    &&& t[1].id == Id("spitter") && t[1].entity == Id("spitter") && t[1].weapon == Some(
        Id("pistol"),
    ) && t[1].experience == 9
    &&& t[1].loot@ == seq![
        LootEntry { item: Id("scrap"), min: 1, max: 2 },
        LootEntry { item: Id("energy_cell"), min: 1, max: 1 },
    ]
    &&& t[2].id == Id("brute") && t[2].entity == Id("brute") && t[2].weapon == None::<Id>
        && t[2].experience == 40
    &&& t[2].loot@ == seq![
        LootEntry { item: Id("scrap"), min: 3, max: 6 },
        LootEntry { item: Id("medkit"), min: 1, max: 1 },
        LootEntry { item: Id("plated_vest"), min: 1, max: 1 },
    ]
}

/// Table of the game's enemies.
pub fn enemies() -> (r: Registry<EnemyDef>)
    ensures
        is_enemy_table(r@),
{
    let r = Registry::new(
        vec![
            EnemyDef {
                id: Id("crawler"),
                entity: Id("crawler"),
                weapon: None,
                experience: 5,
                loot: vec![LootEntry { item: Id("scrap"), min: 1, max: 3 }],
            },
            EnemyDef {
                id: Id("spitter"),
                entity: Id("spitter"),
                weapon: Some(Id("pistol")),
                experience: 9,
                loot: vec![
                    LootEntry { item: Id("scrap"), min: 1, max: 2 },
                    LootEntry { item: Id("energy_cell"), min: 1, max: 1 },
                ],
            },
            EnemyDef {
                id: Id("brute"),
                entity: Id("brute"),
                weapon: None,
                experience: 40,
                loot: vec![
                    LootEntry { item: Id("scrap"), min: 3, max: 6 },
                    LootEntry { item: Id("medkit"), min: 1, max: 1 },
                    LootEntry { item: Id("plated_vest"), min: 1, max: 1 },
                ],
            },
        ],
    );
    proof {
        let t = r@;
        assert(t[0].loot@ =~= seq![LootEntry { item: Id("scrap"), min: 1, max: 3 }]);
        assert(t[1].loot@ =~= seq![
            LootEntry { item: Id("scrap"), min: 1, max: 2 },
            LootEntry { item: Id("energy_cell"), min: 1, max: 1 },
        ]);
        assert(t[2].loot@ =~= seq![
            LootEntry { item: Id("scrap"), min: 3, max: 6 },
            LootEntry { item: Id("medkit"), min: 1, max: 1 },
            LootEntry { item: Id("plated_vest"), min: 1, max: 1 },
        ]);
    }
    r
}

} // verus!
