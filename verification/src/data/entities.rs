//! Entities: what every living, space-filling thing is made of.
//!
//! An enemy refers to an entity for its body. Health, speed and hitbox are
//! floating-point values and live with the game's runtime.

use vstd::prelude::*;

use super::common::Faction;
use super::registry::{Definition, Id, Registry};

verus! {

/// Static definition of an entity.
#[derive(Debug, Clone, Copy)]
pub struct EntityDef {
    pub id: Id,
    pub name: &'static str,
    pub faction: Faction,
    /// Path of the sprite, relative to `assets/`.
    pub sprite: &'static str,
}

impl Definition for EntityDef {
    fn kind() -> (r: &'static str)
        ensures
            r@ == "entité"@,
    {
        "entité"
    }

    open spec fn spec_id(&self) -> Id {
        self.id
    }

    fn id(&self) -> (r: Id) {
        self.id
    }
}

/// The reference playable entity: the player.
pub fn player() -> (r: Id)
    ensures
        r == Id("player"),
{
    Id("player")
}

/// The game's entities.
pub open spec fn entity_table() -> Seq<EntityDef> {
    seq![
        EntityDef {
            id: Id("player"),
            name: "Joueur",
            faction: Faction::Player,
            sprite: "a.png",
        },
        EntityDef {
            id: Id("crawler"),
            name: "Rampant",
            faction: Faction::Hostile,
            sprite: "entities/crawler.png",
        },
        EntityDef {
            id: Id("spitter"),
            name: "Cracheur",
            faction: Faction::Hostile,
            sprite: "entities/spitter.png",
        },
        EntityDef {
            id: Id("brute"),
            name: "Brute",
            faction: Faction::Hostile,
            sprite: "entities/brute.png",
        },
        EntityDef {
            id: Id("crate"),
            name: "Caisse",
            faction: Faction::Neutral,
            sprite: "entities/crate.png",
        },
    ]
}

/// Table of the game's entities.
pub fn entities() -> (r: Registry<EntityDef>)
    ensures
        r@ == entity_table(),
{
    Registry::new(
        vec![
            EntityDef {
                id: player(),
                name: "Joueur",
                faction: Faction::Player,
                sprite: "a.png",
            },
            EntityDef {
                id: Id("crawler"),
                name: "Rampant",
                faction: Faction::Hostile,
                sprite: "entities/crawler.png",
            },
            EntityDef {
                id: Id("spitter"),
                name: "Cracheur",
                faction: Faction::Hostile,
                sprite: "entities/spitter.png",
            },
            EntityDef {
                id: Id("brute"),
                name: "Brute",
                faction: Faction::Hostile,
                sprite: "entities/brute.png",
            },
            EntityDef {
                id: Id("crate"),
                name: "Caisse",
                faction: Faction::Neutral,
                sprite: "entities/crate.png",
            },
        ],
    )
}

} // verus!
