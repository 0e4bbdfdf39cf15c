//! Weapons: firing behaviour attached to an item of the items table.
//!
//! The numbers of a weapon (damage, rate of fire, range, reload time and fire
//! mode) are floating-point values and live with the game's runtime; this
//! table holds what links a weapon to the rest of the data.

use vstd::prelude::*;

use super::common::DamageKind;
use super::registry::{Definition, Id, Registry};

verus! {

/// Static definition of a weapon.
#[derive(Debug, Clone, Copy)]
pub struct WeaponDef {
    pub id: Id,
    /// Matching item in the items table.
    pub item: Id,
    pub damage_kind: DamageKind,
    /// Ammunition per magazine; `None` for a weapon that never reloads.
    pub magazine: Option<u16>,
}

impl Definition for WeaponDef {
    fn kind() -> (r: &'static str)
        ensures
            r@ == "arme"@,
    {
        "arme"
    }

    open spec fn spec_id(&self) -> Id {
        self.id
    }

    fn id(&self) -> (r: Id) {
        self.id
    }
}

/// The game's weapons.
pub open spec fn weapon_table() -> Seq<WeaponDef> {
    seq![
        WeaponDef {
            id: Id("pistol"),
            item: Id("pistol"),
            damage_kind: DamageKind::Physical,
            magazine: Some(12),
        },
        WeaponDef {
            id: Id("shotgun"),
            item: Id("shotgun"),
            damage_kind: DamageKind::Physical,
            magazine: Some(6),
        },
        WeaponDef {
            id: Id("arc_rifle"),
            item: Id("arc_rifle"),
            damage_kind: DamageKind::Lightning,
            magazine: Some(8),
        },
    ]
}

/// Table of the game's weapons.
pub fn weapons() -> (r: Registry<WeaponDef>)
    ensures
        r@ == weapon_table(),
{
    Registry::new(
        vec![
            WeaponDef {
                id: Id("pistol"),
                item: Id("pistol"),
                damage_kind: DamageKind::Physical,
                magazine: Some(12),
            },
            WeaponDef {
                id: Id("shotgun"),
                item: Id("shotgun"),
                damage_kind: DamageKind::Physical,
                magazine: Some(6),
            },
            WeaponDef {
                id: Id("arc_rifle"),
                item: Id("arc_rifle"),
                damage_kind: DamageKind::Lightning,
                magazine: Some(8),
            },
        ],
    )
}

} // verus!
