//! Equipment: pieces worn on a slot, which change the wearer's stats.
//!
//! The stat modifiers and damage resistances are floating-point values and
//! live with the game's runtime; this table holds what links a piece to the
//! rest of the data.

use vstd::prelude::*;

use super::common::EquipmentSlot;
use super::registry::{Definition, Id, Registry};

verus! {

/// Static definition of a piece of equipment.
#[derive(Debug, Clone, Copy)]
pub struct EquipmentDef {
    pub id: Id,
    /// Matching item in the items table.
    pub item: Id,
    pub slot: EquipmentSlot,
}

impl Definition for EquipmentDef {
    fn kind() -> (r: &'static str)
        ensures
            r@ == "équipement"@,
    {
        "équipement"
    }

    open spec fn spec_id(&self) -> Id {
        self.id
    }

    fn id(&self) -> (r: Id) {
        self.id
    }
}

/// The game's equipment.
pub open spec fn equipment_table() -> Seq<EquipmentDef> {
    seq![
        EquipmentDef {
            id: Id("scrap_helmet"),
            item: Id("scrap_helmet"),
            slot: EquipmentSlot::Head,
        },
        EquipmentDef {
            id: Id("plated_vest"),
            item: Id("plated_vest"),
            slot: EquipmentSlot::Chest,
        },
        EquipmentDef {
            id: Id("runner_boots"),
            item: Id("runner_boots"),
            slot: EquipmentSlot::Feet,
        },
    ]
}

/// Table of the game's equipment.
pub fn equipments() -> (r: Registry<EquipmentDef>)
    ensures
        r@ == equipment_table(),
{
    Registry::new(
        vec![
            EquipmentDef {
                id: Id("scrap_helmet"),
                item: Id("scrap_helmet"),
                slot: EquipmentSlot::Head,
            },
            EquipmentDef {
                id: Id("plated_vest"),
                item: Id("plated_vest"),
                slot: EquipmentSlot::Chest,
            },
            EquipmentDef {
                id: Id("runner_boots"),
                item: Id("runner_boots"),
                slot: EquipmentSlot::Feet,
            },
        ],
    )
}

} // verus!
