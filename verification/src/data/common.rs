//! Types shared by several data tables.

use vstd::prelude::*;

verus! {

/// Rarity of an item, a weapon or a piece of equipment.
#[derive(Debug, Clone, Copy, PartialEq, Eq, PartialOrd, Ord, Hash, Default, Structural)]
pub enum Rarity {
    #[default]
    Common,
    Uncommon,
    Rare,
    Epic,
    Legendary,
}

/// Nature of the damage dealt, for resistances.
#[derive(Debug, Clone, Copy, PartialEq, Eq, Hash, Default, Structural)]
pub enum DamageKind {
    #[default]
    Physical,
    Fire,
    Ice,
    Lightning,
    Poison,
}

/// Side of an entity: decides who can hurt whom.
#[derive(Debug, Clone, Copy, PartialEq, Eq, Hash, Default, Structural)]
pub enum Faction {
    #[default]
    Neutral,
    Player,
    Hostile,
}

/// Equipment slot on a character.
#[derive(Debug, Clone, Copy, PartialEq, Eq, PartialOrd, Ord, Hash, Structural)]
pub enum EquipmentSlot {
    Head,
    Chest,
    Legs,
    Feet,
    Hands,
    Trinket,
}

impl EquipmentSlot {
    /// Every slot, in display order.
    pub fn all() -> (r: [EquipmentSlot; 6])
        ensures
            r@ == seq![
                EquipmentSlot::Head,
                EquipmentSlot::Chest,
                EquipmentSlot::Legs,
                EquipmentSlot::Feet,
                EquipmentSlot::Hands,
                EquipmentSlot::Trinket,
            ],
    {
        [
            EquipmentSlot::Head,
            EquipmentSlot::Chest,
            EquipmentSlot::Legs,
            EquipmentSlot::Feet,
            EquipmentSlot::Hands,
            EquipmentSlot::Trinket,
        ]
    }
}

} // verus!
