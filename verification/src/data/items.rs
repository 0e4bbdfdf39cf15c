//! Items: everything that can fill an inventory slot.
//!
//! A weapon or a piece of equipment also has an entry here: the item holds
//! what is common (name, rarity, icon, stacking), the specialised table holds
//! the behaviour. [`ItemKind`] links the two.

use vstd::prelude::*;

use super::common::Rarity;
use super::registry::{Definition, Id, Registry};

verus! {

/// Role of the item, and link to its specialised table.
#[derive(Debug, Clone, Copy, PartialEq)]
pub enum ItemKind {
    /// Crafting resource, with no effect of its own.
    Material,
    /// Consumable: one use, then the item leaves the inventory.
    Consumable,
    /// Points into the weapons table.
    Weapon(Id),
    /// Points into the equipment table.
    Equipment(Id),
}

/// Static definition of an item.
#[derive(Debug, Clone, Copy)]
pub struct ItemDef {
    pub id: Id,
    /// Displayed name.
    pub name: &'static str,
    /// Flavour text.
    pub description: &'static str,
    pub rarity: Rarity,
    /// Largest number of copies in one inventory slot (at least 1).
    pub max_stack: u16,
    /// Path of the icon, relative to `assets/`.
    pub icon: &'static str,
    pub kind: ItemKind,
}

impl Definition for ItemDef {
    fn kind() -> (r: &'static str)
        ensures
            r@ == "item"@,
    {
        "item"
    }

    open spec fn spec_id(&self) -> Id {
        self.id
    }

    fn id(&self) -> (r: Id) {
        self.id
    }
}

impl ItemDef {
    pub fn is_stackable(&self) -> (r: bool)
        ensures
            r == (self.max_stack > 1),
    {
        self.max_stack > 1
    }
}

/// The game's items.
pub open spec fn item_table() -> Seq<ItemDef> {
    seq![
        ItemDef {
            id: Id("scrap"),
            name: "Ferraille",
            description: "Des morceaux de métal encore utilisables.",
            rarity: Rarity::Common,
            max_stack: 99,
            icon: "items/scrap.png",
            kind: ItemKind::Material,
        },
        ItemDef {
            id: Id("energy_cell"),
            name: "Cellule d'énergie",
            description: "Une batterie compacte, chaude au toucher.",
            rarity: Rarity::Uncommon,
            max_stack: 20,
            icon: "items/energy_cell.png",
            kind: ItemKind::Material,
        },
        ItemDef {
            id: Id("medkit"),
            name: "Trousse de soin",
            description: "Referme les plaies, pas les rancunes.",
            rarity: Rarity::Common,
            max_stack: 5,
            icon: "items/medkit.png",
            kind: ItemKind::Consumable,
        },
        ItemDef {
            id: Id("stim"),
            name: "Stimulant",
            description: "Le monde ralentit. Vous, non.",
            rarity: Rarity::Rare,
            max_stack: 3,
            icon: "items/stim.png",
            kind: ItemKind::Consumable,
        },
        ItemDef {
            id: Id("pistol"),
            name: "Pistolet",
            description: "Fiable, sans plus.",
            rarity: Rarity::Common,
            max_stack: 1,
            icon: "items/pistol.png",
            kind: ItemKind::Weapon(Id("pistol")),
        },
        ItemDef {
            id: Id("shotgun"),
            name: "Fusil à pompe",
            description: "Conversation courte, argument large.",
            rarity: Rarity::Uncommon,
            max_stack: 1,
            icon: "items/shotgun.png",
            kind: ItemKind::Weapon(Id("shotgun")),
        },
        ItemDef {
            id: Id("arc_rifle"),
            name: "Fusil à arc",
            description: "L'orage tient dans les mains.",
            rarity: Rarity::Epic,
            max_stack: 1,
            icon: "items/arc_rifle.png",
            kind: ItemKind::Weapon(Id("arc_rifle")),
        },
        ItemDef {
            id: Id("scrap_helmet"),
            name: "Casque de ferraille",
            description: "Bricolé, mais il tient.",
            rarity: Rarity::Common,
            max_stack: 1,
            icon: "items/scrap_helmet.png",
            kind: ItemKind::Equipment(Id("scrap_helmet")),
        },
        ItemDef {
            id: Id("plated_vest"),
            name: "Gilet plaqué",
            description: "Lourd là où il faut.",
            rarity: Rarity::Uncommon,
            max_stack: 1,
            icon: "items/plated_vest.png",
            kind: ItemKind::Equipment(Id("plated_vest")),
        },
        ItemDef {
            id: Id("runner_boots"),
            name: "Bottes de coureur",
            description: "Usées jusqu'à la semelle, et pourtant rapides.",
            rarity: Rarity::Rare,
            max_stack: 1,
            icon: "items/runner_boots.png",
            kind: ItemKind::Equipment(Id("runner_boots")),
        },
    ]
}

/// Table of the game's items.
pub fn items() -> (r: Registry<ItemDef>)
    ensures
        r@ == item_table(),
{
    Registry::new(
        vec![
            ItemDef {
                id: Id("scrap"),
                name: "Ferraille",
                description: "Des morceaux de métal encore utilisables.",
                rarity: Rarity::Common,
                max_stack: 99,
                icon: "items/scrap.png",
                kind: ItemKind::Material,
            },
            ItemDef {
                id: Id("energy_cell"),
                name: "Cellule d'énergie",
                description: "Une batterie compacte, chaude au toucher.",
                rarity: Rarity::Uncommon,
                max_stack: 20,
                icon: "items/energy_cell.png",
                kind: ItemKind::Material,
            },
            ItemDef {
                id: Id("medkit"),
                name: "Trousse de soin",
                description: "Referme les plaies, pas les rancunes.",
                rarity: Rarity::Common,
                max_stack: 5,
                icon: "items/medkit.png",
                kind: ItemKind::Consumable,
            },
            ItemDef {
                id: Id("stim"),
                name: "Stimulant",
                description: "Le monde ralentit. Vous, non.",
                rarity: Rarity::Rare,
                max_stack: 3,
                icon: "items/stim.png",
                kind: ItemKind::Consumable,
            },
            ItemDef {
                id: Id("pistol"),
                name: "Pistolet",
                description: "Fiable, sans plus.",
                rarity: Rarity::Common,
                max_stack: 1,
                icon: "items/pistol.png",
                kind: ItemKind::Weapon(Id("pistol")),
            },
            ItemDef {
                id: Id("shotgun"),
                name: "Fusil à pompe",
                description: "Conversation courte, argument large.",
                rarity: Rarity::Uncommon,
                max_stack: 1,
                icon: "items/shotgun.png",
                kind: ItemKind::Weapon(Id("shotgun")),
            },
            ItemDef {
                id: Id("arc_rifle"),
                name: "Fusil à arc",
                description: "L'orage tient dans les mains.",
                rarity: Rarity::Epic,
                max_stack: 1,
                icon: "items/arc_rifle.png",
                kind: ItemKind::Weapon(Id("arc_rifle")),
            },
            ItemDef {
                id: Id("scrap_helmet"),
                name: "Casque de ferraille",
                description: "Bricolé, mais il tient.",
                rarity: Rarity::Common,
                max_stack: 1,
                icon: "items/scrap_helmet.png",
                kind: ItemKind::Equipment(Id("scrap_helmet")),
            },
            ItemDef {
                id: Id("plated_vest"),
                name: "Gilet plaqué",
                description: "Lourd là où il faut.",
                rarity: Rarity::Uncommon,
                max_stack: 1,
                icon: "items/plated_vest.png",
                kind: ItemKind::Equipment(Id("plated_vest")),
            },
            ItemDef {
                id: Id("runner_boots"),
                name: "Bottes de coureur",
                description: "Usées jusqu'à la semelle, et pourtant rapides.",
                rarity: Rarity::Rare,
                max_stack: 1,
                icon: "items/runner_boots.png",
                kind: ItemKind::Equipment(Id("runner_boots")),
            },
        ],
    )
}

} // verus!
