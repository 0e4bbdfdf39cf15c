use theta::data::common::EquipmentSlot;
use theta::data::enemies::{EnemyDef, LootEntry};
use theta::data::entities::{entities, player, EntityDef};
use theta::data::equipments::{equipments, EquipmentDef};
use theta::data::items::{items, ItemDef, ItemKind};
use theta::data::registry::{str_eq, Id, Registry};
use theta::data::weapons::{weapons, WeaponDef};
use theta::data::common::{DamageKind, Faction, Rarity};
use theta::data::{validate, validate_tables, DataError, DataTable, Tables};

#[test]
fn tables_are_consistent() {
    assert_eq!(validate(), Ok(()));
}

#[test]
fn unknown_id_is_none() {
    assert!(items().get(Id("n_existe_pas")).is_none());
}

#[test]
fn weapon_and_item_are_linked_both_ways() {
    let items = items();
    for weapon in weapons().iter() {
        let item = items.expect(weapon.item);
        assert_eq!(
            item.kind,
            ItemKind::Weapon(weapon.id),
            "l'item `{}` ne pointe pas vers l'arme `{}`",
            item.id.as_str(),
            weapon.id.as_str()
        );
        assert_eq!(item.max_stack, 1, "une arme ne s'empile pas : `{}`", item.id.as_str());
    }
}

#[test]
fn equipment_and_item_are_linked_both_ways() {
    let items = items();
    for equipment in equipments().iter() {
        let item = items.expect(equipment.item);
        assert_eq!(
            item.kind,
            ItemKind::Equipment(equipment.id),
            "l'item `{}` ne pointe pas vers l'équipement `{}`",
            item.id.as_str(),
            equipment.id.as_str()
        );
    }
}

#[test]
fn str_eq_compares_the_text() {
    assert!(str_eq("pistol", "pistol"));
    assert!(!str_eq("pistol", "pistols"));
    assert!(!str_eq("pistol", "pistoL"));
    assert!(str_eq("", ""));
    assert!(Id("équipement").const_eq(Id("équipement")));
    assert!(!Id("a").const_eq(Id("b")));
}

#[test]
fn lookups_find_the_first_entry_with_the_id() {
    let items = items();
    assert_eq!(items.len(), 10);
    assert!(!items.is_empty());
    assert_eq!(items.all().len(), 10);
    assert_eq!(items.get(Id("medkit")).unwrap().name, "Trousse de soin");
    assert_eq!(items.expect(Id("stim")).max_stack, 3);
    assert!(items.contains(Id("scrap")));
    assert!(!items.contains(Id("Scrap")));
    assert!(entities().contains(player()));

    let registry = Registry::new(vec![
        EquipmentDef { id: Id("x"), item: Id("a"), slot: EquipmentSlot::Head },
        EquipmentDef { id: Id("x"), item: Id("b"), slot: EquipmentSlot::Feet },
    ]);
    assert_eq!(registry.get(Id("x")).unwrap().item, Id("a"));
    assert_eq!(registry.assert_unique_ids(), Err(Id("x")));
    assert_eq!(equipments().assert_unique_ids(), Ok(()));
}

#[test]
fn stackable_items_hold_more_than_one() {
    let items = items();
    assert!(items.expect(Id("scrap")).is_stackable());
    assert!(!items.expect(Id("pistol")).is_stackable());
}

#[test]
fn equipment_slots_are_listed_in_display_order() {
    assert_eq!(
        EquipmentSlot::all(),
        [
            EquipmentSlot::Head,
            EquipmentSlot::Chest,
            EquipmentSlot::Legs,
            EquipmentSlot::Feet,
            EquipmentSlot::Hands,
            EquipmentSlot::Trinket
        ]
    );
}

fn item(id: &'static str, max_stack: u16, kind: ItemKind) -> ItemDef {
    ItemDef {
        id: Id(id),
        name: id,
        description: "",
        rarity: Rarity::Common,
        max_stack,
        icon: "",
        kind,
    }
}

fn small_tables() -> Tables {
    Tables {
        items: Registry::new(vec![
            item("scrap", 99, ItemKind::Material),
            item("gun", 1, ItemKind::Weapon(Id("gun"))),
            item("hat", 1, ItemKind::Equipment(Id("hat"))),
        ]),
        weapons: Registry::new(vec![WeaponDef {
            id: Id("gun"),
            item: Id("gun"),
            damage_kind: DamageKind::Fire,
            magazine: None,
        }]),
        equipments: Registry::new(vec![EquipmentDef {
            id: Id("hat"),
            item: Id("hat"),
            slot: EquipmentSlot::Head,
        }]),
        entities: Registry::new(vec![EntityDef {
            id: Id("rat"),
            name: "Rat",
            faction: Faction::Hostile,
            sprite: "rat.png",
        }]),
        enemies: Registry::new(vec![EnemyDef {
            id: Id("rat"),
            entity: Id("rat"),
            weapon: Some(Id("gun")),
            experience: 1,
            loot: vec![LootEntry { item: Id("scrap"), min: 1, max: 2 }],
        }]),
    }
}

#[test]
fn consistent_tables_pass() {
    assert_eq!(validate_tables(&small_tables()), Ok(()));
}

#[test]
fn each_kind_of_problem_is_reported() {
    let mut t = small_tables();
    t.weapons = Registry::new(vec![
        WeaponDef { id: Id("gun"), item: Id("gun"), damage_kind: DamageKind::Fire, magazine: None },
        WeaponDef { id: Id("gun"), item: Id("gun"), damage_kind: DamageKind::Ice, magazine: Some(2) },
    ]);
    assert_eq!(
        validate_tables(&t),
        Err(DataError::DuplicateId { table: DataTable::Weapons, id: Id("gun") })
    );

    let mut t = small_tables();
    t.items = Registry::new(vec![
        item("scrap", 0, ItemKind::Material),
        item("gun", 1, ItemKind::Weapon(Id("gun"))),
        item("hat", 1, ItemKind::Equipment(Id("hat"))),
    ]);
    assert_eq!(validate_tables(&t), Err(DataError::ZeroMaxStack { item: Id("scrap") }));

    let mut t = small_tables();
    t.items = Registry::new(vec![
        item("scrap", 99, ItemKind::Material),
        item("gun", 1, ItemKind::Weapon(Id("laser"))),
        item("hat", 1, ItemKind::Equipment(Id("hat"))),
    ]);
    assert_eq!(
        validate_tables(&t),
        Err(DataError::ItemUnknownWeapon { item: Id("gun"), weapon: Id("laser") })
    );

    let mut t = small_tables();
    t.items = Registry::new(vec![
        item("scrap", 99, ItemKind::Material),
        item("gun", 1, ItemKind::Weapon(Id("gun"))),
        item("hat", 1, ItemKind::Equipment(Id("cap"))),
    ]);
    assert_eq!(
        validate_tables(&t),
        Err(DataError::ItemUnknownEquipment { item: Id("hat"), equipment: Id("cap") })
    );

    let mut t = small_tables();
    t.weapons = Registry::new(vec![WeaponDef {
        id: Id("gun"),
        item: Id("rifle"),
        damage_kind: DamageKind::Fire,
        magazine: None,
    }]);
    assert_eq!(
        validate_tables(&t),
        Err(DataError::WeaponUnknownItem { weapon: Id("gun"), item: Id("rifle") })
    );

    let mut t = small_tables();
    t.equipments = Registry::new(vec![EquipmentDef {
        id: Id("hat"),
        item: Id("cap"),
        slot: EquipmentSlot::Head,
    }]);
    assert_eq!(
        validate_tables(&t),
        Err(DataError::EquipmentUnknownItem { equipment: Id("hat"), item: Id("cap") })
    );

    let enemy = |entity: &'static str, weapon: Option<Id>, loot: LootEntry| EnemyDef {
        id: Id("rat"),
        entity: Id(entity),
        weapon,
        experience: 1,
        loot: vec![loot],
    };
    let fine_loot = LootEntry { item: Id("scrap"), min: 1, max: 2 };

    let mut t = small_tables();
    t.enemies = Registry::new(vec![enemy("bat", None, fine_loot)]);
    assert_eq!(
        validate_tables(&t),
        Err(DataError::EnemyUnknownEntity { enemy: Id("rat"), entity: Id("bat") })
    );

    let mut t = small_tables();
    t.enemies = Registry::new(vec![enemy("rat", Some(Id("bow")), fine_loot)]);
    assert_eq!(
        validate_tables(&t),
        Err(DataError::EnemyUnknownWeapon { enemy: Id("rat"), weapon: Id("bow") })
    );

    let mut t = small_tables();
    t.enemies = Registry::new(vec![enemy(
        "rat",
        None,
        LootEntry { item: Id("gold"), min: 1, max: 1 },
    )]);
    assert_eq!(
        validate_tables(&t),
        Err(DataError::LootUnknownItem { enemy: Id("rat"), item: Id("gold") })
    );

    let mut t = small_tables();
    t.enemies = Registry::new(vec![enemy(
        "rat",
        None,
        LootEntry { item: Id("scrap"), min: 3, max: 2 },
    )]);
    assert_eq!(
        validate_tables(&t),
        Err(DataError::LootRangeInverted { enemy: Id("rat"), item: Id("scrap") })
    );
}

#[test]
fn the_first_problem_is_reported() {
    // A duplicate identifier comes before any broken link.
    let mut t = small_tables();
    t.items = Registry::new(vec![
        item("scrap", 0, ItemKind::Material),
        item("gun", 1, ItemKind::Weapon(Id("laser"))),
        item("scrap", 1, ItemKind::Material),
        item("hat", 1, ItemKind::Equipment(Id("hat"))),
    ]);
    assert_eq!(
        validate_tables(&t),
        Err(DataError::DuplicateId { table: DataTable::Items, id: Id("scrap") })
    );

    // Within a table, the first entry with a problem is reported.
    let mut t = small_tables();
    t.items = Registry::new(vec![
        item("scrap", 99, ItemKind::Material),
        item("gun", 1, ItemKind::Weapon(Id("laser"))),
        item("hat", 0, ItemKind::Equipment(Id("cap"))),
    ]);
    assert_eq!(
        validate_tables(&t),
        Err(DataError::ItemUnknownWeapon { item: Id("gun"), weapon: Id("laser") })
    );

    // Items are checked before weapons.
    let mut t = small_tables();
    t.items = Registry::new(vec![
        item("scrap", 99, ItemKind::Material),
        item("gun", 1, ItemKind::Weapon(Id("gun"))),
        item("hat", 1, ItemKind::Equipment(Id("cap"))),
    ]);
    t.weapons = Registry::new(vec![WeaponDef {
        id: Id("gun"),
        item: Id("rifle"),
        damage_kind: DamageKind::Fire,
        magazine: None,
    }]);
    assert_eq!(
        validate_tables(&t),
        Err(DataError::ItemUnknownEquipment { item: Id("hat"), equipment: Id("cap") })
    );
}

#[test]
fn a_registry_is_walked_in_declaration_order() {
    let table = weapons();
    let ids: Vec<&str> = (&table).into_iter().map(|weapon| weapon.id.as_str()).collect();
    assert_eq!(ids, vec!["pistol", "shotgun", "arc_rifle"]);
    let mut count = 0;
    for _ in &table {
        count += 1;
    }
    assert_eq!(count, table.len());
}

#[test]
fn the_built_in_tables_are_the_game_tables() {
    let t = Tables::builtin();
    assert_eq!(t.items.len(), items().len());
    assert_eq!(t.weapons.len(), weapons().len());
    assert_eq!(t.equipments.len(), equipments().len());
    assert_eq!(t.entities.len(), entities().len());
    assert_eq!(t.enemies.len(), 3);
    assert!(t.items.contains(Id("medkit")));
    assert_eq!(t.weapons.expect(Id("shotgun")).magazine, Some(6));
    assert_eq!(validate_tables(&t), Ok(()));
}
