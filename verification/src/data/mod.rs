//! Static game data: items, weapons, equipment, entities, enemies.
//!
//! The tables refer to each other by [`Id`] rather than by pointer;
//! [`validate`] checks that identifiers are unique and that every such
//! reference resolves.

pub mod common;
pub mod enemies;
pub mod entities;
pub mod equipments;
pub mod items;
pub mod registry;
pub mod weapons;

use vstd::prelude::*;

use enemies::{enemies, is_enemy_table, EnemyDef, LootEntry};
use entities::{entities, entity_table, EntityDef};
use equipments::{equipment_table, equipments, EquipmentDef};
use items::{item_table, items, ItemDef, ItemKind};
use registry::{first_duplicate, has_id, ids_unique, Definition, Id, Registry};
use weapons::{weapon_table, weapons, WeaponDef};

verus! {

/// One of the data tables.
#[derive(Debug, Clone, Copy, PartialEq, Eq, Structural)]
pub enum DataTable {
    Items,
    Weapons,
    Equipments,
    Entities,
    Enemies,
}

/// A problem in the data tables.
#[derive(Debug, Clone, Copy, PartialEq)]
pub enum DataError {
    /// Two entries of a table share this identifier.
    DuplicateId { table: DataTable, id: Id },
    /// An item may not be stacked even once.
    ZeroMaxStack { item: Id },
    /// An item refers to a weapon that does not exist.
    ItemUnknownWeapon { item: Id, weapon: Id },
    /// An item refers to a piece of equipment that does not exist.
    ItemUnknownEquipment { item: Id, equipment: Id },
    /// A weapon refers to an item that does not exist.
    WeaponUnknownItem { weapon: Id, item: Id },
    /// A piece of equipment refers to an item that does not exist.
    EquipmentUnknownItem { equipment: Id, item: Id },
    /// An enemy refers to an entity that does not exist.
    EnemyUnknownEntity { enemy: Id, entity: Id },
    /// An enemy refers to a weapon that does not exist.
    EnemyUnknownWeapon { enemy: Id, weapon: Id },
    /// A loot line refers to an item that does not exist.
    LootUnknownItem { enemy: Id, item: Id },
    /// A loot line's quantity range is inverted.
    LootRangeInverted { enemy: Id, item: Id },
}

/// Every data table of the game.
pub struct Tables {
    pub items: Registry<ItemDef>,
    pub weapons: Registry<WeaponDef>,
    pub equipments: Registry<EquipmentDef>,
    pub entities: Registry<EntityDef>,
    pub enemies: Registry<EnemyDef>,
}

/// An item is stackable at least once and its link, if any, resolves.
pub open spec fn item_ok(t: &Tables, item: ItemDef) -> bool {
    &&& item.max_stack >= 1
    &&& match item.kind {
        ItemKind::Weapon(w) => has_id(t.weapons@, w),
        ItemKind::Equipment(e) => has_id(t.equipments@, e),
        _ => true,
    }
}

/// A loot line drops a known item in a non-inverted quantity range.
pub open spec fn loot_ok(t: &Tables, loot: LootEntry) -> bool {
    has_id(t.items@, loot.item) && loot.min <= loot.max
}

/// An enemy's body, weapon and loot all resolve.
pub open spec fn enemy_ok(t: &Tables, enemy: EnemyDef) -> bool {
    &&& has_id(t.entities@, enemy.entity)
    &&& (enemy.weapon matches Some(w) ==> has_id(t.weapons@, w))
    &&& forall|k: int| 0 <= k < enemy.loot@.len() ==> loot_ok(t, #[trigger] enemy.loot@[k])
}

/// Identifiers are unique in every table and every cross reference
/// resolves.
pub open spec fn tables_consistent(t: &Tables) -> bool {
    &&& ids_unique(t.items@)
    &&& ids_unique(t.weapons@)
    &&& ids_unique(t.equipments@)
    &&& ids_unique(t.entities@)
    &&& ids_unique(t.enemies@)
    &&& forall|i: int| 0 <= i < t.items@.len() ==> item_ok(t, #[trigger] t.items@[i])
    &&& forall|i: int|
        0 <= i < t.weapons@.len() ==> has_id(t.items@, (#[trigger] t.weapons@[i]).item)
    &&& forall|i: int|
        0 <= i < t.equipments@.len() ==> has_id(t.items@, (#[trigger] t.equipments@[i]).item)
    &&& forall|i: int| 0 <= i < t.enemies@.len() ==> enemy_ok(t, #[trigger] t.enemies@[i])
}

/// The problem of an item, if any: a stack of zero first, then a link that
/// does not resolve.
pub open spec fn item_problem(t: &Tables, item: ItemDef) -> Option<DataError> {
    if item.max_stack < 1 {
        Some(DataError::ZeroMaxStack { item: item.id })
    } else {
        match item.kind {
            ItemKind::Weapon(weapon) => if has_id(t.weapons@, weapon) {
                None
            } else {
                Some(DataError::ItemUnknownWeapon { item: item.id, weapon })
            },
            ItemKind::Equipment(equipment) => if has_id(t.equipments@, equipment) {
                None
            } else {
                Some(DataError::ItemUnknownEquipment { item: item.id, equipment })
            },
            _ => None,
        }
    }
}

/// The problem of a weapon, if any: an item that does not exist.
pub open spec fn weapon_problem(t: &Tables, weapon: WeaponDef) -> Option<DataError> {
    if has_id(t.items@, weapon.item) {
        None
    } else {
        Some(DataError::WeaponUnknownItem { weapon: weapon.id, item: weapon.item })
    }
}

/// The problem of a piece of equipment, if any: an item that does not
/// exist.
pub open spec fn equipment_problem(t: &Tables, equipment: EquipmentDef) -> Option<DataError> {
    if has_id(t.items@, equipment.item) {
        None
    } else {
        Some(DataError::EquipmentUnknownItem { equipment: equipment.id, item: equipment.item })
    }
}

/// The problem of a loot line of an enemy, if any: an item that does not
/// exist first, then an inverted quantity range.
pub open spec fn loot_problem(t: &Tables, enemy: Id, loot: LootEntry) -> Option<DataError> {
    if !has_id(t.items@, loot.item) {
        Some(DataError::LootUnknownItem { enemy, item: loot.item })
    } else if loot.min > loot.max {
        Some(DataError::LootRangeInverted { enemy, item: loot.item })
    } else {
        None
    }
}

/// The first problem among entries checked in turn, if any.
pub open spec fn first_problem<T>(entries: Seq<T>, problem: spec_fn(T) -> Option<DataError>) -> Option<
    DataError,
>
    decreases entries.len(),
{
    if entries.len() == 0 {
        None
    } else if problem(entries[0]) is Some {
        problem(entries[0])
    } else {
        first_problem(entries.drop_first(), problem)
    }
}

/// The check of each item against the tables.
pub open spec fn item_check(t: &Tables) -> spec_fn(ItemDef) -> Option<DataError> {
    |item: ItemDef| item_problem(t, item)
}

/// The check of each weapon against the tables.
pub open spec fn weapon_check(t: &Tables) -> spec_fn(WeaponDef) -> Option<DataError> {
    |weapon: WeaponDef| weapon_problem(t, weapon)
}

/// The check of each piece of equipment against the tables.
pub open spec fn equipment_check(t: &Tables) -> spec_fn(EquipmentDef) -> Option<DataError> {
    |equipment: EquipmentDef| equipment_problem(t, equipment)
}

/// The check of each loot line of an enemy against the tables.
pub open spec fn loot_check(t: &Tables, enemy: Id) -> spec_fn(LootEntry) -> Option<DataError> {
    |loot: LootEntry| loot_problem(t, enemy, loot)
}

/// The problem of an enemy, if any: its body first, then its weapon, then
/// its loot lines in order.
pub open spec fn enemy_problem(t: &Tables, enemy: EnemyDef) -> Option<DataError> {
    if !has_id(t.entities@, enemy.entity) {
        Some(DataError::EnemyUnknownEntity { enemy: enemy.id, entity: enemy.entity })
    } else if enemy.weapon matches Some(w) && !has_id(t.weapons@, w) {
        Some(DataError::EnemyUnknownWeapon { enemy: enemy.id, weapon: enemy.weapon->0 })
    } else {
        first_problem(enemy.loot@, loot_check(t, enemy.id))
    }
}

/// The check of each enemy against the tables.
pub open spec fn enemy_check(t: &Tables) -> spec_fn(EnemyDef) -> Option<DataError> {
    |enemy: EnemyDef| enemy_problem(t, enemy)
}

/// The identifier declared twice in a table, as a problem.
pub open spec fn duplicate_problem(table: DataTable, duplicate: Option<Id>) -> Option<DataError> {
    match duplicate {
        Some(id) => Some(DataError::DuplicateId { table, id }),
        None => None,
    }
}

/// The first of two possible problems.
pub open spec fn either(first: Option<DataError>, then: Option<DataError>) -> Option<DataError> {
    if first is Some {
        first
    } else {
        then
    }
}

/// The first problem of the tables: identifiers declared twice, table by
/// table in the order items, weapons, equipment, entities, enemies; then
/// references, in the order items, weapons, equipment, enemies.
pub open spec fn spec_first_problem(t: &Tables) -> Option<DataError> {
    either(
        duplicate_problem(DataTable::Items, first_duplicate(t.items@)),
        either(
            duplicate_problem(DataTable::Weapons, first_duplicate(t.weapons@)),
            either(
                duplicate_problem(DataTable::Equipments, first_duplicate(t.equipments@)),
                either(
                    duplicate_problem(DataTable::Entities, first_duplicate(t.entities@)),
                    either(
                        duplicate_problem(DataTable::Enemies, first_duplicate(t.enemies@)),
                        either(
                            first_problem(t.items@, item_check(t)),
                            either(
                                first_problem(t.weapons@, weapon_check(t)),
                                either(
                                    first_problem(t.equipments@, equipment_check(t)),
                                    first_problem(t.enemies@, enemy_check(t)),
                                ),
                            ),
                        ),
                    ),
                ),
            ),
        ),
    )
}

/// What checking the tables gives: the first problem, or nothing.
pub open spec fn spec_validate(t: &Tables) -> Result<(), DataError> {
    match spec_first_problem(t) {
        Some(e) => Err(e),
        None => Ok(()),
    }
}

/// Entries checked up to the `i`-th without a problem: the first problem is
/// that of the `i`-th, when it has one; none at all when every entry passes.
pub proof fn lemma_first_problem<T>(entries: Seq<T>, problem: spec_fn(T) -> Option<DataError>, i: int)
    requires
        0 <= i <= entries.len(),
        forall|j: int| 0 <= j < i ==> problem(#[trigger] entries[j]) is None,
    ensures
        i < entries.len() && problem(entries[i]) is Some ==> first_problem(entries, problem)
            == problem(entries[i]),
        i == entries.len() ==> first_problem(entries, problem) is None,
    decreases i,
{
    if i > 0 {
        let rest = entries.drop_first();
        assert forall|j: int| 0 <= j < i - 1 implies problem(#[trigger] rest[j]) is None by {
            assert(rest[j] == entries[j + 1]);
        }
        lemma_first_problem(rest, problem, i - 1);
        if i < entries.len() {
            assert(rest[i - 1] == entries[i]);
        }
    } else if entries.len() == 0 {
    }
}

/// There is a problem exactly when some entry has one.
pub proof fn lemma_first_problem_none<T>(entries: Seq<T>, problem: spec_fn(T) -> Option<DataError>)
    ensures
        first_problem(entries, problem) is None <==> forall|j: int|
            0 <= j < entries.len() ==> problem(#[trigger] entries[j]) is None,
    decreases entries.len(),
{
    if entries.len() > 0 {
        let rest = entries.drop_first();
        lemma_first_problem_none(rest, problem);
        if forall|j: int| 0 <= j < rest.len() ==> problem(#[trigger] rest[j]) is None {
            if problem(entries[0]) is None {
                assert forall|j: int| 0 <= j < entries.len() implies problem(
                    #[trigger] entries[j],
                ) is None by {
                    if j > 0 {
                        assert(entries[j] == rest[j - 1]);
                    }
                }
            }
        } else {
            let j = choose|j: int| 0 <= j < rest.len() && problem(#[trigger] rest[j]) is Some;
            assert(entries[j + 1] == rest[j]);
        }
    }
}

impl Tables {
    /// The game's built-in tables, which are consistent.
    pub fn builtin() -> (r: Tables)
        ensures
            is_game_tables(&r),
            tables_consistent(&r),
    {
        let r = Tables {
            items: items(),
            weapons: weapons(),
            equipments: equipments(),
            entities: entities(),
            enemies: enemies(),
        };
        proof {
            lemma_game_tables_consistent(&r);
        }
        r
    }
}

/// `t` holds the game's own tables.
pub open spec fn is_game_tables(t: &Tables) -> bool {
    &&& t.items@ == item_table()
    &&& t.weapons@ == weapon_table()
    &&& t.equipments@ == equipment_table()
    &&& t.entities@ == entity_table()
    &&& is_enemy_table(t.enemies@)
}

/// The identifiers of the built-in tables, told apart by their length and
/// first letter.
proof fn lemma_builtin_ids()
    ensures
        "scrap"@.len() == 5 && "scrap"@[0] == 's',
        "energy_cell"@.len() == 11 && "energy_cell"@[0] == 'e',
        "medkit"@.len() == 6 && "medkit"@[0] == 'm',
        "stim"@.len() == 4 && "stim"@[0] == 's',
        "pistol"@.len() == 6 && "pistol"@[0] == 'p',
        "shotgun"@.len() == 7 && "shotgun"@[0] == 's',
        "arc_rifle"@.len() == 9 && "arc_rifle"@[0] == 'a',
        "scrap_helmet"@.len() == 12 && "scrap_helmet"@[0] == 's',
        "plated_vest"@.len() == 11 && "plated_vest"@[0] == 'p',
        "runner_boots"@.len() == 12 && "runner_boots"@[0] == 'r',
        "player"@.len() == 6 && "player"@[0] == 'p',
        "crawler"@.len() == 7 && "crawler"@[0] == 'c',
        "spitter"@.len() == 7 && "spitter"@[0] == 's',
        "brute"@.len() == 5 && "brute"@[0] == 'b',
        "crate"@.len() == 5 && "crate"@[0] == 'c',
{
    reveal_strlit("scrap");
    reveal_strlit("energy_cell");
    reveal_strlit("medkit");
    reveal_strlit("stim");
    reveal_strlit("pistol");
    reveal_strlit("shotgun");
    reveal_strlit("arc_rifle");
    reveal_strlit("scrap_helmet");
    reveal_strlit("plated_vest");
    reveal_strlit("runner_boots");
    reveal_strlit("player");
    reveal_strlit("crawler");
    reveal_strlit("spitter");
    reveal_strlit("brute");
    reveal_strlit("crate");
}

/// The game's item, weapon, equipment, entity and enemy tables have unique
/// identifiers, and every link between them resolves.
pub proof fn lemma_game_tables_consistent(t: &Tables)
    requires
        is_game_tables(t),
    ensures
        tables_consistent(t),
{
    lemma_builtin_ids();
    let items = t.items@;
    let weapons = t.weapons@;
    let equipments = t.equipments@;
    let entities = t.entities@;
    let enemies = t.enemies@;
    assert forall|i: int, j: int| 0 <= i < j < items.len() implies (#[trigger] items[i].spec_id())@
        != (#[trigger] items[j].spec_id())@ by {
        assert(0 <= i <= 9 && 0 <= j <= 9);
        assert(i == 0 || i == 1 || i == 2 || i == 3 || i == 4 || i == 5 || i == 6 || i == 7 || i
            == 8);
        assert(j == 1 || j == 2 || j == 3 || j == 4 || j == 5 || j == 6 || j == 7 || j == 8 || j
            == 9);
    }
    assert forall|i: int, j: int| 0 <= i < j < weapons.len() implies (
    #[trigger] weapons[i].spec_id())@ != (#[trigger] weapons[j].spec_id())@ by {
        assert(i == 0 || i == 1);
        assert(j == 1 || j == 2);
    }
    assert forall|i: int, j: int| 0 <= i < j < equipments.len() implies (
    #[trigger] equipments[i].spec_id())@ != (#[trigger] equipments[j].spec_id())@ by {
        assert(i == 0 || i == 1);
        assert(j == 1 || j == 2);
    }
    assert forall|i: int, j: int| 0 <= i < j < entities.len() implies (
    #[trigger] entities[i].spec_id())@ != (#[trigger] entities[j].spec_id())@ by {
        assert(i == 0 || i == 1 || i == 2 || i == 3);
        assert(j == 1 || j == 2 || j == 3 || j == 4);
    }
    assert forall|i: int, j: int| 0 <= i < j < enemies.len() implies (
    #[trigger] enemies[i].spec_id())@ != (#[trigger] enemies[j].spec_id())@ by {
        assert(i == 0 || i == 1);
        assert(j == 1 || j == 2);
    }
    // Every reference names an entry that exists.
    assert(has_id(weapons, Id("pistol"))) by {
        assert(weapons[0].spec_id()@ == Id("pistol")@);
    }
    assert(has_id(weapons, Id("shotgun"))) by {
        assert(weapons[1].spec_id()@ == Id("shotgun")@);
    }
    assert(has_id(weapons, Id("arc_rifle"))) by {
        assert(weapons[2].spec_id()@ == Id("arc_rifle")@);
    }
    assert(has_id(equipments, Id("scrap_helmet"))) by {
        assert(equipments[0].spec_id()@ == Id("scrap_helmet")@);
    }
    assert(has_id(equipments, Id("plated_vest"))) by {
        assert(equipments[1].spec_id()@ == Id("plated_vest")@);
    }
    assert(has_id(equipments, Id("runner_boots"))) by {
        assert(equipments[2].spec_id()@ == Id("runner_boots")@);
    }
    assert forall|i: int| 0 <= i < items.len() implies #[trigger] item_ok(t, items[i]) by {
        assert(i == 0 || i == 1 || i == 2 || i == 3 || i == 4 || i == 5 || i == 6 || i == 7 || i
            == 8 || i == 9);
    }
    assert forall|i: int| 0 <= i < weapons.len() implies has_id(
        items,
        (#[trigger] weapons[i]).item,
    ) by {
        assert(items[4].spec_id()@ == Id("pistol")@);
        assert(items[5].spec_id()@ == Id("shotgun")@);
        assert(items[6].spec_id()@ == Id("arc_rifle")@);
        assert(i == 0 || i == 1 || i == 2);
    }
    assert forall|i: int| 0 <= i < equipments.len() implies has_id(
        items,
        (#[trigger] equipments[i]).item,
    ) by {
        assert(items[7].spec_id()@ == Id("scrap_helmet")@);
        assert(items[8].spec_id()@ == Id("plated_vest")@);
        assert(items[9].spec_id()@ == Id("runner_boots")@);
        assert(i == 0 || i == 1 || i == 2);
    }
    assert(has_id(items, Id("scrap"))) by {
        assert(items[0].spec_id()@ == Id("scrap")@);
    }
    assert(has_id(items, Id("energy_cell"))) by {
        assert(items[1].spec_id()@ == Id("energy_cell")@);
    }
    assert(has_id(items, Id("medkit"))) by {
        assert(items[2].spec_id()@ == Id("medkit")@);
    }
    assert(has_id(items, Id("plated_vest"))) by {
        assert(items[8].spec_id()@ == Id("plated_vest")@);
    }
    assert(has_id(entities, Id("crawler"))) by {
        assert(entities[1].spec_id()@ == Id("crawler")@);
    }
    assert(has_id(entities, Id("spitter"))) by {
        assert(entities[2].spec_id()@ == Id("spitter")@);
    }
    assert(has_id(entities, Id("brute"))) by {
        assert(entities[3].spec_id()@ == Id("brute")@);
    }
    assert forall|i: int| 0 <= i < enemies.len() implies #[trigger] enemy_ok(t, enemies[i]) by {
        assert(i == 0 || i == 1 || i == 2);
        let loot = enemies[i].loot@;
        assert forall|k: int| 0 <= k < loot.len() implies loot_ok(t, #[trigger] loot[k]) by {
            assert(k == 0 || k == 1 || k == 2);
        }
    }
}

fn check_unique<T: Definition>(
    registry: &Registry<T>,
    table: DataTable,
) -> (r: Result<(), DataError>)
    ensures
        r is Ok <==> ids_unique(registry@),
        r == (match duplicate_problem(table, first_duplicate(registry@)) {
            Some(e) => Err(e),
            None => Ok(()),
        }),
{
    match registry.assert_unique_ids() {
        Ok(()) => Ok(()),
        Err(id) => Err(DataError::DuplicateId { table, id }),
    }
}

fn check_items(t: &Tables) -> (r: Result<(), DataError>)
    ensures
        r is Ok <==> forall|i: int| 0 <= i < t.items@.len() ==> item_ok(t, #[trigger] t.items@[i]),
        r == (match first_problem(t.items@, item_check(t)) {
            Some(e) => Err(e),
            None => Ok(()),
        }),
{
    let all = t.items.all();
    let mut i: usize = 0;
    while i < all.len()
        invariant
            all@ == t.items@,
            i <= all@.len(),
            forall|j: int| 0 <= j < i ==> item_ok(t, #[trigger] t.items@[j]),
            forall|j: int| 0 <= j < i ==> (item_check(t))(#[trigger] t.items@[j]) is None,
        decreases all@.len() - i,
    {
        let item = &all[i];
        proof {
            lemma_first_problem(t.items@, item_check(t), i as int);
        }
        if item.max_stack < 1 {
            return Err(DataError::ZeroMaxStack { item: item.id });
        }
        match item.kind {
            ItemKind::Weapon(weapon) => {
                if !t.weapons.contains(weapon) {
                    return Err(DataError::ItemUnknownWeapon { item: item.id, weapon });
                }
            },
            ItemKind::Equipment(equipment) => {
                if !t.equipments.contains(equipment) {
                    return Err(DataError::ItemUnknownEquipment { item: item.id, equipment });
                }
            },
            _ => {},
        }
        i = i + 1;
    }
    proof {
        lemma_first_problem(t.items@, item_check(t), i as int);
    }
    Ok(())
}

fn check_weapons(t: &Tables) -> (r: Result<(), DataError>)
    ensures
        r is Ok <==> forall|i: int|
            0 <= i < t.weapons@.len() ==> has_id(t.items@, (#[trigger] t.weapons@[i]).item),
        r == (match first_problem(t.weapons@, weapon_check(t)) {
            Some(e) => Err(e),
            None => Ok(()),
        }),
{
    let all = t.weapons.all();
    let mut i: usize = 0;
    while i < all.len()
        invariant
            all@ == t.weapons@,
            i <= all@.len(),
            forall|j: int| 0 <= j < i ==> has_id(t.items@, (#[trigger] t.weapons@[j]).item),
            forall|j: int| 0 <= j < i ==> (weapon_check(t))(#[trigger] t.weapons@[j]) is None,
        decreases all@.len() - i,
    {
        let weapon = &all[i];
        proof {
            lemma_first_problem(t.weapons@, weapon_check(t), i as int);
        }
        if !t.items.contains(weapon.item) {
            return Err(DataError::WeaponUnknownItem { weapon: weapon.id, item: weapon.item });
        }
        i = i + 1;
    }
    proof {
        lemma_first_problem(t.weapons@, weapon_check(t), i as int);
    }
    Ok(())
}

fn check_equipments(t: &Tables) -> (r: Result<(), DataError>)
    ensures
        r is Ok <==> forall|i: int|
            0 <= i < t.equipments@.len() ==> has_id(t.items@, (#[trigger] t.equipments@[i]).item),
        r == (match first_problem(t.equipments@, equipment_check(t)) {
            Some(e) => Err(e),
            None => Ok(()),
        }),
{
    let all = t.equipments.all();
    let mut i: usize = 0;
    while i < all.len()
        invariant
            all@ == t.equipments@,
            i <= all@.len(),
            forall|j: int| 0 <= j < i ==> has_id(t.items@, (#[trigger] t.equipments@[j]).item),
            forall|j: int| 0 <= j < i ==> (equipment_check(t))(#[trigger] t.equipments@[j]) is None,
        decreases all@.len() - i,
    {
        let equipment = &all[i];
        proof {
            lemma_first_problem(t.equipments@, equipment_check(t), i as int);
        }
        if !t.items.contains(equipment.item) {
            return Err(
                DataError::EquipmentUnknownItem { equipment: equipment.id, item: equipment.item },
            );
        }
        i = i + 1;
    }
    proof {
        lemma_first_problem(t.equipments@, equipment_check(t), i as int);
    }
    Ok(())
}

fn check_enemy(t: &Tables, enemy: &EnemyDef) -> (r: Result<(), DataError>)
    ensures
        r is Ok <==> enemy_ok(t, *enemy),
        r == (match enemy_problem(t, *enemy) {
            Some(e) => Err(e),
            None => Ok(()),
        }),
{
    if !t.entities.contains(enemy.entity) {
        return Err(DataError::EnemyUnknownEntity { enemy: enemy.id, entity: enemy.entity });
    }
    match enemy.weapon {
        Some(weapon) => {
            if !t.weapons.contains(weapon) {
                return Err(DataError::EnemyUnknownWeapon { enemy: enemy.id, weapon });
            }
        },
        None => {},
    }
    let mut k: usize = 0;
    while k < enemy.loot.len()
        invariant
            k <= enemy.loot@.len(),
            has_id(t.entities@, enemy.entity),
            enemy.weapon matches Some(w) ==> has_id(t.weapons@, w),
            forall|m: int| 0 <= m < k ==> loot_ok(t, #[trigger] enemy.loot@[m]),
            forall|m: int| 0 <= m < k ==> (loot_check(t, enemy.id))(#[trigger] enemy.loot@[m]) is None,
        decreases enemy.loot@.len() - k,
    {
        let loot = enemy.loot[k];
        proof {
            lemma_first_problem(enemy.loot@, loot_check(t, enemy.id), k as int);
        }
        if !t.items.contains(loot.item) {
            return Err(DataError::LootUnknownItem { enemy: enemy.id, item: loot.item });
        }
        if loot.min > loot.max {
            return Err(DataError::LootRangeInverted { enemy: enemy.id, item: loot.item });
        }
        k = k + 1;
    }
    proof {
        lemma_first_problem(enemy.loot@, loot_check(t, enemy.id), k as int);
    }
    Ok(())
}

fn check_enemies(t: &Tables) -> (r: Result<(), DataError>)
    ensures
        r is Ok <==> forall|i: int| 0 <= i < t.enemies@.len() ==> enemy_ok(t, #[trigger] t.enemies@[i]),
        r == (match first_problem(t.enemies@, enemy_check(t)) {
            Some(e) => Err(e),
            None => Ok(()),
        }),
{
    let all = t.enemies.all();
    let mut i: usize = 0;
    while i < all.len()
        invariant
            all@ == t.enemies@,
            i <= all@.len(),
            forall|j: int| 0 <= j < i ==> enemy_ok(t, #[trigger] t.enemies@[j]),
            forall|j: int| 0 <= j < i ==> (enemy_check(t))(#[trigger] t.enemies@[j]) is None,
        decreases all@.len() - i,
    {
        proof {
            lemma_first_problem(t.enemies@, enemy_check(t), i as int);
        }
        match check_enemy(t, &all[i]) {
            Ok(()) => {},
            Err(e) => {
                return Err(e);
            },
        }
        i = i + 1;
    }
    proof {
        lemma_first_problem(t.enemies@, enemy_check(t), i as int);
    }
    Ok(())
}

/// Checks the consistency of a set of tables: unique identifiers and
/// resolvable cross references. On failure, reports the first problem
/// found, table by table in the order items, weapons, equipment, entities,
/// enemies for identifiers, then items, weapons, equipment, enemies for
/// references, each table in declaration order.
pub fn validate_tables(t: &Tables) -> (r: Result<(), DataError>)
    ensures
        r == spec_validate(t),
        r is Ok <==> tables_consistent(t),
{
    check_unique(&t.items, DataTable::Items)?;
    check_unique(&t.weapons, DataTable::Weapons)?;
    check_unique(&t.equipments, DataTable::Equipments)?;
    check_unique(&t.entities, DataTable::Entities)?;
    check_unique(&t.enemies, DataTable::Enemies)?;
    check_items(t)?;
    check_weapons(t)?;
    check_equipments(t)?;
    check_enemies(t)?;
    Ok(())
}

/// Checks the consistency of the game's built-in tables, which always
/// passes.
pub fn validate() -> (r: Result<(), DataError>)
    ensures
        r is Ok,
{
    validate_tables(&Tables::builtin())
}

} // verus!
