//! Bevy's hash collections, as this crate uses them: declared to Verus, with
//! what each method called here does to their contents.
//!
//! Each concrete collection gets a name for its contents, and one wrapper
//! per method, whose contract states what `bevy_platform` (a thin layer over
//! `hashbrown`) does to them.

use bevy::platform::collections::{HashMap, HashSet};
use bevy::platform::hash::FixedHasher;
use vstd::prelude::*;

use crate::client::terrain::Staged;
use crate::terrain::chunk::ChunkTiles;
use crate::terrain::tile::TileKind;

verus! {

#[verifier::external_type_specification]
#[verifier::external_body]
pub struct ExFixedHasher(FixedHasher);

#[verifier::external_type_specification]
#[verifier::external_body]
#[verifier::reject_recursive_types(K)]
#[verifier::reject_recursive_types(V)]
#[verifier::reject_recursive_types(S)]
pub struct ExBevyHashMap<K, V, S>(HashMap<K, V, S>);

#[verifier::external_type_specification]
#[verifier::external_body]
#[verifier::reject_recursive_types(T)]
#[verifier::reject_recursive_types(S)]
pub struct ExBevyHashSet<T, S>(HashSet<T, S>);

// ---------------------------------------------------------------------------
// `HashMap<u64, u64>`: the index of loaded chunks.

/// The entries of a `HashMap<u64, u64>`.
pub uninterp spec fn u64_map_entries(m: HashMap<u64, u64>) -> Map<u64, u64>;

/// `HashMap::new`: an empty map.
#[verifier::external_body]
pub(crate) fn u64_map_new() -> (r: HashMap<u64, u64>)
    ensures
        u64_map_entries(r).dom() == Set::<u64>::empty(),
{
    HashMap::new()
}

/// `HashMap::get`: the value stored under the key, if any (copied out).
#[verifier::external_body]
pub(crate) fn u64_map_get(m: &HashMap<u64, u64>, key: u64) -> (r: Option<u64>)
    ensures
        r == (if u64_map_entries(*m).contains_key(key) {
            Some(u64_map_entries(*m)[key])
        } else {
            None
        }),
{
    m.get(&key).copied()
}

/// `HashMap::insert`: the key now maps to the value; the value it had
/// before, if any, is returned.
#[verifier::external_body]
pub(crate) fn u64_map_insert(m: &mut HashMap<u64, u64>, key: u64, value: u64) -> (r: Option<
    u64,
>)
    ensures
        u64_map_entries(*final(m)) == u64_map_entries(*old(m)).insert(key, value),
        r == (if u64_map_entries(*old(m)).contains_key(key) {
            Some(u64_map_entries(*old(m))[key])
        } else {
            None
        }),
{
    m.insert(key, value)
}

/// `HashMap::remove`: the key is gone; the value it had, if any, is
/// returned.
#[verifier::external_body]
pub(crate) fn u64_map_remove(m: &mut HashMap<u64, u64>, key: u64) -> (r: Option<u64>)
    ensures
        u64_map_entries(*final(m)) == u64_map_entries(*old(m)).remove(key),
        r == (if u64_map_entries(*old(m)).contains_key(key) {
            Some(u64_map_entries(*old(m))[key])
        } else {
            None
        }),
{
    m.remove(&key)
}

/// `HashMap::len`: the number of entries.
#[verifier::external_body]
pub(crate) fn u64_map_len(m: &HashMap<u64, u64>) -> (r: usize)
    ensures
        r == u64_map_entries(*m).len(),
{
    m.len()
}

// ---------------------------------------------------------------------------
// `HashSet<u64>`: the chunks a client is subscribed to.

/// The elements of a `HashSet<u64>`.
pub uninterp spec fn u64_set_elements(s: HashSet<u64>) -> Set<u64>;

/// `HashSet::new`: an empty set.
#[verifier::external_body]
pub(crate) fn u64_set_new() -> (r: HashSet<u64>)
    ensures
        u64_set_elements(r) == Set::<u64>::empty(),
{
    HashSet::new()
}

/// `HashSet::contains`.
#[verifier::external_body]
pub(crate) fn u64_set_contains(s: &HashSet<u64>, value: u64) -> (r: bool)
    ensures
        r == u64_set_elements(*s).contains(value),
{
    s.contains(&value)
}

/// `HashSet::insert`: the value is in the set; `true` when it was not
/// before.
#[verifier::external_body]
pub(crate) fn u64_set_insert(s: &mut HashSet<u64>, value: u64) -> (r: bool)
    ensures
        u64_set_elements(*final(s)) == u64_set_elements(*old(s)).insert(value),
        r == !u64_set_elements(*old(s)).contains(value),
{
    s.insert(value)
}

/// `HashSet::remove`: the value is no longer in the set; `true` when it
/// was before.
#[verifier::external_body]
pub(crate) fn u64_set_remove(s: &mut HashSet<u64>, value: u64) -> (r: bool)
    ensures
        u64_set_elements(*final(s)) == u64_set_elements(*old(s)).remove(value),
        r == u64_set_elements(*old(s)).contains(value),
{
    s.remove(&value)
}

/// `HashSet::len`: the number of elements.
#[verifier::external_body]
pub(crate) fn u64_set_len(s: &HashSet<u64>) -> (r: usize)
    ensures
        r == u64_set_elements(*s).len(),
{
    s.len()
}

/// `HashSet::iter`, each element copied out: every element once, in an
/// order that the hasher decides.
#[verifier::external_body]
pub(crate) fn u64_set_to_vec(s: &HashSet<u64>) -> (r: Vec<u64>)
    ensures
        r@.to_set() == u64_set_elements(*s),
        r@.no_duplicates(),
{
    s.iter().copied().collect()
}

// ---------------------------------------------------------------------------
// `HashMap<u64, Staged>`: the client's terrain updates of one frame.

/// The entries of a `HashMap<u64, Staged>`.
pub uninterp spec fn staged_map_entries(m: HashMap<u64, Staged>) -> Map<u64, Staged>;

/// `HashMap::new`: an empty map.
#[verifier::external_body]
pub(crate) fn staged_map_new() -> (r: HashMap<u64, Staged>)
    ensures
        staged_map_entries(r).dom() == Set::<u64>::empty(),
{
    HashMap::new()
}

/// `HashMap::insert`: the key now maps to the value; the value it had
/// before, if any, is returned.
#[verifier::external_body]
pub(crate) fn staged_map_insert(m: &mut HashMap<u64, Staged>, key: u64, value: Staged) -> (r:
    Option<Staged>)
    ensures
        staged_map_entries(*final(m)) == staged_map_entries(*old(m)).insert(key, value),
        r == (if staged_map_entries(*old(m)).contains_key(key) {
            Some(staged_map_entries(*old(m))[key])
        } else {
            None
        }),
{
    m.insert(key, value)
}

/// `HashMap::remove`: the key is gone; the value it had, if any, is
/// returned.
#[verifier::external_body]
pub(crate) fn staged_map_remove(m: &mut HashMap<u64, Staged>, key: u64) -> (r: Option<Staged>)
    ensures
        staged_map_entries(*final(m)) == staged_map_entries(*old(m)).remove(key),
        r == (if staged_map_entries(*old(m)).contains_key(key) {
            Some(staged_map_entries(*old(m))[key])
        } else {
            None
        }),
{
    m.remove(&key)
}

// ---------------------------------------------------------------------------
// `HashMap<u64, Vec<(u16, TileKind)>>`: the tile edits of one tick, by chunk.

/// The entries of a `HashMap<u64, Vec<(u16, TileKind)>>`.
pub uninterp spec fn pending_map_entries(m: HashMap<u64, Vec<(u16, TileKind)>>) -> Map<
    u64,
    Vec<(u16, TileKind)>,
>;

/// `HashMap::new`: an empty map.
#[verifier::external_body]
pub(crate) fn pending_map_new() -> (r: HashMap<u64, Vec<(u16, TileKind)>>)
    ensures
        pending_map_entries(r).dom() == Set::<u64>::empty(),
{
    HashMap::new()
}

/// `HashMap::insert`: the key now maps to the value; the value it had
/// before, if any, is returned.
#[verifier::external_body]
pub(crate) fn pending_map_insert(
    m: &mut HashMap<u64, Vec<(u16, TileKind)>>,
    key: u64,
    value: Vec<(u16, TileKind)>,
) -> (r: Option<Vec<(u16, TileKind)>>)
    ensures
        pending_map_entries(*final(m)) == pending_map_entries(*old(m)).insert(key, value),
        r == (if pending_map_entries(*old(m)).contains_key(key) {
            Some(pending_map_entries(*old(m))[key])
        } else {
            None
        }),
{
    m.insert(key, value)
}

/// `HashMap::remove`: the key is gone; the value it had, if any, is
/// returned.
#[verifier::external_body]
pub(crate) fn pending_map_remove(m: &mut HashMap<u64, Vec<(u16, TileKind)>>, key: u64) -> (r:
    Option<Vec<(u16, TileKind)>>)
    ensures
        pending_map_entries(*final(m)) == pending_map_entries(*old(m)).remove(key),
        r == (if pending_map_entries(*old(m)).contains_key(key) {
            Some(pending_map_entries(*old(m))[key])
        } else {
            None
        }),
{
    m.remove(&key)
}

/// `HashMap::into_iter`, collected: every entry once, in an order that the
/// hasher decides.
#[verifier::external_body]
pub(crate) fn pending_map_into_vec(m: HashMap<u64, Vec<(u16, TileKind)>>) -> (r: Vec<
    (u64, Vec<(u16, TileKind)>),
>)
    ensures
        forall|i: int|
            0 <= i < r@.len() ==> pending_map_entries(m).contains_key(#[trigger] r@[i].0)
                && pending_map_entries(m)[r@[i].0] == r@[i].1,
        forall|k: u64|
            pending_map_entries(m).contains_key(k) ==> exists|i: int|
                0 <= i < r@.len() && #[trigger] r@[i].0 == k,
        forall|i: int, j: int| 0 <= i < j < r@.len() ==> r@[i].0 != r@[j].0,
{
    m.into_iter().collect()
}

// ---------------------------------------------------------------------------
// `HashMap<u64, (ChunkTiles, bool)>`: the chunks not in memory that the
// edits of one tick touched, each with whether an edit changed it.

/// The entries of a `HashMap<u64, (ChunkTiles, bool)>`.
pub uninterp spec fn unloaded_map_entries(m: HashMap<u64, (ChunkTiles, bool)>) -> Map<
    u64,
    (ChunkTiles, bool),
>;

/// `HashMap::new`: an empty map.
#[verifier::external_body]
pub(crate) fn unloaded_map_new() -> (r: HashMap<u64, (ChunkTiles, bool)>)
    ensures
        unloaded_map_entries(r).dom() == Set::<u64>::empty(),
{
    HashMap::new()
}

/// `HashMap::contains_key`.
#[verifier::external_body]
pub(crate) fn unloaded_map_contains(m: &HashMap<u64, (ChunkTiles, bool)>, key: u64) -> (r: bool)
    ensures
        r == unloaded_map_entries(*m).contains_key(key),
{
    m.contains_key(&key)
}

/// `HashMap::insert`: the key now maps to the value; the value it had
/// before, if any, is returned.
#[verifier::external_body]
pub(crate) fn unloaded_map_insert(
    m: &mut HashMap<u64, (ChunkTiles, bool)>,
    key: u64,
    value: (ChunkTiles, bool),
) -> (r: Option<(ChunkTiles, bool)>)
    ensures
        unloaded_map_entries(*final(m)) == unloaded_map_entries(*old(m)).insert(key, value),
        r == (if unloaded_map_entries(*old(m)).contains_key(key) {
            Some(unloaded_map_entries(*old(m))[key])
        } else {
            None
        }),
{
    m.insert(key, value)
}

/// `HashMap::remove`: the key is gone; the value it had, if any, is
/// returned.
#[verifier::external_body]
pub(crate) fn unloaded_map_remove(m: &mut HashMap<u64, (ChunkTiles, bool)>, key: u64) -> (r:
    Option<(ChunkTiles, bool)>)
    ensures
        unloaded_map_entries(*final(m)) == unloaded_map_entries(*old(m)).remove(key),
        r == (if unloaded_map_entries(*old(m)).contains_key(key) {
            Some(unloaded_map_entries(*old(m))[key])
        } else {
            None
        }),
{
    m.remove(&key)
}

/// `HashMap::into_iter`, collected: every entry once, in an order that the
/// hasher decides.
#[verifier::external_body]
pub(crate) fn unloaded_map_into_vec(m: HashMap<u64, (ChunkTiles, bool)>) -> (r: Vec<
    (u64, (ChunkTiles, bool)),
>)
    ensures
        forall|i: int|
            0 <= i < r@.len() ==> unloaded_map_entries(m).contains_key(#[trigger] r@[i].0)
                && unloaded_map_entries(m)[r@[i].0] == r@[i].1,
        forall|k: u64|
            unloaded_map_entries(m).contains_key(k) ==> exists|i: int|
                0 <= i < r@.len() && #[trigger] r@[i].0 == k,
        forall|i: int, j: int| 0 <= i < j < r@.len() ==> r@[i].0 != r@[j].0,
{
    m.into_iter().collect()
}

// ---------------------------------------------------------------------------
// `HashMap<u64, (ChunkTiles, u32)>`: the chunks not in memory that links
// subscribed to during one tick, each with its number of subscribers.

/// The entries of a `HashMap<u64, (ChunkTiles, u32)>`.
pub uninterp spec fn generated_map_entries(m: HashMap<u64, (ChunkTiles, u32)>) -> Map<
    u64,
    (ChunkTiles, u32),
>;

/// `HashMap::new`: an empty map.
#[verifier::external_body]
pub(crate) fn generated_map_new() -> (r: HashMap<u64, (ChunkTiles, u32)>)
    ensures
        generated_map_entries(r).dom() == Set::<u64>::empty(),
{
    HashMap::new()
}

/// `HashMap::get`: the count stored under the key, if any (copied out of
/// the entry).
#[verifier::external_body]
pub(crate) fn generated_map_get_count(m: &HashMap<u64, (ChunkTiles, u32)>, key: u64) -> (r:
    Option<u32>)
    ensures
        r == (if generated_map_entries(*m).contains_key(key) {
            Some(generated_map_entries(*m)[key].1)
        } else {
            None
        }),
{
    m.get(&key).map(|entry| entry.1)
}

/// `HashMap::insert`: the key now maps to the value; the value it had
/// before, if any, is returned.
#[verifier::external_body]
pub(crate) fn generated_map_insert(
    m: &mut HashMap<u64, (ChunkTiles, u32)>,
    key: u64,
    value: (ChunkTiles, u32),
) -> (r: Option<(ChunkTiles, u32)>)
    ensures
        generated_map_entries(*final(m)) == generated_map_entries(*old(m)).insert(key, value),
        r == (if generated_map_entries(*old(m)).contains_key(key) {
            Some(generated_map_entries(*old(m))[key])
        } else {
            None
        }),
{
    m.insert(key, value)
}

/// `HashMap::remove`: the key is gone; the value it had, if any, is
/// returned.
#[verifier::external_body]
pub(crate) fn generated_map_remove(m: &mut HashMap<u64, (ChunkTiles, u32)>, key: u64) -> (r:
    Option<(ChunkTiles, u32)>)
    ensures
        generated_map_entries(*final(m)) == generated_map_entries(*old(m)).remove(key),
        r == (if generated_map_entries(*old(m)).contains_key(key) {
            Some(generated_map_entries(*old(m))[key])
        } else {
            None
        }),
{
    m.remove(&key)
}

/// `HashMap::into_iter`, collected: every entry once, in an order that the
/// hasher decides.
#[verifier::external_body]
pub(crate) fn generated_map_into_vec(m: HashMap<u64, (ChunkTiles, u32)>) -> (r: Vec<
    (u64, (ChunkTiles, u32)),
>)
    ensures
        forall|i: int|
            0 <= i < r@.len() ==> generated_map_entries(m).contains_key(#[trigger] r@[i].0)
                && generated_map_entries(m)[r@[i].0] == r@[i].1,
        forall|k: u64|
            generated_map_entries(m).contains_key(k) ==> exists|i: int|
                0 <= i < r@.len() && #[trigger] r@[i].0 == k,
        forall|i: int, j: int| 0 <= i < j < r@.len() ==> r@[i].0 != r@[j].0,
{
    m.into_iter().collect()
}

} // verus!
