//! Index of the loaded chunks, by coordinate.
//!
//! Chunk entities are held by the raw bits of their id. The index is kept
//! exact by two hooks of the chunk component: one records a chunk when it
//! appears, the other forgets it when it goes, unless another entity has
//! taken its place in the meantime.

use bevy::platform::collections::HashMap;
use vstd::prelude::*;

use super::tile::{spec_chunk_key, ChunkCoord};
use crate::collections::{
    u64_map_entries, u64_map_get, u64_map_insert, u64_map_len, u64_map_new, u64_map_remove,
};

verus! {

/// Loaded chunks: the entity of each, keyed by the chunk's key.
pub struct TerrainIndex {
    entities: HashMap<u64, u64>,
}

impl View for TerrainIndex {
    type V = Map<u64, u64>;

    closed spec fn view(&self) -> Map<u64, u64> {
        u64_map_entries(self.entities)
    }
}

impl TerrainIndex {
    /// Entity recorded for a chunk, in the view.
    pub open spec fn spec_get(&self, coord: ChunkCoord) -> Option<u64> {
        if self@.contains_key(spec_chunk_key(coord)) {
            Some(self@[spec_chunk_key(coord)])
        } else {
            None
        }
    }

    /// An empty index.
    pub fn new() -> (r: TerrainIndex)
        ensures
            r@.dom() == Set::<u64>::empty(),
    {
        TerrainIndex { entities: u64_map_new() }
    }

    /// Entity of a chunk, if it is loaded.
    pub fn get(&self, coord: ChunkCoord) -> (r: Option<u64>)
        ensures
            r == self.spec_get(coord),
    {
        u64_map_get(&self.entities, coord.key())
    }

    pub fn contains(&self, coord: ChunkCoord) -> (r: bool)
        ensures
            r == self@.contains_key(spec_chunk_key(coord)),
    {
        u64_map_get(&self.entities, coord.key()).is_some()
    }

    pub fn len(&self) -> (r: usize)
        ensures
            r == self@.len(),
    {
        u64_map_len(&self.entities)
    }

    pub fn is_empty(&self) -> (r: bool)
        ensures
            r == (self@.len() == 0),
    {
        u64_map_len(&self.entities) == 0
    }

    /// Records `entity` as the chunk at `coord`. Returns the other entity it
    /// replaces, if another one was recorded there.
    pub fn index(&mut self, coord: ChunkCoord, entity: u64) -> (replaced: Option<u64>)
        ensures
            final(self)@ == old(self)@.insert(spec_chunk_key(coord), entity),
            final(self).spec_get(coord) == Some(entity),
            replaced == (match old(self).spec_get(coord) {
                Some(previous) => if previous != entity {
                    Some(previous)
                } else {
                    None
                },
                None => None,
            }),
    {
        match u64_map_insert(&mut self.entities, coord.key(), entity) {
            Some(previous) => if previous != entity {
                Some(previous)
            } else {
                None
            },
            None => None,
        }
    }

    /// Forgets the chunk at `coord` if `entity` is the one recorded there. A
    /// chunk replaced in the meantime by another entity stays indexed when
    /// the old one goes. Returns whether the chunk was forgotten.
    pub fn unindex(&mut self, coord: ChunkCoord, entity: u64) -> (removed: bool)
        ensures
            removed == (old(self).spec_get(coord) == Some(entity)),
            removed ==> final(self)@ == old(self)@.remove(spec_chunk_key(coord)),
            removed ==> final(self).spec_get(coord) is None,
            !removed ==> final(self)@ == old(self)@,
    {
        let key = coord.key();
        if u64_map_get(&self.entities, key) == Some(entity) {
            u64_map_remove(&mut self.entities, key);
            true
        } else {
            false
        }
    }
}

} // verus!
