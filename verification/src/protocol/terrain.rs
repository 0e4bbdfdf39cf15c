//! Terrain messages from the server to its clients, on an ordered channel.

use vstd::prelude::*;

use crate::terrain::tile::{ChunkCoord, TileKind};

verus! {

/// An update of the terrain a client knows.
#[derive(Debug, Clone, PartialEq)]
pub enum TerrainUpdate {
    /// Whole content of a chunk the client has just subscribed to.
    Snapshot { chunk: ChunkCoord, tiles: Vec<TileKind> },
    /// Tiles of a subscribed chunk that changed, by index in the chunk.
    Edits { chunk: ChunkCoord, edits: Vec<(u16, TileKind)> },
    /// The client must forget the chunk.
    Unload { chunk: ChunkCoord },
}

impl TerrainUpdate {
    /// The chunk the update is about.
    pub open spec fn spec_chunk(&self) -> ChunkCoord {
        match self {
            TerrainUpdate::Snapshot { chunk, .. } => *chunk,
            TerrainUpdate::Edits { chunk, .. } => *chunk,
            TerrainUpdate::Unload { chunk } => *chunk,
        }
    }
}

} // verus!
