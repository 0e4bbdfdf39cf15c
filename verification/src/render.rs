//! What the terrain renderer draws: the tileset layer of every tile.
//!
//! The renderer draws each layer of a chunk as one tilemap; this module only
//! decides which tileset layer each tile shows, or that it shows nothing.

use vstd::prelude::*;

use crate::terrain::chunk::{ChunkTiles, lemma_layer_wf};
use crate::terrain::tile::{
    index_to_local, spec_index_to_local, ChunkCoord, TileCoord, TileKind, TileLayer, CHUNK_AREA,
};

verus! {

/// Layers of the tileset (`assets/tiles.png`), top to bottom.
pub struct TilesetIndex;

/// Floor.
pub const FLOOR: u16 = 0;

/// Floor, second look.
pub const FLOOR_ALT: u16 = 1;

/// Wall.
pub const WALL: u16 = 2;

/// Number of layers of the tileset.
pub const TILESET_COUNT: u32 = 3;

/// Hash of a position that picks the look of a floor tile.
pub open spec fn spec_floor_hash(coord: TileCoord) -> u32 {
    (((coord.x as u32) as int * 0x9E37_79B1) % 0x1_0000_0000) as u32 ^ (((coord.y as u32) as int
        * 0x85EB_CA77) % 0x1_0000_0000) as u32
}

/// Tileset layer shown for a tile, or `None` for an empty tile.
pub open spec fn spec_tileset_index(kind: TileKind, coord: TileCoord) -> Option<u16> {
    match kind {
        TileKind::Empty => None,
        TileKind::Wall => Some(WALL),
        TileKind::Floor => if spec_floor_hash(coord) >> 29u32 == 0 {
            Some(FLOOR_ALT)
        } else {
            Some(FLOOR)
        },
    }
}

impl TilesetIndex {
    /// Tileset layer shown for a tile, or `None` for an empty tile.
    ///
    /// The variant of floor is drawn from the position: purely visual, it
    /// does not exist for the simulation, and stays the same from one frame
    /// to the next.
    pub fn of(kind: TileKind, coord: TileCoord) -> (r: Option<u16>)
        ensures
            r == spec_tileset_index(kind, coord),
            r matches Some(i) ==> i < TILESET_COUNT,
    {
        match kind {
            TileKind::Empty => None,
            TileKind::Wall => Some(WALL),
            TileKind::Floor => {
                let hash = (coord.x as u32).wrapping_mul(0x9E37_79B1) ^ (coord.y as u32).wrapping_mul(
                    0x85EB_CA77,
                );
                if hash >> 29u32 == 0 {
                    Some(FLOOR_ALT)
                } else {
                    Some(FLOOR)
                }
            },
        }
    }
}

/// Every tile of the chunk lies inside the `i32` range.
pub open spec fn chunk_tiles_fit(coord: ChunkCoord) -> bool {
    i32::MIN <= coord.x * 32 && coord.x * 32 + 31 <= i32::MAX && i32::MIN <= coord.y * 32 && coord.y
        * 32 + 31 <= i32::MAX
}

/// Tileset layers of one layer of a chunk, in its row-major order; an
/// empty tile shows nothing.
pub fn tileset_indices(coord: ChunkCoord, tiles: &ChunkTiles, layer: TileLayer) -> (r: Vec<
    Option<u16>,
>)
    requires
        chunk_tiles_fit(coord),
    ensures
        r@.len() == CHUNK_AREA,
        forall|i: int|
            0 <= i < CHUNK_AREA ==> #[trigger] r@[i] == spec_tileset_index(
                tiles.spec_layer(layer)[i],
                coord.spec_tile(spec_index_to_local(i)),
            ),
{
    let source = tiles.layer(layer);
    proof {
        lemma_layer_wf(source);
    }
    let mut out: Vec<Option<u16>> = Vec::new();
    let mut i: usize = 0;
    while i < CHUNK_AREA
        invariant
            i <= CHUNK_AREA,
            chunk_tiles_fit(coord),
            source@ == tiles.spec_layer(layer),
            out@.len() == i,
            forall|j: int|
                0 <= j < i ==> #[trigger] out@[j] == spec_tileset_index(
                    tiles.spec_layer(layer)[j],
                    coord.spec_tile(spec_index_to_local(j)),
                ),
        decreases CHUNK_AREA - i,
    {
        let local = index_to_local(i);
        let tile = coord.tile(local);
        out.push(TilesetIndex::of(source.get(i), tile));
        i = i + 1;
    }
    out
}

} // verus!
