//! Shape of a chunk's collider: one voxel per impassable tile.
//!
//! The chunk entity sits at the chunk's centre and a voxel `k` spans
//! `[k·s, (k+1)·s]`, so the local tile `(x, y)` is the voxel
//! `(x, y) - CHUNK_SIZE / 2`.

use vstd::prelude::*;

use super::chunk::{blocked_positions, lemma_blocked_positions_in_chunk, ChunkTiles};
use super::tile::{LocalPos, CHUNK_AREA, CHUNK_SIZE};

verus! {

/// Voxel of a local tile, relative to the chunk's centre.
pub open spec fn spec_voxel(local: LocalPos) -> (i32, i32) {
    ((local.x - CHUNK_SIZE / 2) as i32, (local.y - CHUNK_SIZE / 2) as i32)
}

/// Voxels of the chunk's impassable tiles, in index order; empty when no
/// tile is impassable, in which case the chunk has no collider.
pub fn chunk_voxels(tiles: &ChunkTiles) -> (r: Vec<(i32, i32)>)
    ensures
        r@ == blocked_positions(|i: int| tiles.spec_is_solid(i), CHUNK_AREA as int).map_values(
            |l: LocalPos| spec_voxel(l),
        ),
{
    let solid = tiles.solid_tiles();
    proof {
        lemma_blocked_positions_in_chunk(|i: int| tiles.spec_is_solid(i), CHUNK_AREA as int);
    }
    let half = (CHUNK_SIZE / 2) as i32;
    let mut voxels: Vec<(i32, i32)> = Vec::new();
    let mut i: usize = 0;
    while i < solid.len()
        invariant
            i <= solid@.len(),
            forall|j: int| 0 <= j < solid@.len() ==> (#[trigger] solid@[j]).in_chunk(),
            half == CHUNK_SIZE / 2,
            voxels@ == solid@.take(i as int).map_values(|l: LocalPos| spec_voxel(l)),
        decreases solid@.len() - i,
    {
        let local = solid[i];
        voxels.push((local.x as i32 - half, local.y as i32 - half));
        proof {
            assert(solid@.take(i + 1).map_values(|l: LocalPos| spec_voxel(l)) =~= solid@.take(
                i as int,
            ).map_values(|l: LocalPos| spec_voxel(l)).push(spec_voxel(local)));
        }
        i = i + 1;
    }
    proof {
        assert(solid@.take(solid@.len() as int) =~= solid@);
    }
    voxels
}

} // verus!
