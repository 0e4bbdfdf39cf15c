use theta::terrain::chunk::{ChunkLayer, ChunkTiles};
use theta::terrain::collider::chunk_voxels;
use theta::terrain::index::TerrainIndex;
use theta::terrain::tile::{
    index_to_local, local_to_index, ChunkCoord, LocalPos, TileCoord, TileKind, TileLayer,
    CHUNK_AREA, CHUNK_SIZE,
};

#[test]
fn tile_to_chunk_handles_negative_coordinates() {
    let size = CHUNK_SIZE as i32;

    assert_eq!(TileCoord::new(0, size - 1).chunk(), ChunkCoord::new(0, 0));
    assert_eq!(TileCoord::new(-1, size).chunk(), ChunkCoord::new(-1, 1));
    assert_eq!(TileCoord::new(-1, 0).local(), LocalPos::new(CHUNK_SIZE - 1, 0));
}

#[test]
fn chunk_and_local_round_trip() {
    for coord in [
        TileCoord::new(5, -7),
        TileCoord::new(-33, 64),
        TileCoord::new(0, 0),
    ] {
        assert_eq!(coord.chunk().tile(coord.local()), coord);
        assert_eq!(index_to_local(coord.local_index()), coord.local());
    }
}

#[test]
fn chunk_distance_is_chebyshev() {
    let origin = ChunkCoord::new(0, 0);
    assert_eq!(origin.distance(ChunkCoord::new(1, 1)), 1);
    assert_eq!(origin.distance(ChunkCoord::new(-2, 1)), 2);
}

#[test]
fn row_major_order_goes_along_x_first() {
    assert_eq!(local_to_index(LocalPos::new(0, 0)), 0);
    assert_eq!(local_to_index(LocalPos::new(5, 0)), 5);
    assert_eq!(local_to_index(LocalPos::new(0, 1)), 32);
    assert_eq!(local_to_index(LocalPos::new(31, 31)), CHUNK_AREA - 1);
    assert_eq!(index_to_local(33), LocalPos::new(1, 1));
    assert_eq!(ChunkCoord::new(-2, 3).tile(LocalPos::new(31, 0)), TileCoord::new(-33, 96));
    assert_eq!(TileCoord::new(-33, 96).local_index(), 31);
}

#[test]
fn chunk_keys_tell_chunks_apart() {
    let chunks = [
        ChunkCoord::new(0, 0),
        ChunkCoord::new(1, 0),
        ChunkCoord::new(0, 1),
        ChunkCoord::new(-1, -1),
        ChunkCoord::new(i32::MIN, i32::MAX),
        ChunkCoord::new(i32::MAX, i32::MIN),
    ];
    for (i, a) in chunks.iter().enumerate() {
        assert_eq!(ChunkCoord::from_key(a.key()), *a);
        for b in &chunks[i + 1..] {
            assert_ne!(a.key(), b.key());
        }
    }
}

#[test]
fn solid_and_blocking_kinds() {
    assert!(TileKind::Wall.is_solid());
    assert!(!TileKind::Floor.is_solid());
    assert!(!TileKind::Empty.is_solid());
    assert!(TileLayer::Ground.blocks(TileKind::Empty));
    assert!(!TileLayer::Ground.blocks(TileKind::Floor));
    assert!(!TileLayer::Object.blocks(TileKind::Empty));
    assert!(TileLayer::Object.blocks(TileKind::Wall));
    assert_eq!(TileLayer::all(), [TileLayer::Ground, TileLayer::Object]);
}

/// Chunk whose object layer is irregular: walls on a slanted pattern.
fn scattered() -> ChunkTiles {
    ChunkTiles::from_fn(|layer, local| match layer {
        TileLayer::Ground => TileKind::Floor,
        TileLayer::Object if (local.x * 7 + local.y * 3) % 5 == 0 => TileKind::Wall,
        TileLayer::Object => TileKind::Empty,
    })
}

/// Layer whose only walls are the local column `x`.
fn wall_column(x: u32) -> ChunkLayer {
    ChunkLayer::from_fn(|local| {
        if local.x == x {
            TileKind::Wall
        } else {
            TileKind::Floor
        }
    })
}

#[test]
fn layers_are_independent() {
    let mut tiles = ChunkTiles::default();
    assert!(tiles.set(TileLayer::Object, 3, TileKind::Wall));
    assert!(!tiles.set(TileLayer::Object, 3, TileKind::Wall));

    assert_eq!(tiles.get(TileLayer::Object, 3), TileKind::Wall);
    assert_eq!(tiles.get(TileLayer::Ground, 3), TileKind::Floor);
    assert!(tiles.is_solid(3));
    assert!(!tiles.is_solid(4));
}

#[test]
fn a_hole_in_the_ground_blocks_the_way() {
    let mut tiles = ChunkTiles::default();
    tiles.set(TileLayer::Ground, 8, TileKind::Empty);

    assert!(tiles.is_solid(8));
    assert!(!tiles.is_solid(9));
    assert_eq!(tiles.solid_tiles().len(), 1);
}

#[test]
fn layer_mut_reaches_the_right_layer() {
    let mut tiles = ChunkTiles::default();
    tiles.layer_mut(TileLayer::Ground).set(0, TileKind::Wall);
    assert_eq!(tiles.layer(TileLayer::Ground).get(0), TileKind::Wall);
    assert_eq!(tiles.layer(TileLayer::Object).get(0), TileKind::Empty);
}

/// The serialized form of a chunk is its layers' runs, in layer order: the
/// runs are checked here, the serde encoding of them lives with the runtime.
#[test]
fn serialized_format_is_stable() {
    let mut tiles = ChunkTiles::default();
    tiles.set(TileLayer::Object, 0, TileKind::Wall);

    // Ground: 1 run (Floor, 1024). Objects: 2 runs (Wall, 1), (Empty, 1023).
    assert_eq!(tiles.layer(TileLayer::Ground).runs(), vec![(TileKind::Floor, 1024)]);
    assert_eq!(
        tiles.layer(TileLayer::Object).runs(),
        vec![(TileKind::Wall, 1), (TileKind::Empty, 1023)]
    );
}

/// What serialization writes, the runs of each layer, reads back to the
/// same layer.
#[test]
fn round_trips_through_serde() {
    for tiles in [ChunkTiles::default(), scattered()] {
        for layer in TileLayer::all() {
            let runs = tiles.layer(layer).runs();
            assert_eq!(ChunkLayer::from_runs(&runs).as_ref(), Some(tiles.layer(layer)));
        }
    }
}

/// The runs that the serialized form is made of are far fewer than the
/// tiles.
#[test]
fn run_length_encoding_shrinks_the_chunk() {
    let uniform = ChunkTiles::default();
    let busy = scattered();
    assert_eq!(uniform.layer(TileLayer::Object).runs().len(), 1);
    assert!(busy.layer(TileLayer::Object).runs().len() < CHUNK_AREA);
}

#[test]
fn incomplete_or_overflowing_layers_are_rejected() {
    let area = CHUNK_AREA as u16;

    for runs in [
        vec![(TileKind::Floor, area - 1)],
        vec![(TileKind::Floor, area), (TileKind::Wall, 1)],
        vec![(TileKind::Floor, 0), (TileKind::Floor, area)],
        vec![],
    ] {
        assert!(ChunkLayer::from_runs(&runs).is_none(), "{runs:?}");
    }
    assert_eq!(
        ChunkLayer::from_runs(&[(TileKind::Wall, area)]),
        Some(ChunkLayer::filled(TileKind::Wall))
    );
}

#[test]
fn runs_are_maximal() {
    let layer = wall_column(4);
    let runs = layer.runs();
    assert_eq!(runs[0], (TileKind::Floor, 4));
    assert_eq!(runs[1], (TileKind::Wall, 1));
    assert_eq!(runs[2], (TileKind::Floor, 31));
    for pair in runs.windows(2) {
        assert_ne!(pair[0].0, pair[1].0);
    }
    assert_eq!(runs.iter().map(|(_, n)| *n as usize).sum::<usize>(), CHUNK_AREA);
}

#[test]
fn empty_chunk_has_no_collider() {
    assert!(chunk_voxels(&ChunkTiles::default()).is_empty());
}

#[test]
fn voxels_are_the_solid_tiles_around_the_centre() {
    let mut tiles = ChunkTiles::default();
    tiles.set(TileLayer::Object, 0, TileKind::Wall);
    tiles.set(TileLayer::Ground, CHUNK_AREA - 1, TileKind::Empty);
    assert_eq!(chunk_voxels(&tiles), vec![(-16, -16), (15, 15)]);
}

#[test]
fn clearing_every_wall_removes_the_collider() {
    let mut tiles = ChunkTiles::default();
    *tiles.layer_mut(TileLayer::Object) = wall_column(0);
    assert_eq!(chunk_voxels(&tiles).len(), CHUNK_SIZE as usize);
    *tiles.layer_mut(TileLayer::Object) = ChunkLayer::filled(TileKind::Empty);
    assert!(chunk_voxels(&tiles).is_empty());
}

#[test]
fn chunk_tiles_round_trip_through_a_vec() {
    let tiles = wall_column(4);
    let copy = ChunkLayer::from_vec(tiles.as_slice().to_vec()).unwrap();
    assert_eq!(copy, tiles);
    assert!(ChunkLayer::from_vec(vec![TileKind::Floor; 3]).is_none());
}

#[test]
fn index_follows_spawn_and_despawn() {
    let mut index = TerrainIndex::new();
    let coord = ChunkCoord::new(3, -4);
    let entity = 17;

    assert_eq!(index.index(coord, entity), None);
    assert_eq!(index.get(coord), Some(entity));
    assert_eq!(index.len(), 1);

    assert!(index.unindex(coord, entity));
    assert!(!index.contains(coord));
    assert!(index.is_empty());
}

#[test]
fn replaced_chunk_stays_indexed_when_the_old_entity_goes() {
    let mut index = TerrainIndex::new();
    let coord = ChunkCoord::new(1, 1);
    let (old, new) = (5, 6);

    index.index(coord, old);
    assert_eq!(index.index(coord, new), Some(old));
    assert_eq!(index.get(coord), Some(new));

    assert!(!index.unindex(coord, old));
    assert_eq!(index.get(coord), Some(new));
}
