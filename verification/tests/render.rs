use theta::render::{tileset_indices, TilesetIndex, FLOOR, FLOOR_ALT, TILESET_COUNT, WALL};
use theta::terrain::chunk::ChunkTiles;
use theta::terrain::tile::{ChunkCoord, TileCoord, TileKind, TileLayer, CHUNK_AREA};

#[test]
fn tileset_index_depends_only_on_kind_and_position() {
    let coord = TileCoord::new(-12, 40);
    assert_eq!(TilesetIndex::of(TileKind::Empty, coord), None);
    assert_eq!(TilesetIndex::of(TileKind::Wall, coord), Some(WALL));
    let floor = TilesetIndex::of(TileKind::Floor, coord).unwrap();
    assert!([FLOOR, FLOOR_ALT].contains(&floor));
    assert_eq!(TilesetIndex::of(TileKind::Floor, coord), Some(floor));
    assert!(floor < TILESET_COUNT as u16);
}

#[test]
fn floor_look_follows_the_position_hash() {
    // The hash's three high bits are zero only for some positions.
    assert_eq!(TilesetIndex::of(TileKind::Floor, TileCoord::new(0, 0)), Some(FLOOR_ALT));
    assert_eq!(TilesetIndex::of(TileKind::Floor, TileCoord::new(0, 1)), Some(FLOOR));
    assert_eq!(TilesetIndex::of(TileKind::Floor, TileCoord::new(-12, 40)), Some(FLOOR));
}

#[test]
fn tile_data_covers_the_whole_chunk_and_skips_empty_tiles() {
    let mut tiles = ChunkTiles::default();
    tiles.set(TileLayer::Object, 5, TileKind::Wall);
    let chunk = ChunkCoord::new(0, 0);

    let ground = tileset_indices(chunk, &tiles, TileLayer::Ground);
    assert_eq!(ground.len(), CHUNK_AREA);
    assert!(ground.iter().all(Option::is_some));

    let mut holed = ChunkTiles::default();
    holed.set(TileLayer::Ground, 3, TileKind::Empty);
    let ground = tileset_indices(chunk, &holed, TileLayer::Ground);
    assert!(ground[3].is_none(), "un trou n'est pas dessiné");

    let object = tileset_indices(chunk, &tiles, TileLayer::Object);
    assert_eq!(object.len(), CHUNK_AREA);
    assert_eq!(object.iter().filter(|tile| tile.is_some()).count(), 1);
    assert!(object[5].is_some());
}
