use bevy::platform::collections::HashMap;
use theta::client::terrain::{chunk_action, stage, stage_batch, ChunkAction, Staged};
use theta::protocol::terrain::TerrainUpdate;
use theta::terrain::chunk::ChunkLayer;
use theta::terrain::tile::{ChunkCoord, TileKind, CHUNK_AREA};

const CHUNK: ChunkCoord = ChunkCoord { x: 2, y: -1 };

fn snapshot(kind: TileKind) -> TerrainUpdate {
    TerrainUpdate::Snapshot {
        chunk: CHUNK,
        tiles: vec![kind; CHUNK_AREA],
    }
}

fn edits(edits: Vec<(u16, TileKind)>) -> TerrainUpdate {
    TerrainUpdate::Edits {
        chunk: CHUNK,
        edits,
    }
}

/// Folds a whole batch and returns the state reached for `CHUNK`.
fn fold(updates: Vec<TerrainUpdate>) -> Option<Staged> {
    let mut staged = HashMap::default();
    for update in updates {
        stage(&mut staged, update);
    }
    staged.remove(&CHUNK.key())
}

#[test]
fn edits_in_the_same_batch_modify_the_snapshot() {
    let mut expected = ChunkLayer::filled(TileKind::Floor);
    expected.set(7, TileKind::Wall);

    let state = fold(vec![
        snapshot(TileKind::Floor),
        edits(vec![(7, TileKind::Wall)]),
    ]);
    assert_eq!(state, Some(Staged::Loaded(expected)));
}

#[test]
fn snapshot_after_unload_reloads_the_chunk() {
    let state = fold(vec![
        TerrainUpdate::Unload { chunk: CHUNK },
        snapshot(TileKind::Wall),
    ]);
    assert_eq!(
        state,
        Some(Staged::Loaded(ChunkLayer::filled(TileKind::Wall)))
    );
}

#[test]
fn unload_discards_what_came_before() {
    let state = fold(vec![
        snapshot(TileKind::Floor),
        TerrainUpdate::Unload { chunk: CHUNK },
        edits(vec![(0, TileKind::Wall)]),
    ]);
    assert_eq!(state, Some(Staged::Unloaded));
}

#[test]
fn edits_without_snapshot_accumulate_for_the_world() {
    let state = fold(vec![
        edits(vec![(1, TileKind::Wall)]),
        edits(vec![(2, TileKind::Floor)]),
    ]);
    assert_eq!(
        state,
        Some(Staged::Edited(vec![
            (1, TileKind::Wall),
            (2, TileKind::Floor)
        ]))
    );
}

#[test]
fn out_of_range_edits_are_ignored() {
    let state = fold(vec![
        snapshot(TileKind::Floor),
        edits(vec![
            (CHUNK_AREA as u16, TileKind::Wall),
            (u16::MAX, TileKind::Wall),
        ]),
    ]);
    assert_eq!(
        state,
        Some(Staged::Loaded(ChunkLayer::filled(TileKind::Floor)))
    );
}

#[test]
fn snapshot_of_the_wrong_size_is_rejected() {
    let state = fold(vec![TerrainUpdate::Snapshot {
        chunk: CHUNK,
        tiles: vec![TileKind::Floor; 3],
    }]);
    assert_eq!(state, None);
}

#[test]
fn other_chunks_are_left_alone() {
    let mut staged = HashMap::default();
    stage(&mut staged, snapshot(TileKind::Wall));
    stage(&mut staged, TerrainUpdate::Unload { chunk: ChunkCoord::new(0, 0) });
    assert_eq!(staged.len(), 2);
    assert_eq!(
        staged.remove(&CHUNK.key()),
        Some(Staged::Loaded(ChunkLayer::filled(TileKind::Wall)))
    );
}

#[test]
fn folded_states_become_world_actions() {
    let layer = ChunkLayer::filled(TileKind::Wall);
    assert_eq!(
        chunk_action(Staged::Loaded(layer.clone()), true),
        ChunkAction::Replace(layer.clone())
    );
    assert_eq!(
        chunk_action(Staged::Loaded(layer.clone()), false),
        ChunkAction::Spawn(layer)
    );
    let edits = vec![(3usize, TileKind::Floor)];
    assert_eq!(
        chunk_action(Staged::Edited(edits.clone()), true),
        ChunkAction::Edit(edits.clone())
    );
    assert_eq!(
        chunk_action(Staged::Edited(edits), false),
        ChunkAction::UnknownChunk
    );
    assert_eq!(chunk_action(Staged::Unloaded, true), ChunkAction::Despawn);
    assert_eq!(chunk_action(Staged::Unloaded, false), ChunkAction::Nothing);
}

#[test]
fn a_batch_folds_from_nothing_in_order() {
    let batch = stage_batch(vec![
        snapshot(TileKind::Floor),
        edits(vec![(7, TileKind::Wall)]),
        TerrainUpdate::Unload { chunk: ChunkCoord { x: 9, y: 9 } },
    ]);
    let mut expected = ChunkLayer::filled(TileKind::Floor);
    expected.set(7, TileKind::Wall);
    assert_eq!(batch.len(), 2);
    assert_eq!(batch.get(&CHUNK.key()), Some(&Staged::Loaded(expected)));
    assert_eq!(batch.get(&ChunkCoord { x: 9, y: 9 }.key()), Some(&Staged::Unloaded));
    assert!(stage_batch(Vec::new()).is_empty());
}
