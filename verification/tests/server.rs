use theta::server::subscriptions::{
    chunks_around, subscription_changes, ChunkSubscribers, ChunkSubscriptions,
    MAX_SNAPSHOTS_PER_TICK, SUBSCRIBE_RADIUS,
};
use theta::server::discovered::TickSubscriptions;
use theta::server::edits::TickEdits;
use theta::terrain::chunk::ChunkTiles;
use theta::terrain::tile::{ChunkCoord, TileCoord, TileKind, TileLayer};

fn length_squared(a: ChunkCoord, b: ChunkCoord) -> i32 {
    (a.x - b.x) * (a.x - b.x) + (a.y - b.y) * (a.y - b.y)
}

#[test]
fn chunks_around_starts_with_the_center() {
    let center = ChunkCoord::new(4, -2);
    let chunks = chunks_around(center, SUBSCRIBE_RADIUS);

    assert_eq!(chunks.len(), 9);
    assert_eq!(chunks[0], center);
    assert!(chunks
        .iter()
        .all(|chunk| chunk.distance(center) <= SUBSCRIBE_RADIUS));
    // Direct neighbours before the diagonals.
    assert!(chunks[1..5]
        .iter()
        .all(|chunk| length_squared(*chunk, center) == 1));
}

#[test]
fn chunks_around_keeps_column_order_among_equals() {
    let chunks = chunks_around(ChunkCoord::new(0, 0), 1);
    let expected = [
        (0, 0),
        (-1, 0),
        (0, -1),
        (0, 1),
        (1, 0),
        (-1, -1),
        (-1, 1),
        (1, -1),
        (1, 1),
    ];
    let got: Vec<(i32, i32)> = chunks.iter().map(|c| (c.x, c.y)).collect();
    assert_eq!(got, expected);
    assert_eq!(chunks_around(ChunkCoord::new(7, 7), 0), vec![ChunkCoord::new(7, 7)]);
    assert_eq!(chunks_around(ChunkCoord::new(0, 0), 2).len(), 25);
}

/// Applies the subscription changes until nothing moves, as a run of ticks
/// would, and returns what was sent then forgotten.
fn settle(
    subscribed: &mut ChunkSubscriptions,
    center: ChunkCoord,
) -> (Vec<ChunkCoord>, Vec<ChunkCoord>) {
    let (mut sent, mut forgotten) = (Vec::new(), Vec::new());
    loop {
        let (leaving, entering) = subscription_changes(subscribed, center);
        if leaving.is_empty() && entering.is_empty() {
            return (sent, forgotten);
        }
        for chunk in &leaving {
            subscribed.remove(*chunk);
        }
        for chunk in &entering {
            subscribed.insert(*chunk);
        }
        sent.extend(entering);
        forgotten.extend(leaving);
    }
}

#[test]
fn walking_subscribes_ahead_and_forgets_behind() {
    let mut subscribed = ChunkSubscriptions::new();

    // Arrival: the 9 chunks around the player, over several ticks.
    let (sent, _) = settle(&mut subscribed, ChunkCoord::new(0, 0));
    assert_eq!(sent.len(), 9);
    assert_eq!(sent[0], ChunkCoord::new(0, 0), "le chunk du joueur d'abord");
    assert_eq!(
        subscription_changes(&ChunkSubscriptions::new(), ChunkCoord::new(0, 0))
            .1
            .len(),
        MAX_SNAPSHOTS_PER_TICK
    );

    // One chunk east: 3 new ones, nothing forgotten (hysteresis).
    let (sent, forgotten) = settle(&mut subscribed, ChunkCoord::new(1, 0));
    assert_eq!(sent.len(), 3);
    assert!(sent.iter().all(|chunk| chunk.x == 2));
    assert!(forgotten.is_empty());

    // One more: the column x = -1 is now 3 chunks away, forgotten.
    let (sent, forgotten) = settle(&mut subscribed, ChunkCoord::new(2, 0));
    assert_eq!(sent.len(), 3);
    assert_eq!(forgotten.len(), 3);
    assert!(forgotten.iter().all(|chunk| chunk.x == -1));

    // Turning back one chunk: everything is still there, nothing moves.
    let (sent, forgotten) = settle(&mut subscribed, ChunkCoord::new(1, 0));
    assert!(sent.is_empty() && forgotten.is_empty());
}

#[test]
fn subscriptions_are_a_set_of_chunks() {
    let mut subscribed = ChunkSubscriptions::new();
    assert!(subscribed.insert(ChunkCoord::new(1, 2)));
    assert!(!subscribed.insert(ChunkCoord::new(1, 2)));
    assert!(subscribed.insert(ChunkCoord::new(-1, 2)));
    assert!(subscribed.contains(ChunkCoord::new(1, 2)));
    assert_eq!(subscribed.len(), 2);
    assert!(subscribed.remove(ChunkCoord::new(1, 2)));
    assert!(!subscribed.remove(ChunkCoord::new(1, 2)));
    let mut all = subscribed.take_all();
    all.sort_by_key(|c| (c.x, c.y));
    assert_eq!(all, vec![ChunkCoord::new(-1, 2)]);
    assert_eq!(subscribed.len(), 0);
}

#[test]
fn subscriber_count_never_goes_below_zero() {
    let mut count = ChunkSubscribers::default();
    count.subscribe();
    count.subscribe();
    count.unsubscribe();
    assert_eq!(count.0, 1);
    count.unsubscribe();
    count.unsubscribe();
    assert_eq!(count.0, 0);
}

#[test]
fn a_newcomer_gets_its_nine_chunks_over_three_ticks() {
    let center = ChunkCoord::new(-3, 8);
    let mut subscribed = ChunkSubscriptions::new();
    let mut sent_per_tick = Vec::new();
    for _ in 0..4 {
        let (leaving, entering) = subscription_changes(&subscribed, center);
        assert!(leaving.is_empty());
        for chunk in &entering {
            subscribed.insert(*chunk);
        }
        sent_per_tick.push(entering.len());
    }
    assert_eq!(sent_per_tick, vec![4, 4, 1, 0]);
    for chunk in chunks_around(center, SUBSCRIBE_RADIUS) {
        assert!(subscribed.contains(chunk));
    }
}

#[test]
fn a_far_subscription_is_forgotten_while_the_near_ones_arrive() {
    let center = ChunkCoord::new(0, 0);
    let mut subscribed = ChunkSubscriptions::new();
    subscribed.insert(ChunkCoord::new(5, 5));
    subscribed.insert(ChunkCoord::new(2, -2));
    let (leaving, entering) = subscription_changes(&subscribed, center);
    assert_eq!(leaving, vec![ChunkCoord::new(5, 5)]);
    assert_eq!(entering.len(), MAX_SNAPSHOTS_PER_TICK);
    assert_eq!(entering[0], center);
}

#[test]
fn edits_of_loaded_chunks_are_queued_only_when_they_changed_a_tile() {
    let tile = TileCoord::new(0, 0);
    let mut tick = TickEdits::new();
    tick.record_loaded(tile, TileKind::Floor, false);
    tick.record_loaded(tile, TileKind::Wall, true);
    let (sent, kept) = tick.into_parts();
    assert_eq!(sent, vec![(tile.chunk(), vec![(tile.local_index() as u16, TileKind::Wall)])]);
    assert!(kept.is_empty());
}

#[test]
fn an_unloaded_chunk_is_generated_once_and_kept_only_when_changed() {
    let changed_tile = TileCoord::new(10_000, 10_000);
    let same_tile = TileCoord::new(-5_000, 40);
    let mut tick = TickEdits::new();

    // The edit changes the generated tile: the chunk is kept.
    assert!(tick.needs_generation(changed_tile.chunk()));
    tick.record_unloaded(changed_tile, TileKind::Wall, Some(ChunkTiles::default()));
    assert!(!tick.needs_generation(changed_tile.chunk()));
    // A second edit of the same chunk reuses it.
    tick.record_unloaded(changed_tile, TileKind::Empty, None);

    // This edit leaves the generated tile as it was: the chunk is not kept.
    tick.record_unloaded(same_tile, TileKind::Empty, Some(ChunkTiles::default()));

    let kept = tick.into_kept();
    assert_eq!(kept.len(), 1);
    assert_eq!(kept[0].0, changed_tile.chunk());
    assert_eq!(kept[0].1.get(TileLayer::Object, changed_tile.local_index()), TileKind::Empty);
}

#[test]
fn a_chunk_is_forgotten_only_unobserved_and_unmodified() {
    let mut count = ChunkSubscribers::default();
    assert!(count.can_forget(false));
    assert!(!count.can_forget(true));
    count.subscribe();
    assert!(!count.can_forget(false));
    count.unsubscribe();
    assert!(count.can_forget(false));
}

#[test]
fn a_chunk_discovered_by_two_links_is_generated_once_with_two_subscribers() {
    let shared = ChunkCoord::new(7, -3);
    let alone = ChunkCoord::new(-40, 12);
    let mut tiles = ChunkTiles::default();
    tiles.set(TileLayer::Object, 3, TileKind::Wall);
    let mut tick = TickSubscriptions::new();

    assert!(tick.needs_generation(shared));
    assert_eq!(tick.subscribers(shared), 0);
    let first = tick.record_entering(shared, Some(tiles.clone()));
    assert!(!tick.needs_generation(shared));
    // The second link reuses the chunk generated for the first.
    let second = tick.record_entering(shared, None);
    assert_eq!(tick.subscribers(shared), 2);
    assert_eq!(first, second);
    assert_eq!(first.len(), 1024);
    assert_eq!(first[3], TileKind::Wall);
    assert_eq!(first[4], tiles.get(TileLayer::Object, 4));

    tick.record_entering(alone, Some(ChunkTiles::default()));
    assert_eq!(tick.subscribers(alone), 1);

    let mut generated = tick.into_generated();
    generated.sort_by_key(|entry| entry.2);
    assert_eq!(generated.len(), 2);
    assert_eq!(generated[0].0, alone);
    assert_eq!(generated[0].1, ChunkTiles::default());
    assert_eq!(generated[1].0, shared);
    assert_eq!(generated[1].1, tiles);
    assert_eq!(generated[1].2, 2);
}
