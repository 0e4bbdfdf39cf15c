//! Terrain on the client side: never generated here, only received.
//!
//! The server sends the chunks near the player ([`TerrainUpdate::Snapshot`]),
//! then their changes ([`TerrainUpdate::Edits`]), then the order to forget
//! them ([`TerrainUpdate::Unload`]). Within one batch of messages a chunk can
//! go through all three, while the creation of its entity is deferred: the
//! batch is first folded, chunk by chunk, into a [`Staged`] state by
//! [`stage`], which is then applied to the world.

use bevy::platform::collections::HashMap;
use vstd::prelude::*;

use crate::collections::{staged_map_entries, staged_map_insert, staged_map_new, staged_map_remove};
use crate::protocol::terrain::TerrainUpdate;
use crate::terrain::chunk::ChunkLayer;
use crate::terrain::tile::{spec_chunk_key, ChunkCoord, TileKind, CHUNK_AREA};

verus! {

/// State of a chunk through a batch of messages, before the world is
/// touched.
#[derive(Debug, Clone, PartialEq)]
pub enum Staged {
    /// Whole content received in the batch, later changes included.
    Loaded(ChunkLayer),
    /// Changes to a chunk already in the world, to apply to it.
    Edited(Vec<(usize, TileKind)>),
    /// The chunk must be forgotten.
    Unloaded,
}

/// A [`Staged`] state, as plain values.
pub enum StagedView {
    Loaded(Seq<TileKind>),
    Edited(Seq<(usize, TileKind)>),
    Unloaded,
}

impl View for Staged {
    type V = StagedView;

    open spec fn view(&self) -> StagedView {
        match self {
            Staged::Loaded(tiles) => StagedView::Loaded(tiles@),
            Staged::Edited(edits) => StagedView::Edited(edits@),
            Staged::Unloaded => StagedView::Unloaded,
        }
    }
}

/// The changes whose index lies inside a chunk, in order; the others are
/// dropped.
pub open spec fn in_chunk_edits(edits: Seq<(u16, TileKind)>) -> Seq<(usize, TileKind)>
    decreases edits.len(),
{
    if edits.len() == 0 {
        Seq::empty()
    } else {
        let front = in_chunk_edits(edits.drop_last());
        let (index, kind) = edits.last();
        if (index as int) < CHUNK_AREA {
            front.push((index as usize, kind))
        } else {
            front
        }
    }
}

/// Tiles after applying changes, in order.
pub open spec fn apply_edits(tiles: Seq<TileKind>, edits: Seq<(usize, TileKind)>) -> Seq<
    TileKind,
>
    decreases edits.len(),
{
    if edits.len() == 0 {
        tiles
    } else {
        let (index, kind) = edits.last();
        apply_edits(tiles, edits.drop_last()).update(index as int, kind)
    }
}

/// Does a change lie inside a chunk?
pub open spec fn lies_in_chunk(edit: (u16, TileKind)) -> bool {
    (edit.0 as int) < CHUNK_AREA
}

/// The changes kept from a message are exactly those whose index lies
/// inside the chunk, whatever their kind, in the order they came, each
/// unchanged but for its index's type: the message's changes, filtered and
/// mapped as `Seq::filter_map` does. So every change inside the chunk is
/// kept, as many are kept as lie inside, and nothing outside is.
pub proof fn lemma_in_chunk_edits_keep_every_edit_inside(edits: Seq<(u16, TileKind)>)
    ensures
        in_chunk_edits(edits) == edits.filter_map(
            |e: (u16, TileKind)|
                if (e.0 as int) < CHUNK_AREA {
                    Some((e.0 as usize, e.1))
                } else {
                    None
                },
        ),
        in_chunk_edits(edits).len() == edits.filter(|e: (u16, TileKind)| lies_in_chunk(e)).len(),
        forall|j: int|
            0 <= j < edits.len() && lies_in_chunk(#[trigger] edits[j]) ==> in_chunk_edits(
                edits,
            ).contains((edits[j].0 as usize, edits[j].1)),
        forall|k: int|
            0 <= k < in_chunk_edits(edits).len() ==> (#[trigger] in_chunk_edits(edits)[k]).0
                < CHUNK_AREA && edits.contains(
                (in_chunk_edits(edits)[k].0 as u16, in_chunk_edits(edits)[k].1),
            ),
    decreases edits.len(),
{
    let f = |e: (u16, TileKind)|
        if (e.0 as int) < CHUNK_AREA {
            Some((e.0 as usize, e.1))
        } else {
            None
        };
    let p = |e: (u16, TileKind)| lies_in_chunk(e);
    reveal(Seq::filter);
    if edits.len() > 0 {
        let front = edits.drop_last();
        let last = edits.last();
        lemma_in_chunk_edits_keep_every_edit_inside(front);
        let kept = in_chunk_edits(edits);
        let kept_front = in_chunk_edits(front);
        assert(edits.filter(p) == if p(last) {
            front.filter(p).push(last)
        } else {
            front.filter(p)
        });
        if lies_in_chunk(last) {
            assert(kept == kept_front.push((last.0 as usize, last.1)));
            assert(kept_front + seq![(last.0 as usize, last.1)] =~= kept_front.push(
                (last.0 as usize, last.1),
            ));
        } else {
            assert(kept == kept_front);
        }
        assert(edits.filter_map(f) == kept);
        assert forall|j: int|
            0 <= j < edits.len() && lies_in_chunk(#[trigger] edits[j]) implies kept.contains(
            (edits[j].0 as usize, edits[j].1),
        ) by {
            if j < front.len() {
                assert(front[j] == edits[j]);
                let k = choose|k: int|
                    0 <= k < kept_front.len() && kept_front[k] == (front[j].0 as usize, front[j].1);
                assert(kept[k] == kept_front[k]);
            } else {
                assert(edits[j] == last);
                assert(kept[kept.len() - 1] == (last.0 as usize, last.1));
            }
        }
        assert forall|k: int| 0 <= k < kept.len() implies (#[trigger] kept[k]).0 < CHUNK_AREA
            && edits.contains((kept[k].0 as u16, kept[k].1)) by {
            if k < kept_front.len() {
                assert(kept[k] == kept_front[k]);
                let j = choose|j: int|
                    0 <= j < front.len() && front[j] == (kept_front[k].0 as u16, kept_front[k].1);
                assert(edits[j] == front[j]);
            } else {
                assert(kept[k] == (last.0 as usize, last.1));
                assert(edits[edits.len() - 1] == last);
            }
        }
    } else {
        assert(edits.filter_map(f) =~= in_chunk_edits(edits));
    }
}

/// Applying changes to a chunk's content sets each changed position to the
/// kind of the last change made there, and leaves every other position as
/// it was; the content keeps its size.
pub proof fn lemma_apply_edits_last_change_wins(tiles: Seq<TileKind>, edits: Seq<(usize, TileKind)>)
    requires
        forall|j: int| 0 <= j < edits.len() ==> (#[trigger] edits[j]).0 < tiles.len(),
    ensures
        apply_edits(tiles, edits).len() == tiles.len(),
        forall|p: int|
            0 <= p < tiles.len() && (forall|j: int| 0 <= j < edits.len() ==> (#[trigger] edits[j]).0 != p)
                ==> #[trigger] apply_edits(tiles, edits)[p] == tiles[p],
        forall|i: int|
            0 <= i < edits.len() && (forall|j: int| i < j < edits.len() ==> (#[trigger] edits[j]).0 != edits[i].0)
                ==> apply_edits(tiles, edits)[(#[trigger] edits[i]).0 as int] == edits[i].1,
    decreases edits.len(),
{
    if edits.len() > 0 {
        let front = edits.drop_last();
        let (x, kind) = edits.last();
        assert forall|j: int| 0 <= j < front.len() implies (#[trigger] front[j]).0 < tiles.len() by {
            assert(front[j] == edits[j]);
        }
        lemma_apply_edits_last_change_wins(tiles, front);
        let before = apply_edits(tiles, front);
        let after = apply_edits(tiles, edits);
        assert(after == before.update(x as int, kind));
        assert(edits[edits.len() - 1] == (x, kind));
        assert forall|p: int|
            0 <= p < tiles.len() && (forall|j: int| 0 <= j < edits.len() ==> (#[trigger] edits[j]).0 != p)
                implies #[trigger] after[p] == tiles[p] by {
            assert(edits[edits.len() - 1].0 != p);
            assert forall|j: int| 0 <= j < front.len() implies (#[trigger] front[j]).0 != p by {
                assert(front[j] == edits[j]);
            }
        }
        assert forall|i: int|
            0 <= i < edits.len() && (forall|j: int| i < j < edits.len() ==> (#[trigger] edits[j]).0 != edits[i].0)
                implies after[(#[trigger] edits[i]).0 as int] == edits[i].1 by {
            if i < edits.len() - 1 {
                assert(edits[edits.len() - 1].0 != edits[i].0);
                assert(front[i] == edits[i]);
                assert forall|j: int| i < j < front.len() implies (#[trigger] front[j]).0 != front[i].0 by {
                    assert(front[j] == edits[j]);
                }
            }
        }
    }
}

/// The state of a chunk after one more message about it.
///
/// A whole content or an unload replaces whatever came before; a snapshot
/// of the wrong size is dropped. Changes apply to a content received in the
/// batch, add up with earlier changes, start a list of changes when nothing
/// came before, and are dropped after an unload.
pub open spec fn spec_stage(prev: Option<StagedView>, update: TerrainUpdate) -> Option<StagedView> {
    match update {
        TerrainUpdate::Snapshot { tiles, .. } => if tiles@.len() == CHUNK_AREA {
            Some(StagedView::Loaded(tiles@))
        } else {
            prev
        },
        TerrainUpdate::Edits { edits, .. } => {
            let kept = in_chunk_edits(edits@);
            match prev {
                None => Some(StagedView::Edited(kept)),
                Some(StagedView::Loaded(tiles)) => Some(StagedView::Loaded(apply_edits(tiles, kept))),
                Some(StagedView::Edited(pending)) => Some(StagedView::Edited(pending + kept)),
                Some(StagedView::Unloaded) => Some(StagedView::Unloaded),
            }
        },
        TerrainUpdate::Unload { .. } => Some(StagedView::Unloaded),
    }
}

/// Keeping the changes inside the chunk splits over a concatenation.
proof fn lemma_in_chunk_edits_concat(a: Seq<(u16, TileKind)>, b: Seq<(u16, TileKind)>)
    ensures
        in_chunk_edits(a + b) == in_chunk_edits(a) + in_chunk_edits(b),
    decreases b.len(),
{
    if b.len() == 0 {
        assert(a + b =~= a);
        assert(in_chunk_edits(a) + in_chunk_edits(b) =~= in_chunk_edits(a));
    } else {
        lemma_in_chunk_edits_concat(a, b.drop_last());
        assert((a + b).drop_last() =~= a + b.drop_last());
        assert((a + b).last() == b.last());
        let (index, kind) = b.last();
        if (index as int) < CHUNK_AREA {
            assert(in_chunk_edits(a) + in_chunk_edits(b) =~= (in_chunk_edits(a) + in_chunk_edits(
                b.drop_last(),
            )).push((index as usize, kind)));
        }
    }
}

/// Applying two lists of changes one after the other is applying them
/// joined.
proof fn lemma_apply_edits_concat(
    tiles: Seq<TileKind>,
    a: Seq<(usize, TileKind)>,
    b: Seq<(usize, TileKind)>,
)
    ensures
        apply_edits(tiles, a + b) == apply_edits(apply_edits(tiles, a), b),
    decreases b.len(),
{
    if b.len() == 0 {
        assert(a + b =~= a);
    } else {
        lemma_apply_edits_concat(tiles, a, b.drop_last());
        assert((a + b).drop_last() =~= a + b.drop_last());
        assert((a + b).last() == b.last());
    }
}

/// Two messages of changes to a chunk in a row stage exactly as one
/// message holding both lists of changes, in order, whatever the chunk's
/// state before them.
pub proof fn lemma_edit_messages_compose(
    prev: Option<StagedView>,
    chunk: ChunkCoord,
    first: Vec<(u16, TileKind)>,
    second: Vec<(u16, TileKind)>,
    both: Vec<(u16, TileKind)>,
)
    requires
        both@ == first@ + second@,
    ensures
        spec_stage(
            spec_stage(prev, (TerrainUpdate::Edits { chunk, edits: first })),
            (TerrainUpdate::Edits { chunk, edits: second }),
        ) == spec_stage(prev, (TerrainUpdate::Edits { chunk, edits: both })),
{
    let k1 = in_chunk_edits(first@);
    let k2 = in_chunk_edits(second@);
    lemma_in_chunk_edits_concat(first@, second@);
    match prev {
        Some(StagedView::Loaded(tiles)) => {
            lemma_apply_edits_concat(tiles, k1, k2);
        },
        Some(StagedView::Edited(pending)) => {
            assert(pending + k1 + k2 =~= pending + (k1 + k2));
        },
        _ => {},
    }
}

/// A whole content of the right size, or an unload, leaves the chunk in the
/// same state whatever came before it in the batch; and once a chunk is to
/// be forgotten, changes to it leave it so.
pub proof fn lemma_snapshot_and_unload_forget_the_past(
    before: Option<StagedView>,
    other: Option<StagedView>,
    update: TerrainUpdate,
)
    ensures
        (update is Unload || (update matches TerrainUpdate::Snapshot { tiles, .. } && tiles@.len()
            == CHUNK_AREA)) ==> spec_stage(before, update) == spec_stage(other, update),
        update is Edits ==> spec_stage(Some(StagedView::Unloaded), update) == Some(
            StagedView::Unloaded,
        ),
{
}

/// The views of every staged chunk.
pub open spec fn staged_views(m: Map<u64, Staged>) -> Map<u64, StagedView> {
    m.map_values(|s: Staged| s@)
}

/// The changes of a message whose index lies inside a chunk.
fn keep_in_chunk(edits: &Vec<(u16, TileKind)>) -> (r: Vec<(usize, TileKind)>)
    ensures
        r@ == in_chunk_edits(edits@),
        forall|i: int| 0 <= i < r@.len() ==> (#[trigger] r@[i]).0 < CHUNK_AREA,
{
    let mut kept: Vec<(usize, TileKind)> = Vec::new();
    let mut i: usize = 0;
    while i < edits.len()
        invariant
            i <= edits@.len(),
            kept@ == in_chunk_edits(edits@.take(i as int)),
            forall|j: int| 0 <= j < kept@.len() ==> (#[trigger] kept@[j]).0 < CHUNK_AREA,
        decreases edits@.len() - i,
    {
        let (index, kind) = edits[i];
        proof {
            assert(edits@.take(i + 1).drop_last() =~= edits@.take(i as int));
            assert(edits@.take(i + 1).last() == (index, kind));
        }
        if (index as usize) < CHUNK_AREA {
            kept.push((index as usize, kind));
        }
        i = i + 1;
    }
    proof {
        assert(edits@.take(edits@.len() as int) =~= edits@);
    }
    kept
}

/// Applies changes, in order, to a chunk's content.
fn apply_to_layer(layer: &mut ChunkLayer, edits: &Vec<(usize, TileKind)>)
    requires
        forall|i: int| 0 <= i < edits@.len() ==> (#[trigger] edits@[i]).0 < CHUNK_AREA,
    ensures
        final(layer)@ == apply_edits(old(layer)@, edits@),
{
    let mut i: usize = 0;
    while i < edits.len()
        invariant
            i <= edits@.len(),
            forall|j: int| 0 <= j < edits@.len() ==> (#[trigger] edits@[j]).0 < CHUNK_AREA,
            layer@ == apply_edits(old(layer)@, edits@.take(i as int)),
        decreases edits@.len() - i,
    {
        let (index, kind) = edits[i];
        proof {
            assert(edits@.take(i + 1).drop_last() =~= edits@.take(i as int));
            assert(edits@.take(i + 1).last() == (index, kind));
        }
        layer.set(index, kind);
        i = i + 1;
    }
    proof {
        assert(edits@.take(edits@.len() as int) =~= edits@);
    }
}

/// Folds one message into the state of the batch being received.
///
/// Only the entry of the message's chunk changes, as [`spec_stage`] says;
/// a snapshot of the wrong size leaves the batch as it was.
pub fn stage(staged: &mut HashMap<u64, Staged>, update: TerrainUpdate)
    ensures
        ({
            let key = spec_chunk_key(update.spec_chunk());
            let before = staged_views(staged_map_entries(*old(staged)));
            let prev = if before.contains_key(key) {
                Some(before[key])
            } else {
                None
            };
            staged_views(staged_map_entries(*final(staged))) == match spec_stage(prev, update) {
                Some(next) => before.insert(key, next),
                None => before,
            }
        }),
{
    let ghost before = staged_views(staged_map_entries(*staged));
    match update {
        TerrainUpdate::Snapshot { chunk, tiles } => {
            match ChunkLayer::from_vec(tiles) {
                Some(layer) => {
                    staged_map_insert(staged, chunk.key(), Staged::Loaded(layer));
                    proof {
                        assert(staged_views(staged_map_entries(*staged)) =~= before.insert(
                            spec_chunk_key(chunk),
                            StagedView::Loaded(tiles@),
                        ));
                    }
                },
                None => {},
            }
        },
        TerrainUpdate::Edits { chunk, edits } => {
            let kept = keep_in_chunk(&edits);
            let key = chunk.key();
            let next = match staged_map_remove(staged, key) {
                None => Staged::Edited(kept),
                Some(Staged::Loaded(mut layer)) => {
                    apply_to_layer(&mut layer, &kept);
                    Staged::Loaded(layer)
                },
                Some(Staged::Edited(mut pending)) => {
                    let mut more = kept;
                    pending.append(&mut more);
                    Staged::Edited(pending)
                },
                Some(Staged::Unloaded) => Staged::Unloaded,
            };
            staged_map_insert(staged, key, next);
            proof {
                let prev = if before.contains_key(key) {
                    Some(before[key])
                } else {
                    None
                };
                assert(spec_stage(prev, update) == Some(next@));
                assert(staged_views(staged_map_entries(*staged)) =~= before.insert(key, next@));
            }
        },
        TerrainUpdate::Unload { chunk } => {
            staged_map_insert(staged, chunk.key(), Staged::Unloaded);
            proof {
                assert(staged_views(staged_map_entries(*staged)) =~= before.insert(
                    spec_chunk_key(chunk),
                    StagedView::Unloaded,
                ));
            }
        },
    }
}

/// The batch after one more message: only the entry of the message's chunk
/// changes, as [`spec_stage`] says.
pub open spec fn spec_stage_batch(before: Map<u64, StagedView>, update: TerrainUpdate) -> Map<
    u64,
    StagedView,
> {
    let key = spec_chunk_key(update.spec_chunk());
    let prev = if before.contains_key(key) {
        Some(before[key])
    } else {
        None
    };
    match spec_stage(prev, update) {
        Some(next) => before.insert(key, next),
        None => before,
    }
}

/// The batch that a run of messages folds into, from nothing, in order.
pub open spec fn spec_fold(updates: Seq<TerrainUpdate>) -> Map<u64, StagedView>
    decreases updates.len(),
{
    if updates.len() == 0 {
        Map::empty()
    } else {
        spec_stage_batch(spec_fold(updates.drop_last()), updates.last())
    }
}

/// Folds a batch of messages, in order, from an empty batch.
pub fn stage_batch(updates: Vec<TerrainUpdate>) -> (r: HashMap<u64, Staged>)
    ensures
        staged_views(staged_map_entries(r)) == spec_fold(updates@),
{
    let ghost whole = updates@;
    let mut rest = updates;
    let mut staged = staged_map_new();
    proof {
        assert(staged_views(staged_map_entries(staged)) =~= spec_fold(whole.take(0)));
        assert(whole.skip(0) =~= whole);
    }
    while rest.len() > 0
        invariant
            rest@.len() <= whole.len(),
            rest@ == whole.skip(whole.len() - rest@.len()),
            staged_views(staged_map_entries(staged)) == spec_fold(
                whole.take(whole.len() - rest@.len()),
            ),
        decreases rest@.len(),
    {
        let ghost k = whole.len() - rest@.len();
        let update = rest.remove(0);
        proof {
            assert(update == whole[k]);
            assert(rest@ =~= whole.skip(k + 1));
            assert(whole.take(k + 1).drop_last() =~= whole.take(k));
            assert(whole.take(k + 1).last() == whole[k]);
        }
        stage(&mut staged, update);
    }
    proof {
        assert(whole.take(whole.len() as int) =~= whole);
    }
    staged
}

/// What the world must do with a chunk once its batch is folded.
#[derive(Debug, Clone, PartialEq)]
pub enum ChunkAction {
    /// Replace the content of the chunk the world has.
    Replace(ChunkLayer),
    /// Create the chunk, with this content.
    Spawn(ChunkLayer),
    /// Apply these changes, in order, to the chunk the world has.
    Edit(Vec<(usize, TileKind)>),
    /// Remove the chunk from the world.
    Despawn,
    /// Changes came for a chunk the world does not have: an ordered channel
    /// never does this, since a content always comes before its changes.
    UnknownChunk,
    /// Nothing to do: the chunk to forget is not in the world.
    Nothing,
}

/// The action that applies a folded state to the world, where `loaded`
/// tells whether the world has the chunk.
pub fn chunk_action(state: Staged, loaded: bool) -> (r: ChunkAction)
    ensures
        match state {
            Staged::Loaded(tiles) => r == if loaded {
                ChunkAction::Replace(tiles)
            } else {
                ChunkAction::Spawn(tiles)
            },
            Staged::Edited(edits) => if loaded {
                r matches ChunkAction::Edit(e) && e@ == edits@
            } else {
                r == ChunkAction::UnknownChunk
            },
            Staged::Unloaded => r == if loaded {
                ChunkAction::Despawn
            } else {
                ChunkAction::Nothing
            },
        },
{
    match state {
        Staged::Loaded(tiles) => if loaded {
            ChunkAction::Replace(tiles)
        } else {
            ChunkAction::Spawn(tiles)
        },
        Staged::Edited(edits) => if loaded {
            ChunkAction::Edit(edits)
        } else {
            ChunkAction::UnknownChunk
        },
        Staged::Unloaded => if loaded {
            ChunkAction::Despawn
        } else {
            ChunkAction::Nothing
        },
    }
}

} // verus!
