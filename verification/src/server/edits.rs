//! The tile edits of one tick, on the server.
//!
//! Gameplay asks for tile edits; only the server applies them. An edit of a
//! chunk in memory is sent to the chunk's subscribers only when it changed
//! the tile. An edit of a chunk that is not in memory generates the chunk
//! first, once per tick however many edits it gets; nobody is subscribed to
//! it, so there is nothing to send, but when an edit changed it the chunk
//! differs from what the seed gives and must be kept.
//!
//! Edits change the object layer, where walls stand.

use bevy::platform::collections::HashMap;
use vstd::prelude::*;

use crate::collections::{
    pending_map_entries, pending_map_insert, pending_map_into_vec, pending_map_new,
    pending_map_remove, unloaded_map_contains, unloaded_map_entries, unloaded_map_insert,
    unloaded_map_into_vec, unloaded_map_new, unloaded_map_remove,
};
use crate::terrain::chunk::{lemma_tiles_wf, ChunkTiles};
use crate::terrain::tile::{
    lemma_chunk_key_bijection, spec_chunk_key, spec_local_to_index, ChunkCoord,
    TileCoord, TileKind, TileLayer,
};

verus! {

/// The edits of a chunk so far, none when it has no entry.
pub open spec fn edits_at(pending: Map<u64, Seq<(u16, TileKind)>>, key: u64) -> Seq<
    (u16, TileKind),
> {
    if pending.contains_key(key) {
        pending[key]
    } else {
        Seq::empty()
    }
}

/// Key of the chunk that holds a tile.
pub open spec fn tile_chunk_key(coord: TileCoord) -> u64 {
    spec_chunk_key(coord.spec_chunk())
}

/// Index of a tile in its chunk.
pub open spec fn tile_index(coord: TileCoord) -> int {
    spec_local_to_index(coord.spec_local())
}

/// A chunk's layers and flag after an edit of its object layer: the flag
/// records whether some edit changed a tile.
pub open spec fn after_edit(
    chunk: ((Seq<TileKind>, Seq<TileKind>), bool),
    index: int,
    kind: TileKind,
) -> ((Seq<TileKind>, Seq<TileKind>), bool) {
    (
        (chunk.0.0, chunk.0.1.update(index, kind)),
        chunk.1 || chunk.0.1[index] != kind,
    )
}

/// The queue after one more edit of a chunk in memory: the edit is queued
/// under its chunk's key only when it changed the tile.
pub open spec fn loaded_step(
    pending: Map<u64, Seq<(u16, TileKind)>>,
    edit: (TileCoord, TileKind, bool),
) -> Map<u64, Seq<(u16, TileKind)>> {
    if edit.2 {
        pending.insert(
            tile_chunk_key(edit.0),
            edits_at(pending, tile_chunk_key(edit.0)).push((tile_index(edit.0) as u16, edit.1)),
        )
    } else {
        pending
    }
}

/// The queue after a tick's edits of chunks in memory, each with whether
/// it changed its tile, in order, from nothing.
pub open spec fn loaded_fold(edits: Seq<(TileCoord, TileKind, bool)>) -> Map<
    u64,
    Seq<(u16, TileKind)>,
>
    decreases edits.len(),
{
    if edits.len() == 0 {
        Map::empty()
    } else {
        loaded_step(loaded_fold(edits.drop_last()), edits.last())
    }
}

/// The edits among these that changed a tile of the chunk with this key,
/// in order, each as its index in the chunk and its kind.
pub open spec fn changed_edits(edits: Seq<(TileCoord, TileKind, bool)>, key: u64) -> Seq<
    (u16, TileKind),
>
    decreases edits.len(),
{
    if edits.len() == 0 {
        Seq::empty()
    } else {
        let e = edits.last();
        let front = changed_edits(edits.drop_last(), key);
        if e.2 && tile_chunk_key(e.0) == key {
            front.push((tile_index(e.0) as u16, e.1))
        } else {
            front
        }
    }
}

/// Over a whole tick, a chunk in memory gets exactly the edits that changed
/// one of its tiles queued for its subscribers, in the order they were
/// made; a chunk that no edit changed gets no entry at all.
pub proof fn lemma_tick_queues_changed_edits(edits: Seq<(TileCoord, TileKind, bool)>, key: u64)
    ensures
        edits_at(loaded_fold(edits), key) == changed_edits(edits, key),
        loaded_fold(edits).contains_key(key) <==> changed_edits(edits, key).len() > 0,
    decreases edits.len(),
{
    if edits.len() > 0 {
        lemma_tick_queues_changed_edits(edits.drop_last(), key);
    }
}

/// The chunks not in memory after one more edit: the chunk is generated, as
/// `generated` gives it for its key, the first time an edit touches it.
pub open spec fn unloaded_step(
    chunks: Map<u64, ((Seq<TileKind>, Seq<TileKind>), bool)>,
    edit: (TileCoord, TileKind),
    generated: spec_fn(u64) -> (Seq<TileKind>, Seq<TileKind>),
) -> Map<u64, ((Seq<TileKind>, Seq<TileKind>), bool)> {
    let key = tile_chunk_key(edit.0);
    chunks.insert(
        key,
        after_edit(
            if chunks.contains_key(key) {
                chunks[key]
            } else {
                (generated(key), false)
            },
            tile_index(edit.0),
            edit.1,
        ),
    )
}

/// The chunks not in memory after a tick's edits of them, in order, from
/// nothing.
pub open spec fn unloaded_fold(
    edits: Seq<(TileCoord, TileKind)>,
    generated: spec_fn(u64) -> (Seq<TileKind>, Seq<TileKind>),
) -> Map<u64, ((Seq<TileKind>, Seq<TileKind>), bool)>
    decreases edits.len(),
{
    if edits.len() == 0 {
        Map::empty()
    } else {
        unloaded_step(unloaded_fold(edits.drop_last(), generated), edits.last(), generated)
    }
}

/// The object layer of a chunk after the edits of it among these, applied
/// in order to `base`.
pub open spec fn objects_after(edits: Seq<(TileCoord, TileKind)>, key: u64, base: Seq<TileKind>) -> Seq<
    TileKind,
>
    decreases edits.len(),
{
    if edits.len() == 0 {
        base
    } else {
        let e = edits.last();
        let front = objects_after(edits.drop_last(), key, base);
        if tile_chunk_key(e.0) == key {
            front.update(tile_index(e.0), e.1)
        } else {
            front
        }
    }
}

/// Did some edit of the chunk among these, applied in order to `base`,
/// change the tile it was made on?
pub open spec fn some_edit_changed(edits: Seq<(TileCoord, TileKind)>, key: u64, base: Seq<TileKind>) -> bool
    decreases edits.len(),
{
    if edits.len() == 0 {
        false
    } else {
        let e = edits.last();
        some_edit_changed(edits.drop_last(), key, base) || (tile_chunk_key(e.0) == key && objects_after(
            edits.drop_last(),
            key,
            base,
        )[tile_index(e.0)] != e.1)
    }
}

/// Over a whole tick, a chunk not in memory is touched exactly when some
/// edit is of it; it is generated once, its ground stays as generated, its
/// object layer is the generated one with its edits applied in order, and
/// it is kept exactly when one of them changed the tile it was made on.
pub proof fn lemma_tick_keeps_changed_chunks(
    edits: Seq<(TileCoord, TileKind)>,
    generated: spec_fn(u64) -> (Seq<TileKind>, Seq<TileKind>),
    key: u64,
)
    ensures
        unloaded_fold(edits, generated).contains_key(key) <==> exists|i: int|
            0 <= i < edits.len() && tile_chunk_key(#[trigger] edits[i].0) == key,
        unloaded_fold(edits, generated).contains_key(key) ==> unloaded_fold(edits, generated)[key]
            == ((generated(key).0, objects_after(edits, key, generated(key).1)), some_edit_changed(
            edits,
            key,
            generated(key).1,
        )),
    decreases edits.len(),
{
    if edits.len() > 0 {
        let front = edits.drop_last();
        lemma_tick_keeps_changed_chunks(front, generated, key);
        let e = edits.last();
        if tile_chunk_key(e.0) == key {
            assert(edits[edits.len() - 1] == e);
            if !unloaded_fold(front, generated).contains_key(key) {
                // The first edit of the chunk: nothing before touched it.
                assert forall|i: int| 0 <= i < front.len() implies tile_chunk_key(
                    #[trigger] front[i].0,
                ) != key by {
                    assert(front[i] == edits[i]);
                }
                lemma_untouched(front, key, generated(key).1);
            }
        } else {
            assert forall|i: int|
                0 <= i < edits.len() && tile_chunk_key(#[trigger] edits[i].0) == key implies i
                < front.len() by {
                if i == edits.len() - 1 {
                    assert(edits[i] == e);
                }
            }
            if exists|i: int| 0 <= i < edits.len() && tile_chunk_key(#[trigger] edits[i].0) == key {
                let i = choose|i: int| 0 <= i < edits.len() && tile_chunk_key(#[trigger] edits[i].0) == key;
                assert(front[i] == edits[i]);
            }
        }
        if exists|i: int| 0 <= i < front.len() && tile_chunk_key(#[trigger] front[i].0) == key {
            let i = choose|i: int| 0 <= i < front.len() && tile_chunk_key(#[trigger] front[i].0) == key;
            assert(edits[i] == front[i]);
        }
    }
}

/// Edits of other chunks leave a chunk's object layer and flag as they were.
proof fn lemma_untouched(edits: Seq<(TileCoord, TileKind)>, key: u64, base: Seq<TileKind>)
    requires
        forall|i: int| 0 <= i < edits.len() ==> tile_chunk_key(#[trigger] edits[i].0) != key,
    ensures
        objects_after(edits, key, base) == base,
        !some_edit_changed(edits, key, base),
    decreases edits.len(),
{
    if edits.len() > 0 {
        let front = edits.drop_last();
        assert forall|i: int| 0 <= i < front.len() implies tile_chunk_key(#[trigger] front[i].0)
            != key by {
            assert(front[i] == edits[i]);
        }
        lemma_untouched(front, key, base);
        assert(edits[edits.len() - 1] == edits.last());
    }
}

/// The tile edits of one tick: what to send, by chunk, and the chunks not
/// in memory that the edits touched.
pub struct TickEdits {
    pending: HashMap<u64, Vec<(u16, TileKind)>>,
    unloaded: HashMap<u64, (ChunkTiles, bool)>,
}

impl TickEdits {
    /// The edits to send, by chunk key, in the order they were made.
    pub closed spec fn pending_edits(&self) -> Map<u64, Seq<(u16, TileKind)>> {
        pending_map_entries(self.pending).map_values(|v: Vec<(u16, TileKind)>| v@)
    }

    /// The chunks not in memory, by key: their layers, and whether an edit
    /// changed them.
    pub closed spec fn unloaded_chunks(&self) -> Map<u64, ((Seq<TileKind>, Seq<TileKind>), bool)> {
        unloaded_map_entries(self.unloaded).map_values(|p: (ChunkTiles, bool)| (p.0@, p.1))
    }

    /// No edit yet.
    pub fn new() -> (r: TickEdits)
        ensures
            r.pending_edits() == Map::<u64, Seq<(u16, TileKind)>>::empty(),
            r.unloaded_chunks() == Map::<u64, ((Seq<TileKind>, Seq<TileKind>), bool)>::empty(),
    {
        let r = TickEdits { pending: pending_map_new(), unloaded: unloaded_map_new() };
        proof {
            assert(r.pending_edits() =~= Map::<u64, Seq<(u16, TileKind)>>::empty());
            assert(r.unloaded_chunks() =~= Map::<
                u64,
                ((Seq<TileKind>, Seq<TileKind>), bool),
            >::empty());
        }
        r
    }

    /// Records an edit of a chunk in memory, which `changed` tells whether
    /// it changed the tile: only then is it queued for the chunk's
    /// subscribers.
    pub fn record_loaded(&mut self, coord: TileCoord, kind: TileKind, changed: bool)
        ensures
            changed ==> final(self).pending_edits() == old(self).pending_edits().insert(
                tile_chunk_key(coord),
                edits_at(old(self).pending_edits(), tile_chunk_key(coord)).push(
                    (tile_index(coord) as u16, kind),
                ),
            ),
            !changed ==> final(self).pending_edits() == old(self).pending_edits(),
            final(self).pending_edits() == loaded_step(old(self).pending_edits(), (coord, kind, changed)),
            final(self).unloaded_chunks() == old(self).unloaded_chunks(),
    {
        if changed {
            let key = coord.chunk().key();
            let index = coord.local_index();
            let mut list = match pending_map_remove(&mut self.pending, key) {
                Some(list) => list,
                None => Vec::new(),
            };
            list.push((index as u16, kind));
            pending_map_insert(&mut self.pending, key, list);
            proof {
                assert(self.pending_edits() =~= old(self).pending_edits().insert(
                    tile_chunk_key(coord),
                    edits_at(old(self).pending_edits(), tile_chunk_key(coord)).push(
                        (tile_index(coord) as u16, kind),
                    ),
                ));
            }
        }
    }

    /// Must the chunk be generated before an edit of it is recorded: is it
    /// not yet among the chunks this tick touched?
    pub fn needs_generation(&self, chunk: ChunkCoord) -> (r: bool)
        ensures
            r == !self.unloaded_chunks().contains_key(spec_chunk_key(chunk)),
    {
        !unloaded_map_contains(&self.unloaded, chunk.key())
    }

    /// Records an edit of a chunk that is not in memory. `generated` is the
    /// chunk as the seed gives it, exactly when this tick has not touched
    /// it yet: each chunk is generated once per tick. The chunk's object
    /// tile takes the new kind, and the chunk is flagged when that changed
    /// it.
    pub fn record_unloaded(&mut self, coord: TileCoord, kind: TileKind, generated: Option<ChunkTiles>)
        requires
            generated is Some <==> !old(self).unloaded_chunks().contains_key(tile_chunk_key(coord)),
        ensures
            final(self).unloaded_chunks() == old(self).unloaded_chunks().insert(
                tile_chunk_key(coord),
                after_edit(
                    match generated {
                        Some(tiles) => (tiles@, false),
                        None => old(self).unloaded_chunks()[tile_chunk_key(coord)],
                    },
                    tile_index(coord),
                    kind,
                ),
            ),
            forall|g: spec_fn(u64) -> (Seq<TileKind>, Seq<TileKind>)|
                #![trigger unloaded_step(old(self).unloaded_chunks(), (coord, kind), g)]
                (generated matches Some(t) ==> g(tile_chunk_key(coord)) == t@)
                    ==> final(self).unloaded_chunks() == unloaded_step(
                    old(self).unloaded_chunks(),
                    (coord, kind),
                    g,
                ),
            final(self).pending_edits() == old(self).pending_edits(),
    {
        let key = coord.chunk().key();
        let index = coord.local_index();
        let ghost before = if generated is Some {
            (generated->0@, false)
        } else {
            old(self).unloaded_chunks()[key]
        };
        let (mut tiles, flag) = match generated {
            Some(tiles) => (tiles, false),
            None => match unloaded_map_remove(&mut self.unloaded, key) {
                Some(entry) => entry,
                None => {
                    proof {
                        assert(false);
                    }
                    (ChunkTiles::default(), false)
                },
            },
        };
        proof {
            lemma_tiles_wf(&tiles);
            assert((tiles@, flag) == before);
        }
        let ghost old_tiles = tiles@;
        let changed = tiles.set(TileLayer::Object, index, kind);
        proof {
            assert(tiles.spec_layer(TileLayer::Ground) == old_tiles.0);
            assert(tiles.spec_layer(TileLayer::Object) == old_tiles.1.update(index as int, kind));
            assert(tiles@ == (old_tiles.0, old_tiles.1.update(index as int, kind)));
            assert((tiles@, flag || changed) == after_edit(before, index as int, kind));
        }
        let ghost mid = unloaded_map_entries(self.unloaded);
        unloaded_map_insert(&mut self.unloaded, key, (tiles, flag || changed));
        proof {
            assert(unloaded_map_entries(self.unloaded) =~= unloaded_map_entries(
                old(self).unloaded,
            ).insert(key, (tiles, flag || changed)));
            assert(self.unloaded_chunks() =~= old(self).unloaded_chunks().insert(
                key,
                after_edit(before, index as int, kind),
            ));
        }
    }

    /// The chunks to keep: those not in memory that an edit changed, each
    /// once, with their tiles, in no particular order.
    pub fn into_kept(self) -> (r: Vec<(ChunkCoord, ChunkTiles)>)
        ensures
            forall|i: int|
                #![trigger r@[i]]
                0 <= i < r@.len() ==> self.unloaded_chunks().contains_key(spec_chunk_key(r@[i].0))
                    && self.unloaded_chunks()[spec_chunk_key(r@[i].0)] == (r@[i].1@, true),
            forall|k: u64|
                self.unloaded_chunks().contains_key(k) && #[trigger] self.unloaded_chunks()[k].1
                    ==> exists|i: int| 0 <= i < r@.len() && spec_chunk_key(r@[i].0) == k,
            forall|i: int, j: int| 0 <= i < j < r@.len() ==> r@[i].0 != r@[j].0,
    {
        let ghost chunks = self.unloaded_chunks();
        kept_chunks(self.unloaded, Ghost(chunks))
    }

    /// The edits to send, by chunk, each chunk once, and the chunks to
    /// keep, as [`TickEdits::into_kept`] gives them.
    pub fn into_parts(self) -> (r: (Vec<(ChunkCoord, Vec<(u16, TileKind)>)>, Vec<(ChunkCoord, ChunkTiles)>))
        ensures
            forall|i: int|
                #![trigger r.0@[i]]
                0 <= i < r.0@.len() ==> self.pending_edits().contains_key(spec_chunk_key(r.0@[i].0))
                    && self.pending_edits()[spec_chunk_key(r.0@[i].0)] == r.0@[i].1@,
            forall|k: u64|
                #[trigger] self.pending_edits().contains_key(k) ==> exists|i: int|
                    0 <= i < r.0@.len() && spec_chunk_key(r.0@[i].0) == k,
            forall|i: int, j: int| 0 <= i < j < r.0@.len() ==> r.0@[i].0 != r.0@[j].0,
            forall|i: int|
                #![trigger r.1@[i]]
                0 <= i < r.1@.len() ==> self.unloaded_chunks().contains_key(spec_chunk_key(r.1@[i].0))
                    && self.unloaded_chunks()[spec_chunk_key(r.1@[i].0)] == (r.1@[i].1@, true),
            forall|k: u64|
                self.unloaded_chunks().contains_key(k) && #[trigger] self.unloaded_chunks()[k].1
                    ==> exists|i: int| 0 <= i < r.1@.len() && spec_chunk_key(r.1@[i].0) == k,
            forall|i: int, j: int| 0 <= i < j < r.1@.len() ==> r.1@[i].0 != r.1@[j].0,
    {
        let ghost pending = self.pending_edits();
        let ghost chunks = self.unloaded_chunks();
        let TickEdits { pending: edits, unloaded } = self;
        proof {
            assert(pending == pending_map_entries(edits).map_values(|v: Vec<(u16, TileKind)>| v@));
        }
        let r = (pending_by_chunk(edits, Ghost(pending)), kept_chunks(unloaded, Ghost(chunks)));
        proof {
            assert forall|k: u64| #[trigger] self.pending_edits().contains_key(k) implies exists|i: int|
                0 <= i < r.0@.len() && spec_chunk_key(r.0@[i].0) == k by {
                assert(pending.contains_key(k));
                let i = choose|i: int| 0 <= i < r.0@.len() && spec_chunk_key(r.0@[i].0) == k;
                assert(spec_chunk_key(r.0@[i].0) == k);
            }
        }
        r
    }
}

/// Some position of `src` holds `j`.
spec fn covered(src: Seq<int>, j: int) -> bool {
    exists|i: int| 0 <= i < src.len() && src[i] == j
}

/// Chunks whose keys are distinct are distinct.
proof fn lemma_distinct_keys(a: ChunkCoord, b: ChunkCoord)
    requires
        spec_chunk_key(a) != spec_chunk_key(b),
    ensures
        a != b,
{
}

/// The edits of every chunk, each chunk once.
fn pending_by_chunk(
    m: HashMap<u64, Vec<(u16, TileKind)>>,
    Ghost(view): Ghost<Map<u64, Seq<(u16, TileKind)>>>,
) -> (r: Vec<(ChunkCoord, Vec<(u16, TileKind)>)>)
    requires
        view == pending_map_entries(m).map_values(|v: Vec<(u16, TileKind)>| v@),
    ensures
        forall|i: int|
            #![trigger r@[i]]
            0 <= i < r@.len() ==> view.contains_key(spec_chunk_key(r@[i].0)) && view[spec_chunk_key(
                r@[i].0,
            )] == r@[i].1@,
        forall|k: u64|
            #[trigger] view.contains_key(k) ==> exists|i: int|
                0 <= i < r@.len() && spec_chunk_key(r@[i].0) == k,
        forall|i: int, j: int| 0 <= i < j < r@.len() ==> r@[i].0 != r@[j].0,
{
    let ghost entries = pending_map_entries(m);
    let mut all = pending_map_into_vec(m);
    let ghost whole = all@;
    let ghost mut src: Seq<int> = Seq::empty();
    let mut out: Vec<(ChunkCoord, Vec<(u16, TileKind)>)> = Vec::new();
    while all.len() > 0
        invariant
            all@ == whole.take(all@.len() as int),
            all@.len() <= whole.len(),
            out@.len() == src.len(),
            forall|i: int|
                #![trigger src[i]]
                0 <= i < src.len() ==> all@.len() <= src[i] < whole.len() && whole[src[i]].0
                    == spec_chunk_key(out@[i].0) && whole[src[i]].1@ == out@[i].1@,
            forall|a: int, b: int| 0 <= a < b < src.len() ==> src[a] > src[b],
            forall|j: int| all@.len() <= j < whole.len() ==> #[trigger] covered(src, j),
        decreases all@.len(),
    {
        let ghost n = all@.len() - 1;
        let (key, edits) = match all.pop() {
            Some(entry) => entry,
            None => {
                proof {
                    assert(false);
                }
                (0, Vec::new())
            },
        };
        proof {
            assert(whole[n] == (key, edits));
        }
        let chunk = ChunkCoord::from_key(key);
        proof {
            lemma_chunk_key_bijection(chunk, key);
        }
        let ghost before = src;
        out.push((chunk, edits));
        proof {
            src = src.push(n);
            assert forall|j: int| all@.len() <= j < whole.len() implies #[trigger] covered(src, j) by {
                if j == n {
                    assert(src[before.len() as int] == j);
                } else {
                    assert(covered(before, j));
                    let i = choose|i: int| 0 <= i < before.len() && before[i] == j;
                    assert(src[i] == j);
                }
            }
        }
    }
    proof {
        assert forall|i: int|
            #![trigger out@[i]]
            0 <= i < out@.len() implies view.contains_key(spec_chunk_key(out@[i].0)) && view[spec_chunk_key(
                out@[i].0,
            )] == out@[i].1@ by {
            assert(entries.contains_key(whole[src[i]].0));
        }
        assert forall|k: u64| #[trigger] view.contains_key(k) implies exists|i: int|
            0 <= i < out@.len() && spec_chunk_key(out@[i].0) == k by {
            let j = choose|j: int| 0 <= j < whole.len() && #[trigger] whole[j].0 == k;
            assert(whole[j].0 == k);
            assert(covered(src, j));
            let i = choose|i: int| 0 <= i < src.len() && src[i] == j;
            assert(spec_chunk_key(out@[i].0) == k);
        }
        assert forall|a: int, b: int| 0 <= a < b < out@.len() implies out@[a].0 != out@[b].0 by {
            assert(src[a] > src[b]);
            assert(whole[src[a]].0 != whole[src[b]].0);
            lemma_distinct_keys(out@[a].0, out@[b].0);
        }
    }
    out
}

/// The chunks whose flag is set, each once, with their tiles.
fn kept_chunks(
    m: HashMap<u64, (ChunkTiles, bool)>,
    Ghost(view): Ghost<Map<u64, ((Seq<TileKind>, Seq<TileKind>), bool)>>,
) -> (r: Vec<(ChunkCoord, ChunkTiles)>)
    requires
        view == unloaded_map_entries(m).map_values(|p: (ChunkTiles, bool)| (p.0@, p.1)),
    ensures
        forall|i: int|
            #![trigger r@[i]]
            0 <= i < r@.len() ==> view.contains_key(spec_chunk_key(r@[i].0)) && view[spec_chunk_key(
                r@[i].0,
            )] == (r@[i].1@, true),
        forall|k: u64|
            view.contains_key(k) && #[trigger] view[k].1 ==> exists|i: int|
                0 <= i < r@.len() && spec_chunk_key(r@[i].0) == k,
        forall|i: int, j: int| 0 <= i < j < r@.len() ==> r@[i].0 != r@[j].0,
{
    let ghost entries = unloaded_map_entries(m);
    let mut all = unloaded_map_into_vec(m);
    let ghost whole = all@;
    let ghost mut src: Seq<int> = Seq::empty();
    let mut out: Vec<(ChunkCoord, ChunkTiles)> = Vec::new();
    while all.len() > 0
        invariant
            all@ == whole.take(all@.len() as int),
            all@.len() <= whole.len(),
            out@.len() == src.len(),
            forall|i: int|
                #![trigger src[i]]
                0 <= i < src.len() ==> all@.len() <= src[i] < whole.len() && whole[src[i]].0
                    == spec_chunk_key(out@[i].0) && whole[src[i]].1.0@ == out@[i].1@
                    && whole[src[i]].1.1,
            forall|a: int, b: int| 0 <= a < b < src.len() ==> src[a] > src[b],
            forall|j: int|
                all@.len() <= j < whole.len() && (#[trigger] whole[j]).1.1 ==> exists|i: int|
                    0 <= i < src.len() && src[i] == j,
        decreases all@.len(),
    {
        let ghost n = all@.len() - 1;
        let (key, (tiles, flag)) = match all.pop() {
            Some(entry) => entry,
            None => {
                proof {
                    assert(false);
                }
                (0, (ChunkTiles::default(), false))
            },
        };
        proof {
            assert(whole[n] == (key, (tiles, flag)));
        }
        let ghost before = src;
        if flag {
            let chunk = ChunkCoord::from_key(key);
            proof {
                lemma_chunk_key_bijection(chunk, key);
            }
            out.push((chunk, tiles));
            proof {
                src = src.push(n);
            }
        }
        proof {
            assert forall|j: int|
                all@.len() <= j < whole.len() && (#[trigger] whole[j]).1.1 implies exists|i: int|
                    0 <= i < src.len() && src[i] == j by {
                if j == n {
                    assert(src[before.len() as int] == j);
                } else {
                    let i = choose|i: int| 0 <= i < before.len() && before[i] == j;
                    assert(src[i] == j);
                }
            }
        }
    }
    proof {
        assert forall|i: int|
            #![trigger out@[i]]
            0 <= i < out@.len() implies view.contains_key(spec_chunk_key(out@[i].0)) && view[spec_chunk_key(
                out@[i].0,
            )] == (out@[i].1@, true) by {
            assert(entries.contains_key(whole[src[i]].0));
        }
        assert forall|k: u64| view.contains_key(k) && #[trigger] view[k].1 implies exists|i: int|
            0 <= i < out@.len() && spec_chunk_key(out@[i].0) == k by {
            let j = choose|j: int| 0 <= j < whole.len() && #[trigger] whole[j].0 == k;
            assert(whole[j].1.1);
            let i = choose|i: int| 0 <= i < src.len() && src[i] == j;
            assert(spec_chunk_key(out@[i].0) == k);
        }
        assert forall|a: int, b: int| 0 <= a < b < out@.len() implies out@[a].0 != out@[b].0 by {
            assert(src[a] > src[b]);
            assert(whole[src[a]].0 != whole[src[b]].0);
            lemma_distinct_keys(out@[a].0, out@[b].0);
        }
    }
    out
}

} // verus!
