//! The chunks that links discover during one tick, on the server.
//!
//! When a player's subscriptions move, the chunks that enter them are sent
//! whole. A chunk already in memory is read from there; one that is not is
//! generated from the seed, once per tick however many links discover it,
//! and counted: at the end of the tick it is put in memory with as many
//! subscribers as links discovered it.

use bevy::platform::collections::HashMap;
use vstd::prelude::*;

use crate::collections::{
    generated_map_entries, generated_map_get_count, generated_map_insert, generated_map_into_vec,
    generated_map_new, generated_map_remove,
};
use crate::terrain::chunk::{lemma_tiles_wf, ChunkTiles};
use crate::terrain::tile::{
    lemma_chunk_key_bijection, spec_chunk_key, ChunkCoord, TileKind, TileLayer, CHUNK_AREA,
};

verus! {

/// The chunks not in memory after one more link discovered `chunk`: the
/// first discovery generates it, as `generated` gives it for its key, with
/// one subscriber; each later one adds a subscriber.
pub open spec fn entering_step(
    chunks: Map<u64, ((Seq<TileKind>, Seq<TileKind>), nat)>,
    chunk: ChunkCoord,
    generated: spec_fn(u64) -> (Seq<TileKind>, Seq<TileKind>),
) -> Map<u64, ((Seq<TileKind>, Seq<TileKind>), nat)> {
    let key = spec_chunk_key(chunk);
    if chunks.contains_key(key) {
        chunks.insert(key, (chunks[key].0, (chunks[key].1 + 1) as nat))
    } else {
        chunks.insert(key, (generated(key), 1))
    }
}

/// The chunks not in memory after a tick's discoveries of them, in order,
/// from nothing.
pub open spec fn entering_fold(
    entering: Seq<ChunkCoord>,
    generated: spec_fn(u64) -> (Seq<TileKind>, Seq<TileKind>),
) -> Map<u64, ((Seq<TileKind>, Seq<TileKind>), nat)>
    decreases entering.len(),
{
    if entering.len() == 0 {
        Map::empty()
    } else {
        entering_step(entering_fold(entering.drop_last(), generated), entering.last(), generated)
    }
}

/// How many of these discoveries are of the chunk with this key.
pub open spec fn discoveries(entering: Seq<ChunkCoord>, key: u64) -> nat
    decreases entering.len(),
{
    if entering.len() == 0 {
        0
    } else {
        discoveries(entering.drop_last(), key) + if spec_chunk_key(entering.last()) == key {
            1nat
        } else {
            0nat
        }
    }
}

/// Over a whole tick, a chunk not in memory is generated exactly when some
/// link discovered it, once, as the seed gives it, and it gets as many
/// subscribers as links discovered it.
pub proof fn lemma_tick_generates_once_and_counts(
    entering: Seq<ChunkCoord>,
    generated: spec_fn(u64) -> (Seq<TileKind>, Seq<TileKind>),
    key: u64,
)
    ensures
        entering_fold(entering, generated).contains_key(key) <==> discoveries(entering, key) > 0,
        entering_fold(entering, generated).contains_key(key) ==> entering_fold(entering, generated)[key]
            == (generated(key), discoveries(entering, key)),
    decreases entering.len(),
{
    if entering.len() > 0 {
        lemma_tick_generates_once_and_counts(entering.drop_last(), generated, key);
    }
}

/// The object layer of a chunk, as a snapshot sends it.
fn object_snapshot(tiles: &ChunkTiles) -> (r: Vec<TileKind>)
    ensures
        r@ == tiles@.1,
{
    proof {
        lemma_tiles_wf(tiles);
    }
    let mut out: Vec<TileKind> = Vec::new();
    let mut i: usize = 0;
    while i < CHUNK_AREA
        invariant
            i <= CHUNK_AREA,
            tiles.wf(),
            out@ == tiles@.1.take(i as int),
        decreases CHUNK_AREA - i,
    {
        out.push(tiles.get(TileLayer::Object, i));
        proof {
            assert(tiles@.1.take(i + 1) == tiles@.1.take(i as int).push(tiles@.1[i as int]));
        }
        i = i + 1;
    }
    proof {
        assert(tiles@.1.take(CHUNK_AREA as int) == tiles@.1);
    }
    out
}

/// The chunks not in memory that links discovered during one tick.
pub struct TickSubscriptions {
    chunks: HashMap<u64, (ChunkTiles, u32)>,
}

impl TickSubscriptions {
    /// The chunks generated this tick, by key: their layers, and how many
    /// links subscribed to them.
    pub closed spec fn generated_chunks(&self) -> Map<u64, ((Seq<TileKind>, Seq<TileKind>), nat)> {
        generated_map_entries(self.chunks).map_values(|e: (ChunkTiles, u32)| (e.0@, e.1 as nat))
    }

    /// No discovery yet.
    pub fn new() -> (r: TickSubscriptions)
        ensures
            r.generated_chunks() == Map::<u64, ((Seq<TileKind>, Seq<TileKind>), nat)>::empty(),
    {
        let r = TickSubscriptions { chunks: generated_map_new() };
        proof {
            assert(r.generated_chunks() =~= Map::<
                u64,
                ((Seq<TileKind>, Seq<TileKind>), nat),
            >::empty());
        }
        r
    }

    /// Must the chunk be generated before its discovery is recorded: has no
    /// link discovered it yet this tick?
    pub fn needs_generation(&self, chunk: ChunkCoord) -> (r: bool)
        ensures
            r == !self.generated_chunks().contains_key(spec_chunk_key(chunk)),
    {
        generated_map_get_count(&self.chunks, chunk.key()).is_none()
    }

    /// How many links subscribed to the chunk this tick; none when it was
    /// not generated this tick.
    pub fn subscribers(&self, chunk: ChunkCoord) -> (r: u32)
        ensures
            r == (if self.generated_chunks().contains_key(spec_chunk_key(chunk)) {
                self.generated_chunks()[spec_chunk_key(chunk)].1
            } else {
                0
            }),
    {
        match generated_map_get_count(&self.chunks, chunk.key()) {
            Some(count) => count,
            None => 0,
        }
    }

    /// Records that a link discovered a chunk that is not in memory, and
    /// returns the object layer to send it. `generated` is the chunk as
    /// the seed gives it, exactly when no link discovered it yet this tick:
    /// each chunk is generated once per tick. The chunk gains a subscriber.
    pub fn record_entering(&mut self, chunk: ChunkCoord, generated: Option<ChunkTiles>) -> (snapshot:
        Vec<TileKind>)
        requires
            generated is Some <==> !old(self).generated_chunks().contains_key(spec_chunk_key(chunk)),
            old(self).generated_chunks().contains_key(spec_chunk_key(chunk)) ==> old(
                self,
            ).generated_chunks()[spec_chunk_key(chunk)].1 < u32::MAX,
        ensures
            final(self).generated_chunks() == old(self).generated_chunks().insert(
                spec_chunk_key(chunk),
                match generated {
                    Some(tiles) => (tiles@, 1nat),
                    None => (
                        old(self).generated_chunks()[spec_chunk_key(chunk)].0,
                        (old(self).generated_chunks()[spec_chunk_key(chunk)].1 + 1) as nat,
                    ),
                },
            ),
            forall|g: spec_fn(u64) -> (Seq<TileKind>, Seq<TileKind>)|
                #![trigger entering_step(old(self).generated_chunks(), chunk, g)]
                (generated matches Some(t) ==> g(spec_chunk_key(chunk)) == t@)
                    ==> final(self).generated_chunks() == entering_step(
                    old(self).generated_chunks(),
                    chunk,
                    g,
                ),
            snapshot@ == final(self).generated_chunks()[spec_chunk_key(chunk)].0.1,
    {
        let key = chunk.key();
        let ghost before = old(self).generated_chunks();
        let (tiles, count) = match generated {
            Some(tiles) => (tiles, 0u32),
            None => match generated_map_remove(&mut self.chunks, key) {
                Some(entry) => entry,
                None => {
                    proof {
                        assert(false);
                    }
                    (ChunkTiles::default(), 0u32)
                },
            },
        };
        proof {
            if generated is None {
                assert(before[key] == (tiles@, count as nat));
            }
        }
        let snapshot = object_snapshot(&tiles);
        let ghost entry = (tiles@, (count + 1) as nat);
        generated_map_insert(&mut self.chunks, key, (tiles, count + 1));
        proof {
            assert(self.generated_chunks() =~= before.insert(key, entry));
        }
        snapshot
    }

    /// The chunks to put in memory: each generated chunk once, with its
    /// tiles and its number of subscribers, in no particular order.
    pub fn into_generated(self) -> (r: Vec<(ChunkCoord, ChunkTiles, u32)>)
        ensures
            forall|i: int|
                #![trigger r@[i]]
                0 <= i < r@.len() ==> self.generated_chunks().contains_key(spec_chunk_key(r@[i].0))
                    && self.generated_chunks()[spec_chunk_key(r@[i].0)] == (r@[i].1@, r@[i].2 as nat),
            forall|k: u64|
                #[trigger] self.generated_chunks().contains_key(k) ==> exists|i: int|
                    0 <= i < r@.len() && spec_chunk_key(r@[i].0) == k,
            forall|i: int, j: int| 0 <= i < j < r@.len() ==> r@[i].0 != r@[j].0,
    {
        let ghost view = self.generated_chunks();
        let ghost entries = generated_map_entries(self.chunks);
        let mut all = generated_map_into_vec(self.chunks);
        let ghost whole = all@;
        let mut out: Vec<(ChunkCoord, ChunkTiles, u32)> = Vec::new();
        while all.len() > 0
            invariant
                all@ == whole.take(all@.len() as int),
                all@.len() + out@.len() == whole.len(),
                forall|i: int|
                    #![trigger out@[i]]
                    0 <= i < out@.len() ==> whole[whole.len() - 1 - i].0 == spec_chunk_key(out@[i].0)
                        && whole[whole.len() - 1 - i].1.0@ == out@[i].1@ && whole[whole.len() - 1
                        - i].1.1 == out@[i].2,
            decreases all@.len(),
        {
            let ghost n = all@.len() - 1;
            let (key, (tiles, count)) = match all.pop() {
                Some(entry) => entry,
                None => {
                    proof {
                        assert(false);
                    }
                    (0, (ChunkTiles::default(), 0u32))
                },
            };
            proof {
                assert(whole[n] == (key, (tiles, count)));
            }
            let chunk = ChunkCoord::from_key(key);
            proof {
                lemma_chunk_key_bijection(chunk, key);
            }
            out.push((chunk, tiles, count));
        }
        proof {
            assert forall|i: int|
                #![trigger out@[i]]
                0 <= i < out@.len() implies view.contains_key(spec_chunk_key(out@[i].0))
                    && view[spec_chunk_key(out@[i].0)] == (out@[i].1@, out@[i].2 as nat) by {
                let j = whole.len() - 1 - i;
                assert(entries.contains_key(whole[j].0));
            }
            assert forall|k: u64| #[trigger] view.contains_key(k) implies exists|i: int|
                0 <= i < out@.len() && spec_chunk_key(out@[i].0) == k by {
                let j = choose|j: int| 0 <= j < whole.len() && #[trigger] whole[j].0 == k;
                let i = whole.len() - 1 - j;
                assert(spec_chunk_key(out@[i].0) == k);
            }
            assert forall|a: int, b: int| 0 <= a < b < out@.len() implies out@[a].0 != out@[b].0 by {
                assert(whole[whole.len() - 1 - a].0 != whole[whole.len() - 1 - b].0);
            }
        }
        out
    }
}

} // verus!
