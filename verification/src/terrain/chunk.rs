//! Content of a chunk: one layer of tiles per [`TileLayer`], and the
//! run-length encoding of a layer that its serialized form is made of.
//!
//! A layer is encoded as a list of runs `(TileKind, length)` read in
//! row-major order, y upwards. Decoding refuses an empty run and runs that do
//! not add up to exactly [`CHUNK_AREA`] tiles: truncated or corrupted data
//! never yields an incomplete chunk.

use vstd::prelude::*;

use super::tile::{
    index_to_local, lemma_index_local_bijection, spec_index_to_local, LocalPos, TileKind,
    TileLayer, CHUNK_AREA,
};

verus! {

/// The tiles that a list of runs stands for, in order.
pub open spec fn decode_runs(runs: Seq<(TileKind, u16)>) -> Seq<TileKind>
    decreases runs.len(),
{
    if runs.len() == 0 {
        Seq::empty()
    } else {
        let last = runs.last();
        decode_runs(runs.drop_last()) + Seq::new(last.1 as nat, |i: int| last.0)
    }
}

/// Every run holds at least one tile.
pub open spec fn runs_non_empty(runs: Seq<(TileKind, u16)>) -> bool {
    forall|i: int| 0 <= i < runs.len() ==> #[trigger] runs[i].1 > 0
}

/// Two neighbouring runs never hold the same kind: the encoding is maximal.
pub open spec fn runs_maximal(runs: Seq<(TileKind, u16)>) -> bool {
    forall|i: int| 0 < i < runs.len() ==> #[trigger] runs[i].0 != runs[i - 1].0
}

/// The runs describe a whole layer: none is empty and they add up to
/// exactly [`CHUNK_AREA`] tiles.
pub open spec fn runs_describe_layer(runs: Seq<(TileKind, u16)>) -> bool {
    runs_non_empty(runs) && decode_runs(runs).len() == CHUNK_AREA
}

/// What decoding a list of runs gives: the layer, or nothing.
pub open spec fn spec_from_runs(runs: Seq<(TileKind, u16)>) -> Option<Seq<TileKind>> {
    if runs_describe_layer(runs) {
        Some(decode_runs(runs))
    } else {
        None
    }
}

/// Maximal runs of equal consecutive tiles, in index order.
pub open spec fn spec_runs(tiles: Seq<TileKind>) -> Seq<(TileKind, u16)>
    decreases tiles.len(),
{
    if tiles.len() == 0 {
        Seq::empty()
    } else {
        let prev = spec_runs(tiles.drop_last());
        let kind = tiles.last();
        if prev.len() > 0 && prev.last().0 == kind {
            prev.update(prev.len() - 1, (kind, (prev.last().1 + 1) as u16))
        } else {
            prev.push((kind, 1u16))
        }
    }
}

/// Decoding distributes over concatenation.
pub proof fn lemma_decode_append(a: Seq<(TileKind, u16)>, b: Seq<(TileKind, u16)>)
    ensures
        decode_runs(a + b) == decode_runs(a) + decode_runs(b),
    decreases b.len(),
{
    if b.len() == 0 {
        assert(a + b =~= a);
        assert(decode_runs(b) =~= Seq::<TileKind>::empty());
        assert(decode_runs(a) + decode_runs(b) =~= decode_runs(a));
    } else {
        let last = b.last();
        lemma_decode_append(a, b.drop_last());
        assert((a + b).drop_last() =~= a + b.drop_last());
        assert((a + b).last() == last);
        let tail = Seq::new(last.1 as nat, |i: int| last.0);
        assert(decode_runs(a) + decode_runs(b.drop_last()) + tail =~= decode_runs(a) + (
        decode_runs(b.drop_last()) + tail));
    }
}

/// A list of runs with one more tile in its last run.
proof fn lemma_decode_grow_last(prev: Seq<(TileKind, u16)>, kind: TileKind, n: u16)
    requires
        prev.len() > 0,
        prev.last().0 == kind,
        n == prev.last().1 + 1,
    ensures
        decode_runs(prev.update(prev.len() - 1, (kind, n))) == decode_runs(prev).push(kind),
{
    let grown = prev.update(prev.len() - 1, (kind, n));
    assert(grown.drop_last() =~= prev.drop_last());
    let old_tail = Seq::new(prev.last().1 as nat, |i: int| kind);
    let new_tail = Seq::new(n as nat, |i: int| kind);
    assert(new_tail =~= old_tail.push(kind));
    assert(decode_runs(prev.drop_last()) + new_tail =~= (decode_runs(prev.drop_last())
        + old_tail).push(kind));
}

/// The runs of a sequence decode back to it, are non-empty and maximal, and
/// none holds more tiles than the sequence.
pub proof fn lemma_runs_properties(tiles: Seq<TileKind>)
    requires
        tiles.len() <= u16::MAX,
    ensures
        decode_runs(spec_runs(tiles)) == tiles,
        runs_non_empty(spec_runs(tiles)),
        runs_maximal(spec_runs(tiles)),
        forall|i: int|
            0 <= i < spec_runs(tiles).len() ==> #[trigger] spec_runs(tiles)[i].1 <= tiles.len(),
        tiles.len() > 0 ==> spec_runs(tiles).len() > 0 && spec_runs(tiles).last().0
            == tiles.last(),
    decreases tiles.len(),
{
    if tiles.len() == 0 {
        assert(decode_runs(spec_runs(tiles)) =~= tiles);
    } else {
        let front = tiles.drop_last();
        lemma_runs_properties(front);
        let prev = spec_runs(front);
        let kind = tiles.last();
        if prev.len() > 0 && prev.last().0 == kind {
            lemma_decode_grow_last(prev, kind, (prev.last().1 + 1) as u16);
            assert(front.push(kind) =~= tiles);
        } else {
            let pushed = prev.push((kind, 1u16));
            assert(pushed.drop_last() =~= prev);
            assert(Seq::new(1nat, |i: int| kind) =~= seq![kind]);
            assert(front + seq![kind] =~= tiles);
        }
    }
}

/// Decoding the runs of a whole layer gives the layer back: the encoding
/// loses nothing.
pub proof fn lemma_runs_round_trip(tiles: Seq<TileKind>)
    requires
        tiles.len() == CHUNK_AREA,
    ensures
        runs_describe_layer(spec_runs(tiles)),
        spec_from_runs(spec_runs(tiles)) == Some(tiles),
{
    lemma_runs_properties(tiles);
}

/// Appending `n` tiles of a kind that differs from the last run adds one
/// run of length `n`.
proof fn lemma_runs_append_block(tiles: Seq<TileKind>, kind: TileKind, n: nat)
    requires
        1 <= n,
        tiles.len() + n <= u16::MAX,
        spec_runs(tiles).len() == 0 || spec_runs(tiles).last().0 != kind,
    ensures
        spec_runs(tiles + Seq::new(n, |i: int| kind)) == spec_runs(tiles).push((kind, n as u16)),
    decreases n,
{
    let block = Seq::new(n, |i: int| kind);
    let whole = tiles + block;
    if n == 1 {
        assert(whole.drop_last() =~= tiles);
    } else {
        lemma_runs_append_block(tiles, kind, (n - 1) as nat);
        assert(whole.drop_last() =~= tiles + Seq::new((n - 1) as nat, |i: int| kind));
        assert(whole.last() == kind);
    }
}

/// Encoding the tiles that maximal, non-empty runs stand for gives back
/// those very runs: the encoding is canonical.
pub proof fn lemma_decode_then_runs(runs: Seq<(TileKind, u16)>)
    requires
        runs_non_empty(runs),
        runs_maximal(runs),
        decode_runs(runs).len() <= u16::MAX,
    ensures
        spec_runs(decode_runs(runs)) == runs,
    decreases runs.len(),
{
    if runs.len() == 0 {
        assert(spec_runs(decode_runs(runs)) =~= runs);
    } else {
        let front = runs.drop_last();
        let last = runs.last();
        assert(runs_non_empty(front)) by {
            assert forall|i: int| 0 <= i < front.len() implies #[trigger] front[i].1 > 0 by {
                assert(front[i] == runs[i]);
            }
        }
        assert(runs_maximal(front)) by {
            assert forall|i: int| 0 < i < front.len() implies #[trigger] front[i].0 != front[i
                - 1].0 by {
                assert(front[i] == runs[i] && front[i - 1] == runs[i - 1]);
            }
        }
        lemma_decode_then_runs(front);
        assert(runs[runs.len() - 1].1 > 0);
        if front.len() > 0 {
            assert(runs[runs.len() - 1].0 != runs[runs.len() - 2].0);
        }
        lemma_runs_append_block(decode_runs(front), last.0, last.1 as nat);
        assert(front.push((last.0, last.1)) =~= runs);
    }
}

/// A uniform layer is encoded as a single run.
pub proof fn lemma_uniform_layer_one_run(kind: TileKind)
    ensures
        spec_runs(Seq::new(CHUNK_AREA as nat, |i: int| kind)) == seq![(kind, 1024u16)],
{
    let empty = Seq::<TileKind>::empty();
    lemma_runs_append_block(empty, kind, CHUNK_AREA as nat);
    assert(empty + Seq::new(CHUNK_AREA as nat, |i: int| kind) =~= Seq::new(
        CHUNK_AREA as nat,
        |i: int| kind,
    ));
    assert(spec_runs(empty).push((kind, 1024u16)) =~= seq![(kind, 1024u16)]);
}

/// Local positions of the indices below `n` that `blocked` holds of, in
/// index order.
pub open spec fn blocked_positions(blocked: spec_fn(int) -> bool, n: int) -> Seq<LocalPos>
    decreases n,
{
    if n <= 0 {
        Seq::empty()
    } else if blocked(n - 1) {
        blocked_positions(blocked, n - 1).push(spec_index_to_local(n - 1))
    } else {
        blocked_positions(blocked, n - 1)
    }
}

/// Every collected position lies inside the chunk.
pub proof fn lemma_blocked_positions_in_chunk(blocked: spec_fn(int) -> bool, n: int)
    requires
        n <= CHUNK_AREA,
    ensures
        forall|j: int|
            0 <= j < blocked_positions(blocked, n).len() ==> (#[trigger] blocked_positions(
                blocked,
                n,
            )[j]).in_chunk(),
    decreases n,
{
    if n > 0 {
        lemma_blocked_positions_in_chunk(blocked, n - 1);
        lemma_index_local_bijection(n - 1, LocalPos { x: 0, y: 0 });
        let prev = blocked_positions(blocked, n - 1);
        let all = blocked_positions(blocked, n);
        assert forall|j: int| 0 <= j < all.len() implies (#[trigger] all[j]).in_chunk() by {
            if j < prev.len() {
                assert(all[j] == prev[j]);
            }
        }
    }
}

/// Collects, in index order, the local positions of the indices below
/// [`CHUNK_AREA`] that are flagged.
fn collect_positions(flags: &Vec<bool>, Ghost(blocked): Ghost<spec_fn(int) -> bool>) -> (r: Vec<
    LocalPos,
>)
    requires
        flags@.len() == CHUNK_AREA,
        forall|i: int| 0 <= i < CHUNK_AREA ==> #[trigger] flags@[i] == blocked(i),
    ensures
        r@ == blocked_positions(blocked, CHUNK_AREA as int),
{
    let mut r: Vec<LocalPos> = Vec::new();
    let mut i: usize = 0;
    while i < CHUNK_AREA
        invariant
            i <= CHUNK_AREA,
            flags@.len() == CHUNK_AREA,
            forall|j: int| 0 <= j < CHUNK_AREA ==> #[trigger] flags@[j] == blocked(j),
            r@ == blocked_positions(blocked, i as int),
        decreases CHUNK_AREA - i,
    {
        if flags[i] {
            r.push(index_to_local(i));
        }
        i = i + 1;
    }
    r
}

/// The tiles of a whole layer, moved into a fixed-size array.
fn boxed(tiles: Vec<TileKind>) -> (r: Box<[TileKind; CHUNK_AREA]>)
    requires
        tiles@.len() == CHUNK_AREA,
    ensures
        r@ == tiles@,
{
    let mut array = Box::new([TileKind::Empty; CHUNK_AREA]);
    let mut i: usize = 0;
    while i < CHUNK_AREA
        invariant
            i <= CHUNK_AREA,
            tiles@.len() == CHUNK_AREA,
            array@.len() == CHUNK_AREA,
            forall|j: int| 0 <= j < i ==> #[trigger] array@[j] == tiles@[j],
        decreases CHUNK_AREA - i,
    {
        array[i] = tiles[i];
        i = i + 1;
    }
    proof {
        assert(array@ =~= tiles@);
    }
    array
}

/// Every layer holds exactly [`CHUNK_AREA`] tiles.
pub proof fn lemma_layer_wf(layer: &ChunkLayer)
    ensures
        layer.wf(),
{
}

/// One layer of a chunk's tiles, in row-major order, y upwards.
#[derive(Clone, Debug, PartialEq, Eq)]
pub struct ChunkLayer {
    tiles: Box<[TileKind; CHUNK_AREA]>,
}

impl View for ChunkLayer {
    type V = Seq<TileKind>;

    closed spec fn view(&self) -> Seq<TileKind> {
        self.tiles@
    }
}

impl ChunkLayer {
    /// The layer holds exactly [`CHUNK_AREA`] tiles, as every layer does.
    pub open spec fn wf(&self) -> bool {
        self@.len() == CHUNK_AREA
    }

    /// Layer uniformly filled with one kind.
    pub fn filled(kind: TileKind) -> (r: ChunkLayer)
        ensures
            r.wf(),
            forall|i: int| 0 <= i < CHUNK_AREA ==> #[trigger] r@[i] == kind,
    {
        let mut tiles: Vec<TileKind> = Vec::new();
        let mut i: usize = 0;
        while i < CHUNK_AREA
            invariant
                i <= CHUNK_AREA,
                tiles@.len() == i,
                forall|j: int| 0 <= j < i ==> #[trigger] tiles@[j] == kind,
            decreases CHUNK_AREA - i,
        {
            tiles.push(kind);
            i = i + 1;
        }
        ChunkLayer { tiles: boxed(tiles) }
    }

    /// Layer whose every tile is computed from its local position.
    pub fn from_fn<F: Fn(LocalPos) -> TileKind>(tile: F) -> (r: ChunkLayer)
        requires
            forall|i: int| 0 <= i < CHUNK_AREA ==> call_requires(tile, (#[trigger] spec_index_to_local(i),)),
        ensures
            r.wf(),
            forall|i: int|
                0 <= i < CHUNK_AREA ==> call_ensures(tile, (#[trigger] spec_index_to_local(i),), r@[i]),
    {
        let mut tiles: Vec<TileKind> = Vec::new();
        let mut i: usize = 0;
        while i < CHUNK_AREA
            invariant
                i <= CHUNK_AREA,
                tiles@.len() == i,
                forall|j: int| 0 <= j < CHUNK_AREA ==> call_requires(tile, (#[trigger] spec_index_to_local(j),)),
                forall|j: int| 0 <= j < i ==> call_ensures(tile, (#[trigger] spec_index_to_local(j),), tiles@[j]),
            decreases CHUNK_AREA - i,
        {
            let local = index_to_local(i);
            let kind = tile(local);
            tiles.push(kind);
            i = i + 1;
        }
        ChunkLayer { tiles: boxed(tiles) }
    }

    /// Layer rebuilt from a list of tiles, or `None` when its length is not
    /// [`CHUNK_AREA`].
    pub fn from_vec(tiles: Vec<TileKind>) -> (r: Option<ChunkLayer>)
        ensures
            r is Some <==> tiles@.len() == CHUNK_AREA,
            r matches Some(layer) ==> layer@ == tiles@,
    {
        if tiles.len() == CHUNK_AREA {
            Some(ChunkLayer { tiles: boxed(tiles) })
        } else {
            None
        }
    }

    pub fn get(&self, index: usize) -> (r: TileKind)
        requires
            index < CHUNK_AREA,
        ensures
            r == self@[index as int],
            self.wf(),
    {
        self.tiles[index]
    }

    /// Replaces a tile. Returns `false` when it already had that kind.
    pub fn set(&mut self, index: usize, kind: TileKind) -> (changed: bool)
        requires
            index < CHUNK_AREA,
        ensures
            final(self)@ == old(self)@.update(index as int, kind),
            final(self).wf(),
            changed == (old(self)@[index as int] != kind),
    {
        let changed = self.tiles[index] != kind;
        self.tiles[index] = kind;
        changed
    }

    pub fn as_slice(&self) -> (r: &[TileKind])
        ensures
            r@ == self@,
    {
        self.tiles.as_slice()
    }

    /// Local positions of the solid tiles, in index order.
    pub fn solid_tiles(&self) -> (r: Vec<LocalPos>)
        ensures
            r@ == blocked_positions(|i: int| self@[i].spec_is_solid(), CHUNK_AREA as int),
    {
        let ghost blocked = |i: int| self@[i].spec_is_solid();
        let mut flags: Vec<bool> = Vec::new();
        let mut i: usize = 0;
        while i < CHUNK_AREA
            invariant
                i <= CHUNK_AREA,
                flags@.len() == i,
                forall|j: int| 0 <= j < i ==> #[trigger] flags@[j] == self@[j].spec_is_solid(),
            decreases CHUNK_AREA - i,
        {
            flags.push(self.get(i).is_solid());
            i = i + 1;
        }
        collect_positions(&flags, Ghost(blocked))
    }

    /// Runs of equal consecutive tiles, in index order.
    pub fn runs(&self) -> (r: Vec<(TileKind, u16)>)
        ensures
            r@ == spec_runs(self@),
            runs_describe_layer(r@),
            runs_maximal(r@),
            decode_runs(r@) == self@,
    {
        let mut runs: Vec<(TileKind, u16)> = Vec::new();
        let mut i: usize = 0;
        while i < CHUNK_AREA
            invariant
                self.tiles@.len() == CHUNK_AREA,
                i <= CHUNK_AREA,
                runs@ == spec_runs(self.tiles@.take(i as int)),
            decreases CHUNK_AREA - i,
        {
            let kind = self.tiles[i];
            proof {
                lemma_runs_properties(self.tiles@.take(i as int));
                assert(self.tiles@.take(i + 1).drop_last() =~= self.tiles@.take(i as int));
                assert(self.tiles@.take(i + 1).last() == kind);
            }
            let n = runs.len();
            if n > 0 && runs[n - 1].0 == kind {
                let len = runs[n - 1].1;
                runs.set(n - 1, (kind, len + 1));
            } else {
                runs.push((kind, 1));
            }
            i = i + 1;
        }
        proof {
            assert(self.tiles@.take(CHUNK_AREA as int) =~= self.tiles@);
            lemma_runs_properties(self.tiles@);
        }
        runs
    }

    /// Inverse of [`runs`](Self::runs). `None` when a run is empty or when
    /// they do not add up to [`CHUNK_AREA`] tiles.
    pub fn from_runs(runs: &[(TileKind, u16)]) -> (r: Option<ChunkLayer>)
        ensures
            r is Some <==> runs_describe_layer(runs@),
            r matches Some(layer) ==> layer@ == decode_runs(runs@) && layer.wf(),
    {
        let mut tiles: Vec<TileKind> = Vec::new();
        let mut j: usize = 0;
        while j < runs.len()
            invariant
                j <= runs@.len(),
                tiles@ == decode_runs(runs@.take(j as int)),
                tiles@.len() <= CHUNK_AREA,
                runs_non_empty(runs@.take(j as int)),
            decreases runs@.len() - j,
        {
            let (kind, len) = runs[j];
            proof {
                assert(runs@.take(j + 1).drop_last() =~= runs@.take(j as int));
                assert(runs@.take(j + 1).last() == (kind, len));
                lemma_decode_append(runs@.take(j + 1), runs@.skip(j + 1));
                assert(runs@.take(j + 1) + runs@.skip(j + 1) =~= runs@);
            }
            let index = tiles.len();
            if len == 0 || index + (len as usize) > CHUNK_AREA {
                proof {
                    if len == 0 {
                        assert(runs@[j as int].1 == 0);
                    } else {
                        assert(decode_runs(runs@).len() >= decode_runs(runs@.take(j + 1)).len());
                    }
                }
                return None;
            }
            let mut k: u16 = 0;
            let ghost start = tiles@;
            while k < len
                invariant
                    k <= len,
                    tiles@ == start + Seq::new(k as nat, |i: int| kind),
                decreases len - k,
            {
                tiles.push(kind);
                k = k + 1;
                proof {
                    assert(start + Seq::new(k as nat, |i: int| kind) =~= (start + Seq::new(
                        (k - 1) as nat,
                        |i: int| kind,
                    )).push(kind));
                }
            }
            proof {
                assert(runs_non_empty(runs@.take(j + 1))) by {
                    assert forall|i: int| 0 <= i < runs@.take(j + 1).len() implies #[trigger] runs@.take(j + 1)[i].1 > 0 by {
                        if i < j {
                            assert(runs@.take(j + 1)[i] == runs@.take(j as int)[i]);
                        }
                    }
                }
            }
            j = j + 1;
        }
        proof {
            assert(runs@.take(runs@.len() as int) =~= runs@);
        }
        if tiles.len() == CHUNK_AREA {
            Some(ChunkLayer { tiles: boxed(tiles) })
        } else {
            None
        }
    }
}

/// One layer of a chunk computed from each tile's layer and local position.
fn layer_from_fn<F: Fn(TileLayer, LocalPos) -> TileKind>(tile: &F, layer: TileLayer) -> (r:
    ChunkLayer)
    requires
        forall|i: int| 0 <= i < CHUNK_AREA ==> call_requires(*tile, (layer, #[trigger] spec_index_to_local(i))),
    ensures
        r.wf(),
        forall|i: int|
            0 <= i < CHUNK_AREA ==> call_ensures(*tile, (layer, #[trigger] spec_index_to_local(i)), r@[i]),
{
    let mut tiles: Vec<TileKind> = Vec::new();
    let mut i: usize = 0;
    while i < CHUNK_AREA
        invariant
            i <= CHUNK_AREA,
            tiles@.len() == i,
            forall|j: int| 0 <= j < CHUNK_AREA ==> call_requires(*tile, (layer, #[trigger] spec_index_to_local(j))),
            forall|j: int| 0 <= j < i ==> call_ensures(*tile, (layer, #[trigger] spec_index_to_local(j)), tiles@[j]),
        decreases CHUNK_AREA - i,
    {
        let local = index_to_local(i);
        let kind = tile(layer, local);
        tiles.push(kind);
        i = i + 1;
    }
    ChunkLayer { tiles: boxed(tiles) }
}

/// The tiles of a chunk: one [`ChunkLayer`] per [`TileLayer`].
#[derive(Clone, Debug, PartialEq, Eq)]
pub struct ChunkTiles {
    // The field order is the order of `TileLayer::all()`, and part of the
    // serialized format.
    ground: ChunkLayer,
    object: ChunkLayer,
}

impl View for ChunkTiles {
    type V = (Seq<TileKind>, Seq<TileKind>);

    closed spec fn view(&self) -> (Seq<TileKind>, Seq<TileKind>) {
        (self.ground@, self.object@)
    }
}

impl ChunkTiles {
    /// Both layers hold exactly [`CHUNK_AREA`] tiles.
    pub open spec fn wf(&self) -> bool {
        self@.0.len() == CHUNK_AREA && self@.1.len() == CHUNK_AREA
    }

    /// The tiles of one layer.
    pub open spec fn spec_layer(&self, layer: TileLayer) -> Seq<TileKind> {
        match layer {
            TileLayer::Ground => self@.0,
            TileLayer::Object => self@.1,
        }
    }

    /// Is the position at `index` impassable: a hole in the ground, or a
    /// solid tile on either layer?
    pub open spec fn spec_is_solid(&self, index: int) -> bool {
        TileLayer::Ground.spec_blocks(self@.0[index]) || TileLayer::Object.spec_blocks(
            self@.1[index],
        )
    }

    /// Chunk whose every tile of every layer is computed from its local
    /// position.
    pub fn from_fn<F: Fn(TileLayer, LocalPos) -> TileKind>(tile: F) -> (r: ChunkTiles)
        requires
            forall|l: TileLayer, i: int|
                0 <= i < CHUNK_AREA ==> #[trigger] call_requires(tile, (l, spec_index_to_local(i))),
        ensures
            r.wf(),
            forall|l: TileLayer, i: int|
                0 <= i < CHUNK_AREA ==> call_ensures(
                    tile,
                    (l, spec_index_to_local(i)),
                    #[trigger] r.spec_layer(l)[i],
                ),
    {
        let ground = layer_from_fn(&tile, TileLayer::Ground);
        let object = layer_from_fn(&tile, TileLayer::Object);
        ChunkTiles { ground, object }
    }

    pub fn layer(&self, layer: TileLayer) -> (r: &ChunkLayer)
        ensures
            r@ == self.spec_layer(layer),
    {
        match layer {
            TileLayer::Ground => &self.ground,
            TileLayer::Object => &self.object,
        }
    }

    pub fn layer_mut(&mut self, layer: TileLayer) -> (r: &mut ChunkLayer)
        ensures
            (*r)@ == old(self).spec_layer(layer),
            final(self).spec_layer(layer) == (*final(r))@,
            forall|other: TileLayer|
                other != layer ==> #[trigger] final(self).spec_layer(other) == old(
                    self,
                ).spec_layer(other),
    {
        match layer {
            TileLayer::Ground => &mut self.ground,
            TileLayer::Object => &mut self.object,
        }
    }

    pub fn get(&self, layer: TileLayer, index: usize) -> (r: TileKind)
        requires
            index < CHUNK_AREA,
        ensures
            r == self.spec_layer(layer)[index as int],
    {
        self.layer(layer).get(index)
    }

    /// Replaces a tile. Returns `false` when it already had that kind.
    pub fn set(&mut self, layer: TileLayer, index: usize, kind: TileKind) -> (changed: bool)
        requires
            index < CHUNK_AREA,
        ensures
            final(self).wf(),
            final(self).spec_layer(layer) == old(self).spec_layer(layer).update(index as int, kind),
            forall|other: TileLayer|
                other != layer ==> #[trigger] final(self).spec_layer(other) == old(
                    self,
                ).spec_layer(other),
            changed == (old(self).spec_layer(layer)[index as int] != kind),
    {
        match layer {
            TileLayer::Ground => self.ground.set(index, kind),
            TileLayer::Object => self.object.set(index, kind),
        }
    }

    /// Is the position at this index impassable: a hole in the ground, or a
    /// solid tile on either layer?
    pub fn is_solid(&self, index: usize) -> (r: bool)
        requires
            index < CHUNK_AREA,
        ensures
            r == self.spec_is_solid(index as int),
    {
        let layers = TileLayer::all();
        let mut i: usize = 0;
        while i < 2
            invariant
                i <= 2,
                index < CHUNK_AREA,
                layers@ == seq![TileLayer::Ground, TileLayer::Object],
                forall|j: int| 0 <= j < i ==> !(#[trigger] layers@[j]).spec_blocks(self.spec_layer(layers@[j])[index as int]),
            decreases 2 - i,
        {
            let layer = layers[i];
            if layer.blocks(self.get(layer, index)) {
                return true;
            }
            i = i + 1;
        }
        false
    }

    /// Impassable local positions, all layers together, in index order.
    pub fn solid_tiles(&self) -> (r: Vec<LocalPos>)
        ensures
            r@ == blocked_positions(|i: int| self.spec_is_solid(i), CHUNK_AREA as int),
    {
        let ghost blocked = |i: int| self.spec_is_solid(i);
        let mut flags: Vec<bool> = Vec::new();
        let mut i: usize = 0;
        while i < CHUNK_AREA
            invariant
                i <= CHUNK_AREA,
                flags@.len() == i,
                forall|j: int| 0 <= j < i ==> #[trigger] flags@[j] == self.spec_is_solid(j),
            decreases CHUNK_AREA - i,
        {
            flags.push(self.is_solid(i));
            i = i + 1;
        }
        collect_positions(&flags, Ghost(blocked))
    }
}

/// Every chunk holds exactly [`CHUNK_AREA`] tiles on each layer.
pub proof fn lemma_tiles_wf(tiles: &ChunkTiles)
    ensures
        tiles.wf(),
{
    lemma_layer_wf(&tiles.ground);
    lemma_layer_wf(&tiles.object);
}

impl Default for ChunkTiles {
    /// Floor everywhere, and nothing on it.
    fn default() -> (r: ChunkTiles)
        ensures
            r.wf(),
            forall|i: int| 0 <= i < CHUNK_AREA ==> #[trigger] r@.0[i] == TileKind::Floor,
            forall|i: int| 0 <= i < CHUNK_AREA ==> #[trigger] r@.1[i] == TileKind::Empty,
    {
        ChunkTiles { ground: ChunkLayer::filled(TileKind::Floor), object: ChunkLayer::filled(TileKind::Empty) }
    }
}

} // verus!
