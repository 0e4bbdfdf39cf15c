//! Tile and chunk coordinates, and the row-major order of tiles in a chunk.

use vstd::prelude::*;

verus! {

/// Side of a chunk, in tiles.
pub const CHUNK_SIZE: u32 = 32;

/// Number of tiles in a chunk.
pub const CHUNK_AREA: usize = 1024;

/// Position of a tile inside its chunk, each axis in `0..CHUNK_SIZE`.
#[derive(Clone, Copy, Debug, Default, PartialEq, Eq, Hash, Structural)]
pub struct LocalPos {
    pub x: u32,
    pub y: u32,
}

impl LocalPos {
    pub fn new(x: u32, y: u32) -> (r: LocalPos)
        ensures
            r.x == x,
            r.y == y,
    {
        LocalPos { x, y }
    }

    /// Both axes lie inside a chunk.
    pub open spec fn in_chunk(self) -> bool {
        self.x < CHUNK_SIZE && self.y < CHUNK_SIZE
    }
}

/// Row-major index, y upwards, of a local position.
pub open spec fn spec_local_to_index(local: LocalPos) -> int {
    local.y * CHUNK_SIZE + local.x
}

/// Local position of a row-major index.
pub open spec fn spec_index_to_local(index: int) -> LocalPos {
    LocalPos { x: (index % (CHUNK_SIZE as int)) as u32, y: (index / (CHUNK_SIZE as int)) as u32 }
}

/// Row-major index, y upwards, of a local position.
pub fn local_to_index(local: LocalPos) -> (r: usize)
    requires
        spec_local_to_index(local) <= u32::MAX,
    ensures
        r as int == spec_local_to_index(local),
        local.in_chunk() ==> r < CHUNK_AREA,
{
    (local.y * CHUNK_SIZE + local.x) as usize
}

/// Inverse of [`local_to_index`], on the index taken as a `u32`.
pub fn index_to_local(index: usize) -> (r: LocalPos)
    ensures
        r == spec_index_to_local(index as u32 as int),
        index < CHUNK_AREA ==> r == spec_index_to_local(index as int) && r.in_chunk(),
{
    let i = index as u32;
    LocalPos { x: i % CHUNK_SIZE, y: i / CHUNK_SIZE }
}

/// The two orders agree: an index and a local position are one and the same.
pub proof fn lemma_index_local_bijection(index: int, local: LocalPos)
    ensures
        0 <= index < CHUNK_AREA ==> spec_index_to_local(index).in_chunk()
            && spec_local_to_index(spec_index_to_local(index)) == index,
        local.in_chunk() ==> 0 <= spec_local_to_index(local) < CHUNK_AREA
            && spec_index_to_local(spec_local_to_index(local)) == local,
{
}


/// Nature of a tile for the simulation.
#[derive(Clone, Copy, Debug, Default, PartialEq, Eq, Hash, Structural)]
pub enum TileKind {
    /// Nothing: on the ground layer, a hole; on the object layer, free space.
    #[default]
    Empty,
    /// Walkable ground.
    Floor,
    /// Impassable wall.
    Wall,
}

impl TileKind {
    pub open spec fn spec_is_solid(self) -> bool {
        self == TileKind::Wall
    }

    /// Does the tile block the way?
    #[verifier::when_used_as_spec(spec_is_solid)]
    pub fn is_solid(self) -> (r: bool)
        ensures
            r == (self == TileKind::Wall),
    {
        match self {
            TileKind::Wall => true,
            _ => false,
        }
    }
}

/// Layers of a chunk, drawn and stored one above the other.
#[derive(Clone, Copy, Debug, PartialEq, Eq, Hash, Structural)]
pub enum TileLayer {
    /// The ground: floor, or a hole where it is `Empty`.
    Ground,
    /// What stands on the ground: walls, or nothing.
    Object,
}

impl TileLayer {
    pub open spec fn spec_blocks(self, kind: TileKind) -> bool {
        match self {
            TileLayer::Ground => kind == TileKind::Empty || kind.spec_is_solid(),
            TileLayer::Object => kind.spec_is_solid(),
        }
    }

    /// Does a tile of this kind on this layer block the way: a hole in the
    /// ground, or a solid tile on any layer?
    #[verifier::when_used_as_spec(spec_blocks)]
    pub fn blocks(self, kind: TileKind) -> (r: bool)
        ensures
            r == self.spec_blocks(kind),
    {
        match self {
            TileLayer::Ground => kind == TileKind::Empty || kind.is_solid(),
            TileLayer::Object => kind.is_solid(),
        }
    }

    /// Every layer, in storage and drawing order.
    pub fn all() -> (r: [TileLayer; 2])
        ensures
            r@ == seq![TileLayer::Ground, TileLayer::Object],
    {
        [TileLayer::Ground, TileLayer::Object]
    }
}

/// Floor division of a coordinate by the chunk side.
pub open spec fn chunk_of(v: int) -> int {
    v / (CHUNK_SIZE as int)
}

/// Offset of a coordinate inside its chunk, in `0..CHUNK_SIZE`.
pub open spec fn offset_in_chunk(v: int) -> int {
    v % (CHUNK_SIZE as int)
}

/// Coordinate of a tile in the world, in tiles.
#[derive(Clone, Copy, Debug, Default, PartialEq, Eq, Hash, Structural)]
pub struct TileCoord {
    pub x: i32,
    pub y: i32,
}

/// Coordinate of a chunk, in chunks.
#[derive(Clone, Copy, Debug, Default, PartialEq, Eq, Hash, Structural)]
pub struct ChunkCoord {
    pub x: i32,
    pub y: i32,
}

impl TileCoord {
    pub fn new(x: i32, y: i32) -> (r: TileCoord)
        ensures
            r.x == x,
            r.y == y,
    {
        TileCoord { x, y }
    }

    pub open spec fn spec_chunk(self) -> ChunkCoord {
        ChunkCoord { x: chunk_of(self.x as int) as i32, y: chunk_of(self.y as int) as i32 }
    }

    pub open spec fn spec_local(self) -> LocalPos {
        LocalPos {
            x: offset_in_chunk(self.x as int) as u32,
            y: offset_in_chunk(self.y as int) as u32,
        }
    }

    /// Chunk that holds the tile (floor division, also below zero).
    pub fn chunk(self) -> (r: ChunkCoord)
        ensures
            r == self.spec_chunk(),
            r.x == chunk_of(self.x as int),
            r.y == chunk_of(self.y as int),
    {
        let size = CHUNK_SIZE as i32;
        let x = match self.x.checked_div_euclid(size) {
            Some(v) => v,
            None => 0,
        };
        let y = match self.y.checked_div_euclid(size) {
            Some(v) => v,
            None => 0,
        };
        ChunkCoord { x, y }
    }

    /// Position of the tile inside its chunk, from `0` to `CHUNK_SIZE - 1`.
    pub fn local(self) -> (r: LocalPos)
        ensures
            r == self.spec_local(),
            r.in_chunk(),
            r.x == offset_in_chunk(self.x as int),
            r.y == offset_in_chunk(self.y as int),
    {
        let size = CHUNK_SIZE as i32;
        let x = match self.x.checked_rem_euclid(size) {
            Some(v) => v,
            None => 0,
        };
        let y = match self.y.checked_rem_euclid(size) {
            Some(v) => v,
            None => 0,
        };
        LocalPos { x: x as u32, y: y as u32 }
    }

    /// Index of the tile in its chunk's row-major storage.
    pub fn local_index(self) -> (r: usize)
        ensures
            r as int == spec_local_to_index(self.spec_local()),
            r < CHUNK_AREA,
    {
        local_to_index(self.local())
    }
}

impl ChunkCoord {
    pub fn new(x: i32, y: i32) -> (r: ChunkCoord)
        ensures
            r.x == x,
            r.y == y,
    {
        ChunkCoord { x, y }
    }

    /// The tile at `local` in this chunk, and the chunk's first tile, lie
    /// inside the `i32` range, and so does the local position.
    pub open spec fn tile_fits(self, local: LocalPos) -> bool {
        &&& local.x <= i32::MAX && local.y <= i32::MAX
        &&& i32::MIN <= self.x * CHUNK_SIZE <= i32::MAX
        &&& i32::MIN <= self.y * CHUNK_SIZE <= i32::MAX
        &&& i32::MIN <= self.x * CHUNK_SIZE + local.x <= i32::MAX
        &&& i32::MIN <= self.y * CHUNK_SIZE + local.y <= i32::MAX
    }

    pub open spec fn spec_tile(self, local: LocalPos) -> TileCoord {
        TileCoord {
            x: (self.x * CHUNK_SIZE + local.x) as i32,
            y: (self.y * CHUNK_SIZE + local.y) as i32,
        }
    }

    /// Tile of the chunk at a given local position.
    pub fn tile(self, local: LocalPos) -> (r: TileCoord)
        requires
            self.tile_fits(local),
        ensures
            r == self.spec_tile(local),
    {
        let size = CHUNK_SIZE as i64;
        let x = self.x as i64 * size + local.x as i64;
        let y = self.y as i64 * size + local.y as i64;
        TileCoord { x: x as i32, y: y as i32 }
    }

    /// Chebyshev distance between two chunks stays inside `i32`.
    pub open spec fn distance_fits(self, other: ChunkCoord) -> bool {
        i32::MIN < self.x - other.x <= i32::MAX && i32::MIN < self.y - other.y <= i32::MAX
    }

    pub open spec fn spec_distance(self, other: ChunkCoord) -> int {
        let dx = self.x - other.x;
        let dy = self.y - other.y;
        let ax = if dx < 0 { -dx } else { dx };
        let ay = if dy < 0 { -dy } else { dy };
        if ax < ay { ay } else { ax }
    }

    /// Chebyshev distance, in chunks: `1` for each of the eight neighbours.
    pub fn distance(self, other: ChunkCoord) -> (r: u32)
        requires
            self.distance_fits(other),
        ensures
            r == self.spec_distance(other),
    {
        let dx = self.x as i64 - other.x as i64;
        let dy = self.y as i64 - other.y as i64;
        let ax = if dx < 0 { -dx } else { dx };
        let ay = if dy < 0 { -dy } else { dy };
        let m = if ax < ay { ay } else { ax };
        m as u32
    }
}

/// Number of distinct values of an `i32`, and the stride of a chunk key.
pub const KEY_STRIDE: u64 = 0x1_0000_0000;

/// Key of a chunk in hash collections: both coordinates, shifted to be
/// non-negative, side by side in one `u64`.
pub open spec fn spec_chunk_key(c: ChunkCoord) -> u64 {
    ((c.x - i32::MIN) * KEY_STRIDE + (c.y - i32::MIN)) as u64
}

/// Chunk whose key this is.
pub open spec fn spec_chunk_of_key(key: u64) -> ChunkCoord {
    ChunkCoord {
        x: (key / KEY_STRIDE + i32::MIN) as i32,
        y: (key % KEY_STRIDE + i32::MIN) as i32,
    }
}

/// Keys and chunks are in one-to-one correspondence.
pub proof fn lemma_chunk_key_bijection(c: ChunkCoord, key: u64)
    ensures
        spec_chunk_of_key(spec_chunk_key(c)) == c,
        spec_chunk_key(spec_chunk_of_key(key)) == key,
{
    let a = c.x - i32::MIN;
    let b = c.y - i32::MIN;
    assert(0 <= a < KEY_STRIDE && 0 <= b < KEY_STRIDE);
    assert(0 <= a * KEY_STRIDE + b <= u64::MAX) by (nonlinear_arith)
        requires 0 <= a < KEY_STRIDE, 0 <= b < KEY_STRIDE, KEY_STRIDE == 0x1_0000_0000;
    assert((a * KEY_STRIDE + b) / (KEY_STRIDE as int) == a) by (nonlinear_arith)
        requires 0 <= b < KEY_STRIDE, KEY_STRIDE == 0x1_0000_0000;
    assert((a * KEY_STRIDE + b) % (KEY_STRIDE as int) == b) by (nonlinear_arith)
        requires 0 <= b < KEY_STRIDE, KEY_STRIDE == 0x1_0000_0000;
    assert(key == (key / KEY_STRIDE) * KEY_STRIDE + key % KEY_STRIDE) by (nonlinear_arith)
        requires KEY_STRIDE == 0x1_0000_0000;
    assert(key / KEY_STRIDE < KEY_STRIDE) by (nonlinear_arith)
        requires KEY_STRIDE == 0x1_0000_0000, key <= u64::MAX;
}

/// Two chunks share a key only if they are the same chunk.
pub proof fn lemma_chunk_key_injective(a: ChunkCoord, b: ChunkCoord)
    ensures
        spec_chunk_key(a) == spec_chunk_key(b) ==> a == b,
{
    lemma_chunk_key_bijection(a, 0);
    lemma_chunk_key_bijection(b, 0);
}

impl ChunkCoord {
    /// Key of the chunk in hash collections.
    pub fn key(self) -> (r: u64)
        ensures
            r == spec_chunk_key(self),
    {
        proof {
            lemma_chunk_key_bijection(self, 0);
        }
        let a = (self.x as i64 - i32::MIN as i64) as u64;
        let b = (self.y as i64 - i32::MIN as i64) as u64;
        proof {
            assert(a * KEY_STRIDE + b <= u64::MAX) by (nonlinear_arith)
                requires a < KEY_STRIDE, b < KEY_STRIDE, KEY_STRIDE == 0x1_0000_0000;
        }
        a * KEY_STRIDE + b
    }

    /// Chunk whose key this is.
    pub fn from_key(key: u64) -> (r: ChunkCoord)
        ensures
            r == spec_chunk_of_key(key),
    {
        proof {
            lemma_chunk_key_bijection(ChunkCoord { x: 0, y: 0 }, key);
            assert(key / KEY_STRIDE < KEY_STRIDE) by (nonlinear_arith)
                requires KEY_STRIDE == 0x1_0000_0000, key <= u64::MAX;
        }
        let x = (key / KEY_STRIDE) as i64 + i32::MIN as i64;
        let y = (key % KEY_STRIDE) as i64 + i32::MIN as i64;
        ChunkCoord { x: x as i32, y: y as i32 }
    }
}

/// A tile is the tile, in its chunk, at its local position; and its local
/// index names that same local position.
pub proof fn lemma_chunk_local_round_trip(coord: TileCoord)
    ensures
        coord.spec_local().in_chunk(),
        coord.spec_chunk().tile_fits(coord.spec_local()),
        coord.spec_chunk().spec_tile(coord.spec_local()) == coord,
        spec_index_to_local(spec_local_to_index(coord.spec_local())) == coord.spec_local(),
{
    let c = coord.spec_chunk();
    let l = coord.spec_local();
    assert(chunk_of(coord.x as int) * 32 + offset_in_chunk(coord.x as int) == coord.x);
    assert(chunk_of(coord.y as int) * 32 + offset_in_chunk(coord.y as int) == coord.y);
}

/// A tile built from a chunk and a local position lies in that chunk, at
/// that position.
pub proof fn lemma_tile_chunk_round_trip(chunk: ChunkCoord, local: LocalPos)
    requires
        local.in_chunk(),
        chunk.tile_fits(local),
    ensures
        chunk.spec_tile(local).spec_chunk() == chunk,
        chunk.spec_tile(local).spec_local() == local,
{
    let t = chunk.spec_tile(local);
    assert((chunk.x * 32 + local.x) / 32 == chunk.x) by (nonlinear_arith)
        requires 0 <= local.x < 32;
    assert((chunk.x * 32 + local.x) % 32 == local.x) by (nonlinear_arith)
        requires 0 <= local.x < 32;
    assert((chunk.y * 32 + local.y) / 32 == chunk.y) by (nonlinear_arith)
        requires 0 <= local.y < 32;
    assert((chunk.y * 32 + local.y) % 32 == local.y) by (nonlinear_arith)
        requires 0 <= local.y < 32;
}

} // verus!
