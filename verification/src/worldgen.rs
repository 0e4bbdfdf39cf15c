//! Integer side of world generation.
//!
//! Every tile is a pure function of `(seed, global coordinate)`: a chunk is
//! computed alone, without knowing its neighbours, and still joins them
//! seamlessly. The value noise that shapes the terrain is floating-point and
//! lives with the game's runtime; its lattice values come from the hashing
//! below, and its verdicts (is this tile in the spawn clearing, is the noise
//! above the wall or hole threshold) are turned into tiles here.

use vstd::prelude::*;

use crate::terrain::tile::{TileKind, TileLayer};

verus! {

/// Salt of the holes' seed: their noise is independent from the walls',
/// which keep the seed as it is.
pub const HOLE_SALT: u64 = 0x486F_6C65;

/// Addition modulo 2^64.
pub open spec fn add64(a: u64, b: u64) -> u64 {
    ((a + b) % 0x1_0000_0000_0000_0000) as u64
}

/// Multiplication modulo 2^64.
pub open spec fn mul64(a: u64, b: u64) -> u64 {
    ((a * b) % 0x1_0000_0000_0000_0000) as u64
}

/// SplitMix64's finaliser: mixes every bit of an integer.
pub open spec fn spec_splitmix64(x: u64) -> u64 {
    let a = add64(x, 0x9E37_79B9_7F4A_7C15);
    let b = mul64(a ^ (a >> 30u64), 0xBF58_476D_1CE4_E5B9);
    let c = mul64(b ^ (b >> 27u64), 0x94D0_49BB_1331_11EB);
    c ^ (c >> 31u64)
}

/// SplitMix64's finaliser: mixes every bit of an integer.
///
/// Written here rather than borrowed from a random-number crate, whose
/// algorithms are not guaranteed stable across versions: the same seed
/// must give the same world after an update.
pub fn splitmix64(x: u64) -> (r: u64)
    ensures
        r == spec_splitmix64(x),
{
    let a = x.wrapping_add(0x9E37_79B9_7F4A_7C15);
    let b = (a ^ (a >> 30u64)).wrapping_mul(0xBF58_476D_1CE4_E5B9);
    let c = (b ^ (b >> 27u64)).wrapping_mul(0x94D0_49BB_1331_11EB);
    c ^ (c >> 31u64)
}

/// Key of a lattice node: the bits of both coordinates side by side.
pub open spec fn spec_node_key(x: i32, y: i32) -> u64 {
    (x as u32 as u64) | ((y as u32 as u64) << 32u64)
}

/// The 24 high bits of a lattice node's hash; divided by 2^24 they give the
/// node's value in `[0, 1)`.
pub open spec fn spec_lattice_bits(seed: u64, x: i32, y: i32, octave: u32) -> u64 {
    spec_splitmix64(seed ^ spec_splitmix64(spec_node_key(x, y) ^ spec_splitmix64(octave as u64)))
        >> 40u64
}

/// Hash of a lattice node, reduced to the 24 bits that a `f32` mantissa
/// holds exactly.
pub fn lattice_bits(seed: u64, x: i32, y: i32, octave: u32) -> (r: u64)
    ensures
        r == spec_lattice_bits(seed, x, y, octave),
        r < 0x100_0000,
{
    let key = (x as u32 as u64) | ((y as u32 as u64) << 32u64);
    let hash = splitmix64(seed ^ splitmix64(key ^ splitmix64(octave as u64)));
    let bits = hash >> 40u64;
    assert(hash >> 40u64 < 0x100_0000) by (bit_vector);
    bits
}

/// Seed of the holes' noise, derived from the world's seed.
pub fn hole_seed(seed: u64) -> (r: u64)
    ensures
        r == spec_splitmix64(seed ^ HOLE_SALT),
{
    splitmix64(seed ^ HOLE_SALT)
}

/// Where the noise puts a wall: outside the spawn clearing, when the walls'
/// noise is above its threshold.
pub open spec fn spec_is_wall(in_clearing: bool, wall_noise_high: bool) -> bool {
    !in_clearing && wall_noise_high
}

/// Where the noise digs a hole: outside the spawn clearing, never under a
/// wall, when the holes' noise is above its threshold.
pub open spec fn spec_is_hole(in_clearing: bool, wall_noise_high: bool, hole_noise_high: bool) -> bool {
    !in_clearing && !spec_is_wall(in_clearing, wall_noise_high) && hole_noise_high
}

/// What the generator puts at one position, both layers together.
pub open spec fn spec_generated(layer: TileLayer, in_clearing: bool, wall_noise_high: bool, hole_noise_high: bool) -> TileKind {
    match layer {
        TileLayer::Ground => if spec_is_hole(in_clearing, wall_noise_high, hole_noise_high) {
            TileKind::Empty
        } else {
            TileKind::Floor
        },
        TileLayer::Object => if spec_is_wall(in_clearing, wall_noise_high) {
            TileKind::Wall
        } else {
            TileKind::Empty
        },
    }
}

/// Kind of a tile of a layer, from what the noise says at its position.
///
/// Walls stand on the object layer. The ground is floor everywhere except
/// where the holes' noise removes it; a wall, which takes precedence, always
/// stands on floor.
pub fn tile_from_noise(
    layer: TileLayer,
    in_clearing: bool,
    wall_noise_high: bool,
    hole_noise_high: bool,
) -> (r: TileKind)
    ensures
        r == spec_generated(layer, in_clearing, wall_noise_high, hole_noise_high),
        layer == TileLayer::Ground ==> (r == TileKind::Floor || r == TileKind::Empty),
        layer == TileLayer::Ground ==> (r == TileKind::Empty <==> !in_clearing && !wall_noise_high
            && hole_noise_high),
        layer == TileLayer::Object ==> (r == TileKind::Wall || r == TileKind::Empty),
        layer == TileLayer::Object ==> (r == TileKind::Wall <==> !in_clearing && wall_noise_high),
{
    let wall = !in_clearing && wall_noise_high;
    let hole = !in_clearing && !wall && hole_noise_high;
    match layer {
        TileLayer::Ground => if hole {
            TileKind::Empty
        } else {
            TileKind::Floor
        },
        TileLayer::Object => if wall {
            TileKind::Wall
        } else {
            TileKind::Empty
        },
    }
}

/// A wall always stands on floor, and the spawn clearing is always
/// walkable: floor on the ground, nothing on it.
pub proof fn lemma_generated_terrain_is_sound(in_clearing: bool, wall_noise_high: bool, hole_noise_high: bool)
    ensures
        spec_generated(TileLayer::Object, in_clearing, wall_noise_high, hole_noise_high)
            == TileKind::Wall ==> spec_generated(TileLayer::Ground, in_clearing, wall_noise_high, hole_noise_high)
            == TileKind::Floor,
        in_clearing ==> spec_generated(TileLayer::Object, in_clearing, wall_noise_high, hole_noise_high)
            == TileKind::Empty && spec_generated(TileLayer::Ground, in_clearing, wall_noise_high, hole_noise_high)
            == TileKind::Floor,
{
}

/// Each layer follows its own noise. A wall stands exactly where the walls'
/// noise is above its threshold outside the clearing, and nothing stands
/// anywhere else. The ground is a hole exactly where the holes' noise is
/// above its threshold, outside the clearing and under no wall; everywhere
/// else it is floor. In particular the ground is never a hole where the
/// holes' noise is low.
pub proof fn lemma_generated_tiles_follow_the_noise(
    in_clearing: bool,
    wall_noise_high: bool,
    hole_noise_high: bool,
)
    ensures
        spec_generated(TileLayer::Object, in_clearing, wall_noise_high, hole_noise_high)
            == TileKind::Wall <==> !in_clearing && wall_noise_high,
        spec_generated(TileLayer::Object, in_clearing, wall_noise_high, hole_noise_high)
            == TileKind::Wall || spec_generated(
            TileLayer::Object,
            in_clearing,
            wall_noise_high,
            hole_noise_high,
        ) == TileKind::Empty,
        spec_generated(TileLayer::Ground, in_clearing, wall_noise_high, hole_noise_high)
            == TileKind::Empty <==> !in_clearing && !wall_noise_high && hole_noise_high,
        spec_generated(TileLayer::Ground, in_clearing, wall_noise_high, hole_noise_high)
            == TileKind::Floor || spec_generated(
            TileLayer::Ground,
            in_clearing,
            wall_noise_high,
            hole_noise_high,
        ) == TileKind::Empty,
        !hole_noise_high ==> spec_generated(
            TileLayer::Ground,
            in_clearing,
            wall_noise_high,
            hole_noise_high,
        ) == TileKind::Floor,
{
}

} // verus!
