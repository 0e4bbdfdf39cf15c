//! Simulation settings shared by the client and the server: tick rate,
//! collision layers and spawn slots.

use vstd::prelude::*;

verus! {

/// Simulation rate, in ticks per second.
pub const TICK_HZ: u32 = 60;

/// Length of a tick in nanoseconds, derived from [`TICK_HZ`].
pub fn tick_nanos() -> (r: u64)
    ensures
        r == 1_000_000_000u64 / (TICK_HZ as u64),
{
    1_000_000_000u64 / (TICK_HZ as u64)
}

/// Collision layers of the game.
#[derive(Clone, Copy, Debug, Default, PartialEq, Eq, Structural)]
pub enum GameLayer {
    /// Default layer of the physics engine, reserved.
    #[default]
    Default,
    /// Players: they do not block each other, only the terrain blocks them.
    Player,
    /// Terrain chunks, static.
    Terrain,
}

/// Number of spawn positions on the ring before a new round begins.
pub const SPAWN_SLOTS: u32 = 8;

/// Slot on the spawn ring of the `index`-th player: players are spread
/// around the ring, so that two players never overlap when they arrive.
pub fn spawn_slot(index: u32) -> (r: u32)
    ensures
        r == index % SPAWN_SLOTS,
        r < SPAWN_SLOTS,
{
    index % SPAWN_SLOTS
}

/// Among any [`SPAWN_SLOTS`] consecutive players, no two share a slot.
pub proof fn lemma_consecutive_players_spread(first: u32, i: u32, j: u32)
    requires
        first <= i < j < first + SPAWN_SLOTS,
    ensures
        i % SPAWN_SLOTS != j % SPAWN_SLOTS,
{
}

} // verus!
