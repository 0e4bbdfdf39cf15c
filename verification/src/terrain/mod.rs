//! Terrain made of tiles, cut into square chunks.

pub mod chunk;
pub mod collider;
pub mod index;
pub mod tile;
