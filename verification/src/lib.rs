//! Verified core of ProjectTheta, a 2D multiplayer game: the tile terrain cut
//! into chunks and its run-length encoding, the index of loaded chunks, the
//! static game data tables, the token request protocol, the server's chunk
//! subscriptions, the client's staging of terrain updates and the integer
//! hashing behind world generation.

pub mod client;
pub mod collections;
pub mod data;
pub mod protocol;
pub mod render;
pub mod server;
pub mod sim;
pub mod terrain;
pub mod worldgen;
