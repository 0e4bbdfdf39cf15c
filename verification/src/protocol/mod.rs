//! Network protocol shared by the client and the server.

pub mod terrain;
pub mod token;

