//! Client side: what the client does with what the server sends.

pub mod terrain;
