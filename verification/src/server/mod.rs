//! Server side: which chunks each client is subscribed to, the chunks that
//! links discover during a tick, and what the tile edits of a tick send and
//! keep.

pub mod discovered;
pub mod edits;
pub mod subscriptions;
