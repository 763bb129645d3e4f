//! Client side of a push-only synchronization protocol.
//!
//! Locally created, content-addressed mutation records are published to a
//! remote store in three steps: opaque chunks first, then a transaction
//! record naming its parent and its chunks, and finally the per-namespace
//! head pointer.  The head is advanced only once everything it refers to is
//! durably stored, so a reader following the head can always resolve the
//! full chain back to the root.

pub mod client;
pub mod codec;
pub mod ids;
pub mod memory;
pub mod protocol;
pub mod transport;
