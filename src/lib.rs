//! A fixed-supply distribution engine: a pool of pre-registered items that
//! callers claim one at a time, in random order, optionally gated by a Merkle
//! allowlist and with proceeds held in escrow until a thaw.

pub mod allocator;
pub mod record_store;
pub mod allowlist;
pub mod escrow;
pub mod engine;
pub mod metadata;
pub mod deploy;
