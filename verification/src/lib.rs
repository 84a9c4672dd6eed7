//! Core of a multi-room chat backend: a durable store of rooms, sessions,
//! messages and votes, an idempotent vote ledger, a per-room broadcast
//! channel hub, and the dispatcher that ties them together.

pub mod bytekey;
pub mod hub;
pub mod idcodec;
pub mod laws;
pub mod sledspec;
pub mod state;
pub mod store;
pub mod types;
pub mod wire;

use vstd::prelude::*;

verus! {

/// Internal numeric identifier for rooms, sessions and messages.
pub type Id = u64;

} // verus!
