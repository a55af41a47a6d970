//! Ingestion core for an options-trading protocol on a StarkNet-style chain:
//! decoding of packed contract-call results, all-or-nothing aggregation of
//! per-block fetches, an in-memory merge cache for derived views, and the
//! block-range synchronization state machine.
//!
//! All chain and database access lives outside this crate; the functions here
//! take plain values that the surrounding process fetched and hand back plain
//! values to persist or serve.

pub mod cache;
pub mod chain;
pub mod digits;
pub mod felt;
pub mod roster;
pub mod sync;
pub mod trade;
pub mod types;

use vstd::prelude::*;

verus! {

/// Chain deployment a service instance is bound to.
#[derive(Clone, Copy, PartialEq, Eq, Structural, Debug)]
pub enum Network {
    Mainnet,
    Testnet,
}

} // verus!
