//! A verified asset-lifecycle ledger for digital collectibles ("kitties"):
//! monotonic id allocation, ownership indexing, deterministic genetic
//! combination, a stake-backed marketplace, and a separate claim registry.

pub mod genome;
pub mod kitties;
pub mod ledger;
pub mod poe;
