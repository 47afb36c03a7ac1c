//! A deterministic replay engine for ledger-hosted smart contracts.
//!
//! A contract lives on an append-only ledger as a transaction carrying its
//! source and initial state; its invocations ("interactions") are further
//! transactions carrying JSON inputs.  The engine replays all interactions
//! addressed to a contract in a canonical order, folding them into a state
//! and a validity table, with an optional cache for incremental resumption.

pub mod interaction;
pub mod order;
pub mod sort_key;
pub mod validity;
pub mod json;
pub mod cache;
pub mod loader;
pub mod engine;
pub mod laws;
