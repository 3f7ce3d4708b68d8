//! A schema-migration runner for an embedded, file-backed store.
//!
//! A migration is a versioned script; the runner reconciles an ordered list
//! of migrations against the store's ledger of already-applied versions and
//! applies exactly the missing suffix, in ascending version order, recording
//! each version only after its script has committed.

pub mod laws;
pub mod migration;
pub mod runner;
pub mod store;
