//! A transactional ledger core: balanced double-entry bookkeeping with
//! idempotent execution and reconciliation.
//!
//! Money amounts are exact signed integers in minor units (for example,
//! cents), so arithmetic is exact and free of rounding drift. Account and
//! transaction identifiers are 128-bit integers.

pub mod errors;
pub mod store;
pub mod memory_store;
pub mod wallet;
pub mod outside;
pub mod reconciliation;
pub mod laws;
