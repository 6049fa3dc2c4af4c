//! A time-locked deposit vault.
//!
//! Each owner has a vault: a running balance together with a ledger of
//! time-stamped deposit entries. A deposit appends an entry; a withdrawal
//! consumes entries oldest-first, but only entries older than the lock
//! window are eligible, and a request that cannot be satisfied in full
//! leaves the vault entirely unchanged.

pub mod contract;
pub mod error;
pub mod laws;
pub mod msg;
pub mod state;
