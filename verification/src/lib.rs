//! Escrow marketplace engine: a deal ledger, a user registry with withdrawable
//! balances, and a dispute handoff protocol, all governed by a verified state
//! machine.
//!
//! The engine is deliberately environment-free.  The hosting environment
//! supplies the caller identity and the current time as arguments, and carries
//! out the token and arbitration calls that an operation returns as
//! [`actions`] values.  Every value-moving operation mutates the ledger before
//! it hands out the external call, so the classic reentrancy window is closed
//! by construction.

pub mod actions;
pub mod errors;
pub mod laws;
pub mod marketplace;
pub mod records;
pub mod table;
