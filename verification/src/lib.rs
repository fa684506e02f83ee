//! A multi-asset token ledger.
//!
//! Accounts create independent fungible tokens, hold balances of them, move
//! value directly or by delegated transfer, mint and burn supply, and toggle a
//! per-token pause flag, all under single-owner gating of the privileged
//! operations. The ledger is a single-writer state machine: every mutating
//! operation either commits all of its updates and reports one event, or
//! fails with a typed error and changes nothing.
//!
//! The surrounding collaborators (caller authentication, the block clock,
//! durable storage, event publication) stay outside this crate; operations
//! take an already-authenticated caller identity and the current block number
//! as plain values and hand the resulting event back to the caller.

pub mod balances;
pub mod events;
pub mod laws;
pub mod ledger;
