//! The errors an operation can fail with and the events a successful
//! operation reports.

use vstd::prelude::*;

verus! {

/// Why a mutating operation was refused. A refused operation changes nothing.
#[derive(Clone, Copy, Debug, PartialEq, Eq, Structural)]
pub enum Error {
    /// The caller of `mint`, `burn` or `pause` is not the token's owner
    /// (or no such token was ever created).
    NotTokenOwner,
    /// A balance or the supply is too small for the requested debit.
    InsufficientAmount,
    /// An addition would exceed the representable range of an amount or of
    /// the token counter.
    ArithmeticOverflow,
}

/// What a successful operation reports: exactly one event per commit.
///
/// `Approval` belongs to the event vocabulary of the ledger but no operation
/// of this core emits it; the allowance store is declared, never written.
#[derive(Clone, Copy, Debug, PartialEq, Eq, Structural)]
pub enum Event {
    /// A token was created: (token, caller).
    Created(u32, u64),
    /// Supply was burned: (token, burner, amount).
    Burn(u32, u64, u64),
    /// Supply was minted: (token, minter, amount).
    Mint(u32, u64, u64),
    /// Value moved between accounts: (token, from, to, amount).
    Transfer(u32, u64, u64, u64),
    /// Value moved by delegated transfer: (token, from, to, amount).
    TransferFrom(u32, u64, u64, u64),
    /// An allowance was approved: (token, account, spender, amount).
    Approval(u32, u64, u64, u64),
    /// The pause flag was set: (token, new status).
    PausedOperation(u32, bool),
}

} // verus!
