//! The error taxonomy of the ledger core.
//!
//! Validation errors (`InvalidIntent`, `CurrencyMismatch`) are resolved
//! before any store access. `InsufficientFunds` and
//! `DuplicateIdempotencyKey` are business outcomes expected in normal
//! operation. `Unbalanced` and `StorageFailure` signal an invariant
//! violation or infrastructure trouble.

use vstd::prelude::*;

verus! {

/// The specific validation rule an intent broke.
#[derive(Clone, Copy, Debug, PartialEq, Eq, Structural)]
pub enum IntentRule {
    /// The amount must be strictly positive.
    NonPositiveAmount,
    /// A deposit needs a destination account.
    MissingDestination,
    /// A deposit must not name a source account.
    UnexpectedSource,
    /// A withdrawal or transfer needs a source account.
    MissingSource,
    /// A withdrawal must not name a destination account.
    UnexpectedDestination,
    /// A transfer's source and destination must differ.
    SameSourceAndDestination,
    /// The idempotency key must be non-empty.
    EmptyIdempotencyKey,
}

/// Everything a ledger operation can fail with.
#[derive(Clone, Debug)]
pub enum LedgerError {
    /// The intent broke a validation rule; nothing was read or written.
    InvalidIntent(IntentRule),
    /// A referenced account is not registered with the wallet service.
    AccountNotFound(u128),
    /// A transfer references two accounts of different currencies.
    CurrencyMismatch,
    /// The source account's balance does not cover the requested amount.
    InsufficientFunds { account_id: u128, required: i64, available: i64 },
    /// The idempotency key was already committed; carries the prior
    /// transaction identifier.
    DuplicateIdempotencyKey(u128),
    /// The entry set does not sum to zero; carries the offending sum.
    Unbalanced(i128),
    /// Infrastructure trouble, or a value outside the store's
    /// representable range.
    StorageFailure(StorageFault),
}

/// The cause of a `StorageFailure`.
#[derive(Clone, Copy, Debug, PartialEq, Eq, Structural)]
pub enum StorageFault {
    /// An entry amount lies outside the accepted range.
    AmountOutOfRange,
    /// Committing would push an account's cumulative activity past the
    /// representable capacity.
    CapacityExceeded,
    /// A freshly drawn identifier collided with an existing one.
    IdentifierCollision,
    /// The backing store failed for a reason of its own.
    Backend,
}

} // verus!
