//! The ways an engine operation fails. Every failure leaves the engine as it was.
use crate::ledger::LedgerError;
use vstd::prelude::*;

verus! {

#[derive(Debug, Clone, Copy, PartialEq, Eq, Structural)]
pub enum Error {
    /// The components and the weights differ in length.
    LengthMismatch,
    /// The weight percentages do not total exactly 100.
    WeightSumInvalid,
    /// No basket is registered under the id.
    UnknownBasket,
    /// A basket, or an asset, is registered under the id already.
    AlreadyExists,
    /// An account holds less of an asset than the operation moves.
    InsufficientFunds,
    /// The seller holds fewer shares, or fewer shares exist, than are sold.
    InsufficientShares,
    /// The route resolved for a swap is empty.
    NoRouteAvailable,
    /// The router refused or failed a swap.
    SwapFailed,
    /// Only the basket's owner may change its weights.
    NotOwner,
    /// The new weights equal the current ones.
    NoChange,
    /// An asset that the operation moves was never created.
    UnknownAsset,
    /// A balance, a position or a sum would exceed `u128::MAX`.
    Overflow,
}

/// The engine's error for a refused ledger operation.
pub open spec fn from_ledger(e: LedgerError) -> Error {
    match e {
        LedgerError::UnknownAsset => Error::UnknownAsset,
        LedgerError::AssetExists => Error::AlreadyExists,
        LedgerError::InsufficientBalance => Error::InsufficientFunds,
        LedgerError::Overflow => Error::Overflow,
    }
}

/// The engine's error for a refused burn of shares.
pub open spec fn from_burn(e: LedgerError) -> Error {
    match e {
        LedgerError::InsufficientBalance => Error::InsufficientShares,
        _ => from_ledger(e),
    }
}

pub fn ledger_error(e: LedgerError) -> (r: Error)
    ensures
        r == from_ledger(e),
{
    match e {
        LedgerError::UnknownAsset => Error::UnknownAsset,
        LedgerError::AssetExists => Error::AlreadyExists,
        LedgerError::InsufficientBalance => Error::InsufficientFunds,
        LedgerError::Overflow => Error::Overflow,
    }
}

pub fn burn_error(e: LedgerError) -> (r: Error)
    ensures
        r == from_burn(e),
{
    match e {
        LedgerError::InsufficientBalance => Error::InsufficientShares,
        _ => ledger_error(e),
    }
}

} // verus!
