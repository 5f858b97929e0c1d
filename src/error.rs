use vstd::prelude::*;

use crate::ledger::LedgerError;

verus! {

/// Why an exchange operation refused to run. A refused operation changes
/// nothing.
#[derive(Clone, Copy, Debug, PartialEq, Eq, Structural)]
pub enum DexError {
    /// An amount left the range of its type.
    Overflow,
    /// No exchange is registered under the identifier.
    InvalidExchangeId,
    /// No currency is registered under the identifier.
    InvalidCurrencyId,
    /// A maximum quote amount of zero was given.
    InvalidMaxCurrency,
    /// The quote amount paid out falls below the caller's minimum.
    InsufficientCurrencyAmount,
    /// A token amount is zero, or falls below the caller's minimum.
    InsufficientTokenAmount,
    /// The quote asset itself cannot be pooled against itself.
    SameCurrencyAndToken,
    /// The quote amount required exceeds the caller's maximum.
    MaxCurrencyAmountExceeded,
    /// A first deposit of quote into a pool is below the minimum.
    InvalidCurrencyAmount,
    /// A pool or reserve is empty, or too small for the request.
    InsufficientLiquidity,
    /// A requested output amount is zero.
    InsufficientOutputAmount,
    /// An input amount is zero.
    InsufficientInputAmount,
    /// Two arrays that go together have different lengths.
    ArrayLengthMismatch,
    /// A ledger movement failed.
    Ledger(LedgerError),
}

} // verus!
