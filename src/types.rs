use vstd::prelude::*;

verus! {

/// Identifier of a token class, assigned by the ledger in creation order.
pub type TokenId = u64;

/// Identifier of an account. Vault accounts of exchanges live in the upper half.
pub type AccountId = u128;

/// An amount of one token class held by one account.
pub type TokenBalance = u64;

/// Identifier of an exchange, assigned in creation order.
pub type ExchangeId = u64;

/// Identifier of a registered currency (a quote asset).
pub type CurrencyId = u64;

} // verus!
