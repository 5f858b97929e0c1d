//! Accounting core of a deterministic state machine: a multi-asset ledger and
//! a bonding-curve exchange that prices token pools against a quote asset.

pub mod types;
pub mod error;
pub mod ledger;
pub mod quote;
pub mod pools;
pub mod exchange;
