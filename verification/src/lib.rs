//! A verified account-ledger core: a fixed set of accounts with signed
//! balances and per-account overdraft limits, an atomic transaction-posting
//! operation that enforces those limits, and a consistent statement view of
//! the most recent transactions.

pub mod laws;
pub mod ledger;
pub mod validate;
