//! A fungible-token ledger with delegated spending. Balances and allowances
//! live in plain stores with proved invariants; the calling account is an
//! explicit argument of each operation, and event records go to a log that
//! the caller hands in.
pub mod account;
pub mod ledger;
pub mod allowance;
pub mod erc20;
pub mod laws;
