// A verified transaction-replay ledger: deposits, withdrawals and
// dispute/resolve/chargeback actions applied to per-client accounts.

pub mod account;
pub mod amount;
pub mod engine;
pub mod history;
pub mod laws;
pub mod tx;
