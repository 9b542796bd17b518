//! A transaction ledger: replays a stream of deposits, withdrawals, disputes,
//! resolutions and chargebacks against per-client accounts and reports the
//! final balances.

pub mod account;
pub mod amount;
pub mod client;
pub mod engine;
pub mod transaction;

pub use crate::amount::Amount;
pub use crate::engine::Engine;
pub use crate::transaction::Transaction;
