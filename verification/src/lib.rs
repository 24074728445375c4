//! An in-memory bank: named accounts with integer balances, an append-only
//! history of every change, an index from each account to its entries of the
//! history, and a replay that rebuilds a bank from a recorded history.

pub mod account_index;
pub mod error;
pub mod laws;
pub mod ledger;
pub mod model;
pub mod operation;

pub use error::BankError;
pub use ledger::Bank;
pub use operation::Operation;
