//! Replays a log of client transactions (deposits, withdrawals, disputes,
//! resolves and chargebacks) against per-client account ledgers.
//!
//! Amounts are fixed-point values counted in ten-thousandths of a unit.
pub mod models;
pub mod processor;
pub mod laws;
pub mod render;
pub mod parse;

pub use models::{Account, AccountView, ErrorKind, ProcessorError, Transaction, TransactionType};
pub use processor::{apply_transaction, process_transactions, replay_transactions, Rejection};

