//! A per-client ledger: accounts with a debit limit, an append-only log of
//! debits and credits, and the bounded history ("extract") served to clients.
//!
//! `models` holds the data types, `handlers` the decisions taken for one
//! transaction, and `ledger` an in-memory account store and transaction log
//! that applies those decisions and keeps balance and log consistent.

pub mod handlers;
pub mod ledger;
pub mod models;

pub use handlers::{decide_transaction, description_is_valid, get_new_balance, validate_request};
pub use ledger::{commit_date_after, Ledger, LogEntry, EXTRACT_LEN};
pub use models::{
    ClientData, ClientId, CodeError, ErrorResponse, ExtractData, ExtractResponse, Timestamp,
    TransactionData, TransactionRequest, TransactionResponse, TransactionType,
};
