//! A multi-signature wallet: a set of signers approves proposed transactions,
//! which execute once a quorum threshold of distinct approvals is reached.
//!
//! The wallet is a state machine over an in-memory store. Verifying who the
//! caller is and reading the ledger clock are the host's business: the
//! operations take the outcome of that verification and the current time as
//! plain arguments.

pub mod types;
pub mod state;
pub mod contract;
pub mod laws;

pub use types::{Address, DataKey, MultiSigError, Transaction, TransactionStatus};
pub use contract::MultiSigContract;
