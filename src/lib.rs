//! A single-node ledger: transactions grouped into blocks, each block
//! committing to its transactions through a Merkle root and admitted after a
//! proof-of-work search, with balances kept from the mined transactions.
//!
//! `text` renders numbers and quoted strings, `digest` hashes text,
//! `transaction` and `block` hold the records, `ledger` the chain and the
//! balance table, and `laws` states what holds across operations.

pub mod text;
pub mod digest;
pub mod transaction;
pub mod block;
pub mod ledger;
pub mod laws;
