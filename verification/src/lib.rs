//! A verified payments ledger. [`engine`] holds the transaction state
//! machine and its mathematical model, [`laws`] the guarantees proved of
//! every state and transaction, and [`render`] the canonical text form of
//! the final account table.

pub mod engine;
pub mod laws;
pub mod render;
