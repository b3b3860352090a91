//! Merging of independently constructed, unsigned transactions.
//!
//! The library combines a non-empty sequence of transactions that share one
//! version and lock-time into a single transaction: outputs paying the same
//! locking script are folded into one entry whose value is the sum, inputs
//! are copied with their signature material stripped (unless their hash-type
//! tag exempts them), a duplicate input anywhere aborts the whole merge, and
//! the final input and output orders are randomized.

pub mod codec;
pub mod errors;
pub mod hashing;
pub mod hexfmt;
pub mod laws;
pub mod merge;
mod shuffle;
pub mod tx;

pub use errors::MergeError;
pub use merge::merge_unsigned_transactions;
pub use tx::{Transaction, TxIn, TxOut};
