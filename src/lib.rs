//! Encoding and decoding of a subset of the Bitcoin transaction wire format:
//! CompactSize integers, outpoints, scripts, transaction inputs and whole
//! transactions without outputs or witness data.
pub mod compact_size;
pub mod error;
pub mod laws;
pub mod le;
pub mod script;
pub mod text;
pub mod transaction;
pub mod txid;

pub use compact_size::{decode_compact_size, encode_compact_size, CompactSize};
pub use error::BitcoinError;
pub use script::Script;
pub use transaction::{BitcoinTransaction, TransactionInput};
pub use txid::{OutPoint, Txid};
