//! Codec for the legacy (pre-segwit) Bitcoin transaction wire format.
//!
//! The crate decodes a byte buffer into a [`LegacyTransaction`], encodes a
//! transaction back into the same bytes, and proves that the two directions
//! agree. A fluent builder and a small command-line argument parser sit next
//! to the codec.

pub mod cli;
pub mod compact_size;
pub mod cursor;
pub mod decode;
pub mod encode;
pub mod error;
pub mod le;
pub mod point;
pub mod round_trip;
pub mod transaction;
pub mod wire;

pub use cli::{parse_cli_args, CliCommand};
pub use compact_size::{read_compact_size, write_compact_size};
pub use cursor::Cursor;
pub use decode::read_scriptsig;
pub use encode::BitcoinSerialize;
pub use error::BitcoinError;
pub use point::Point;
pub use transaction::{LegacyTransaction, LegacyTransactionBuilder, OutPoint, TxInput, TxOutput};
