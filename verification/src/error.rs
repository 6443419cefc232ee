//! The error type shared by the codec and the command parser.

use vstd::prelude::*;

verus! {

/// What can go wrong while decoding a transaction or parsing a command.
#[derive(Debug)]
pub enum BitcoinError {
    /// The buffer is shorter than the smallest possible transaction.
    InvalidTransaction,
    /// A read ran past the end of the buffer.
    InvalidScript,
    /// An amount is not acceptable.
    InvalidAmount,
    /// A command line could not be understood; the text says why.
    ParseError(String),
}

} // verus!
