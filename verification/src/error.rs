//! How a parse of derivation bytes can fail.
use vstd::prelude::*;

verus! {

/// The primitive that refused the input.
#[derive(Clone, Copy, Debug, PartialEq, Eq, Structural)]
pub enum ErrorKind {
    /// An expected delimiter byte was not there.
    Tag,
    /// A run of one or more bytes of a class was empty.
    TakeWhile1,
    /// The byte could not start an atom.
    TakeWhileMN,
    /// Bytes were left after the derivation.
    Eof,
}

/// A parse error: where in the input it happened, and which primitive refused.
#[derive(Clone, Copy, Debug, PartialEq, Eq, Structural)]
pub struct Error {
    /// Offset, from the start of the input, of the bytes that were refused.
    pub offset: usize,
    /// What refused them.
    pub code: ErrorKind,
}

/// Why a parser did not produce a value.
#[derive(Clone, Copy, Debug, PartialEq, Eq, Structural)]
pub enum Failure {
    /// The input ended before the parser could decide: more bytes are needed.
    Incomplete,
    /// The input cannot be parsed, whatever follows it.
    Error(Error),
}

} // verus!
