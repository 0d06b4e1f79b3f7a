use vstd::prelude::*;

use crate::data::Flag;

verus! {

/// The closed set of failures shared by the encoder and the decoder.
#[derive(Debug, Clone, Copy, PartialEq, Eq, Structural)]
pub enum Error {
    /// The compression library failed to produce or read a block.
    Io,
    /// The archive does not start with the format descriptor.
    BadMagic,
    /// The format version byte is neither 1 nor 2.
    BadVersion,
    /// A header byte holds a value outside its domain.
    BadHeader,
    /// A variable-length integer does not fit in 64 bits.
    Overflow,
    /// The input ended in the middle of a field.
    UnexpectedEof,
    /// A record lacks a field that the archive stores.
    MissingField(Flag),
    /// A nucleotide byte outside the 16-symbol alphabet.
    InvalidSequence,
    /// The lengths of a record's sequence, quality and length disagree.
    InvalidLength,
    /// Bytes that must hold text are not valid UTF-8.
    Utf8,
}

} // verus!
