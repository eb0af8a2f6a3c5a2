use vstd::prelude::*;

verus! {

/// The logical type of a column.
#[derive(Clone, Copy, Debug, PartialEq, Eq, Structural)]
pub enum DataType {
    /// Variable-length UTF-8 strings with 32-bit offsets.
    Utf8,
    /// A column holding one string repeated a number of times.
    ConstUtf8,
}

/// Recoverable errors of the encoders and decoders.
#[derive(Clone, Debug, PartialEq, Eq)]
pub enum Error {
    /// An argument that the operation cannot handle, e.g. an encoding that
    /// does not apply to the column's type.
    InvalidArgumentError(String),
    /// Input that does not follow the format it claims to follow.
    OutOfSpec(String),
    /// A well-formed input of a kind that is not handled yet.
    NotYetImplemented(String),
}

} // verus!
