//! The failures that the engine and the code around it report.

use vstd::prelude::*;

verus! {

/// Why an operation could not be carried out. An unsatisfied witness is not
/// among these: verification reports it as `Ok(false)`.
#[derive(Clone, Copy, Debug, PartialEq, Eq, Structural)]
pub enum Error {
    /// A proof was asked of a circuit without inputs.
    EmptyCircuit,
    /// A variable, a circuit input or a witness entry was looked up at a
    /// position that does not exist.
    InvalidIndex,
    /// An artifact could not be encoded.
    SerializationFailure,
    /// The bytes of an artifact do not have the expected structure.
    DeserializationFailure,
    /// A file could not be created, opened, read or written.
    IOFailure,
    /// A modulus that is not positive.
    MalformedModulus,
}

impl Error {
    /// A short description of the failure, for reports.
    pub fn message(&self) -> (text: &'static str)
        ensures
            text@ == (match *self {
                Error::EmptyCircuit => "no inputs available to generate a proof"@,
                Error::InvalidIndex => "index out of range"@,
                Error::SerializationFailure => "artifact could not be encoded"@,
                Error::DeserializationFailure => "artifact bytes are malformed"@,
                Error::IOFailure => "file could not be accessed"@,
                Error::MalformedModulus => "modulus must be positive"@,
            }),
    {
        match self {
            Error::EmptyCircuit => "no inputs available to generate a proof",
            Error::InvalidIndex => "index out of range",
            Error::SerializationFailure => "artifact could not be encoded",
            Error::DeserializationFailure => "artifact bytes are malformed",
            Error::IOFailure => "file could not be accessed",
            Error::MalformedModulus => "modulus must be positive",
        }
    }
}

} // verus!
