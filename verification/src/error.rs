//! The failures a conversion can report.
use vstd::prelude::*;

verus! {

/// Why a conversion was aborted. Every failure aborts the whole batch.
#[derive(Clone, Copy, Debug, PartialEq, Eq, Structural)]
pub enum Error {
    /// No schema could be inferred: no samples, types that do not merge, or
    /// a union without a determined variant.
    SchemaInferenceFailure,
    /// The event stream is not well nested, or an event arrived that the
    /// current state does not expect.
    ProtocolViolation,
    /// The data type or encoding has no builder.
    UnsupportedType,
    /// The observed value does not have the declared type and cannot be
    /// coerced to it.
    TypeMismatch,
    /// Malformed date/time text, or a number outside the declared range.
    EncodingError,
}

pub type Result<T> = core::result::Result<T, Error>;

impl Error {
    /// A short description of the failure.
    pub fn message(&self) -> (text: &'static str)
        ensures
            text@ == match *self {
                Error::SchemaInferenceFailure => "schema inference failed"@,
                Error::ProtocolViolation => "malformed event stream"@,
                Error::UnsupportedType => "unsupported data type"@,
                Error::TypeMismatch => "value does not match the declared type"@,
                Error::EncodingError => "value cannot be encoded"@,
            },
    {
        match self {
            Error::SchemaInferenceFailure => "schema inference failed",
            Error::ProtocolViolation => "malformed event stream",
            Error::UnsupportedType => "unsupported data type",
            Error::TypeMismatch => "value does not match the declared type",
            Error::EncodingError => "value cannot be encoded",
        }
    }
}

} // verus!
