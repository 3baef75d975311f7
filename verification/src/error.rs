//! The error type shared by the encoder and the decoder.

use vstd::prelude::*;
use vstd::std_specs::convert::FromSpecImpl;

verus! {

/// Declares `std::io::Error` as an opaque type, so that an error of a byte
/// sink can be carried through. Nothing is claimed about its contents.
#[verifier::external_type_specification]
#[verifier::external_body]
pub struct ExIoError(std::io::Error);

/// Declares `std::str::Utf8Error` as an opaque type. Nothing is claimed about
/// its contents.
#[verifier::external_type_specification]
#[verifier::external_body]
pub struct ExUtf8Error(std::str::Utf8Error);

/// Declares `std::char::CharTryFromError` as an opaque type. Nothing is
/// claimed about its contents.
#[verifier::external_type_specification]
#[verifier::external_body]
pub struct ExCharTryFromError(std::char::CharTryFromError);

/// Everything that can go wrong while encoding or decoding. Every error ends
/// the operation that raised it.
#[derive(Debug)]
pub enum Error {
    /// The input was incomplete.
    UnexpectedEndOfInput,
    /// The value read was not a valid `char`.
    InvalidChar,
    /// The byte run read did not hold valid UTF-8.
    InvalidUtf8,
    /// The input was longer than the value it holds.
    DataBeyondEnd,
    /// The value read does not fit the expected integer type.
    ValueOverflow,
    /// The wire type of the value is not one the expected type accepts.
    UnexpectedWireType,
    /// A sequence with an odd number of elements was read as a map.
    InvalidMap,
    /// The type framework reported an error while encoding.
    Serialization(String),
    /// The type framework reported an error while decoding.
    Deserialization(String),
    /// The byte sink reported an error.
    IO(std::io::Error),
}

impl From<std::num::TryFromIntError> for Error {
    fn from(_e: std::num::TryFromIntError) -> (r: Self) {
        Error::ValueOverflow
    }
}

impl FromSpecImpl<std::num::TryFromIntError> for Error {
    open spec fn obeys_from_spec() -> bool {
        true
    }

    open spec fn from_spec(_e: std::num::TryFromIntError) -> Self {
        Error::ValueOverflow
    }
}

impl From<std::char::CharTryFromError> for Error {
    fn from(_e: std::char::CharTryFromError) -> (r: Self) {
        Error::InvalidChar
    }
}

impl FromSpecImpl<std::char::CharTryFromError> for Error {
    open spec fn obeys_from_spec() -> bool {
        true
    }

    open spec fn from_spec(_e: std::char::CharTryFromError) -> Self {
        Error::InvalidChar
    }
}

impl From<std::str::Utf8Error> for Error {
    fn from(_e: std::str::Utf8Error) -> (r: Self) {
        Error::InvalidUtf8
    }
}

impl FromSpecImpl<std::str::Utf8Error> for Error {
    open spec fn obeys_from_spec() -> bool {
        true
    }

    open spec fn from_spec(_e: std::str::Utf8Error) -> Self {
        Error::InvalidUtf8
    }
}

impl From<std::io::Error> for Error {
    fn from(e: std::io::Error) -> (r: Self) {
        Error::IO(e)
    }
}

impl FromSpecImpl<std::io::Error> for Error {
    open spec fn obeys_from_spec() -> bool {
        true
    }

    open spec fn from_spec(e: std::io::Error) -> Self {
        Error::IO(e)
    }
}

} // verus!
