//! Errors of the Qiss format.

use vstd::prelude::*;

verus! {

/// The standard library's I/O error, carried opaquely by [`Error::Io`].
#[verifier::external_type_specification]
#[verifier::external_body]
pub struct ExIoError(std::io::Error);

/// Error types for the Qiss format.
#[derive(Debug)]
pub enum Error {
    /// IO error
    Io(std::io::Error),
    /// Serialization error
    Serialization(String),
    /// Protocol error
    Protocol(String),
    /// Configuration error
    Config(String),
    /// The header does not start with the Qiss magic number
    InvalidMagic(u32),
    /// The header names a format version this library does not read
    UnsupportedVersion(u8),
    /// The header announces a message larger than the format allows
    MessageTooLarge(usize),
    /// A byte that names no message type
    InvalidMessageType(u8),
    /// The input ends before the value it should hold
    InsufficientData,
    /// The header could not be read
    InvalidHeader,
    /// The body does not match the checksum in the header
    ChecksumMismatch { expected: u32, actual: u32 },
    /// A byte that is not a valid encoding of the expected field
    InvalidFieldType,
    /// A string field that is not valid UTF-8
    InvalidUtf8,
}

/// Result type of the Qiss format.
pub type Result<T> = std::result::Result<T, Error>;

} // verus!
