//! Errors of the storage layer.
use vstd::prelude::*;

verus! {

/// The kind of an input/output failure.
#[derive(Debug, Clone, Copy, PartialEq, Eq, Structural)]
pub enum IoErrorKind {
    NotFound,
    AlreadyExists,
    UnexpectedEof,
    Other,
}

/// An error of the storage layer.
#[derive(Debug)]
pub enum Error {
    /// An input/output failure, or data that is missing where it was expected.
    Io { kind: IoErrorKind, message: String },
    /// Bytes that do not have the expected format.
    InvalidFormat(String),
    /// A file written by an unsupported format version.
    UnsupportedVersion(u32),
    /// A record that could not be turned into bytes or back.
    Serialization(String),
    /// No further segment may be created.
    StorageLimit { max_segments: usize },
}

/// `Result` with the storage error.
pub type Result<T> = core::result::Result<T, Error>;

} // verus!
