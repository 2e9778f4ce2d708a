//! The ways a merge can fail.
use vstd::prelude::*;

verus! {

/// Why a merge failed.
#[derive(Debug)]
pub enum Error {
    /// The database engine failed.
    Core(crate::error::Error),
    /// An input/output failure, described.
    Io(String),
    /// The left database does not exist.
    LeftDatabaseMissing(String),
    /// The right database does not exist.
    RightDatabaseMissing(String),
    /// The output is one of the inputs.
    OutputInputCollision,
    /// The output already exists.
    OutputExists(String),
    /// The output path has no parent directory.
    InvalidOutputPath,
    /// The inputs cannot be merged.
    InvalidInput(String),
}

/// The result of a merge step.
pub type Result<T> = core::result::Result<T, Error>;

} // verus!
