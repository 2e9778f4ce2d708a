//! The storage backend: the segments that hold snapshots and the log of the
//! changes made since the last one.
use vstd::prelude::*;

use crate::error::{Error, IoErrorKind};
use crate::storage::segment_manager::SegmentManager;
use crate::storage::wal::Wal;

verus! {

/// Segments and write-ahead log of one database.
#[derive(Debug, Clone)]
pub struct Backend {
    pub segments: SegmentManager,
    pub wal: Wal,
}

impl Backend {
    /// The write-ahead log.
    pub fn wal(&self) -> (r: &Wal)
        ensures
            r == &self.wal,
    {
        &self.wal
    }

    /// Whether opening failed only because there is nothing yet to open, in
    /// which case a fresh one is created instead.
    pub fn is_missing(error: &Error) -> (r: bool)
        ensures
            r == (error matches Error::Io { kind: k, .. } && k == IoErrorKind::NotFound),
    {
        match error {
            Error::Io { kind: IoErrorKind::NotFound, .. } => true,
            _ => false,
        }
    }
}

} // verus!
