//! Segments: DEIR files that hold database snapshots.
use vstd::prelude::*;

use crate::error::{Error, IoErrorKind};
use crate::storage::deir::{header_bytes, spec_decode, spec_payload, DeirFile, DeirHeader, DeirKind, HEADER_SIZE};

verus! {

/// A segment file.
#[derive(Debug, Clone)]
pub struct Segment {
    pub file: DeirFile,
}

impl Segment {
    /// A new segment at `path`, and the bytes the file starts with.
    pub fn create(path: String) -> (r: (Segment, Vec<u8>))
        ensures
            r.0.file.path@ == path@,
            r.0.file.kind == DeirKind::Segment,
            r.1@ == header_bytes(DeirHeader::new_spec(DeirKind::Segment, 0)),
    {
        let (file, header) = DeirFile::create(path, DeirKind::Segment);
        (Segment { file }, header)
    }

    /// Opens the segment at `path`, given the first bytes of the file (up to 16).
    pub fn open(path: String, start: &[u8]) -> (r: Result<Segment, Error>)
        requires
            start@.len() <= HEADER_SIZE,
        ensures
            start@.len() < HEADER_SIZE ==> (r matches Err(Error::Io { kind: k, .. }) && k
                == IoErrorKind::UnexpectedEof),
            start@.len() == HEADER_SIZE ==> match r {
                Ok(s) => s.file.path@ == path@ && s.file.kind == DeirKind::Segment
                    && (spec_decode(start@) matches Some(h) && h.kind == DeirKind::Segment),
                Err(_) => spec_decode(start@) is None || spec_decode(start@)->0.kind
                    != DeirKind::Segment,
            },
    {
        let file = DeirFile::open(path, DeirKind::Segment, start)?;
        Ok(Segment { file })
    }

    /// Where the segment is.
    pub fn path(&self) -> (r: &str)
        ensures
            r@ == self.file.path@,
    {
        self.file.path()
    }

    /// The whole file that writing `payload` produces.
    pub fn write(&self, payload: &[u8]) -> (file: Vec<u8>)
        ensures
            file@ == header_bytes(DeirHeader::new_spec(self.file.kind, payload@.len() as u64)) + payload@,
            file@.len() == HEADER_SIZE + payload@.len(),
    {
        self.file.write(payload)
    }

    /// The payload of the whole segment file `file`.
    pub fn read(&self, file: &[u8]) -> (r: Result<Vec<u8>, Error>)
        ensures
            match r {
                Ok(p) => spec_payload(self.file.kind, file@) == Some(p@),
                Err(_) => spec_payload(self.file.kind, file@) is None,
            },
    {
        self.file.read(file)
    }

    /// The underlying DEIR file.
    pub fn into_file(self) -> (r: DeirFile)
        ensures
            r == self.file,
    {
        self.file
    }
}

} // verus!
