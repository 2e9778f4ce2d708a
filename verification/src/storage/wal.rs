//! The write-ahead log: a DEIR file whose payload is a run of records, each
//! framed by its length as 4 bytes little endian.
//!
//! A crash can leave the last record cut short; replaying the log reads the
//! complete records and ignores such a tail.
use vstd::prelude::*;

use crate::entity::EntityInput;
use crate::error::{Error, IoErrorKind};
use crate::ids::EntityID;
use crate::storage::deir::{
    header_bytes, le_bytes, le_value, lemma_le_roundtrip, lemma_le_value_bound, lemma_pow256_values,
    pow256, read_le,
    spec_decode, DeirFile, DeirHeader, DeirKind, HEADER_SIZE,
};

verus! {

/// A change to the database, as the log records it.
#[derive(Debug, Clone)]
pub enum WalOperation {
    Insert(EntityInput),
    Remove(EntityID),
}

/// A record framed for the log: its length as 4 bytes little endian, then the record.
pub open spec fn wal_frame(p: Seq<u8>) -> Seq<u8> {
    le_bytes(p.len(), 4) + p
}

/// Records framed one after the other.
pub open spec fn wal_frames(ps: Seq<Seq<u8>>) -> Seq<u8>
    decreases ps.len(),
{
    if ps.len() == 0 {
        seq![]
    } else {
        wal_frame(ps[0]) + wal_frames(ps.drop_first())
    }
}

/// The complete records at the start of a log payload, in order; reading
/// stops at a length or a record that is cut short.
pub open spec fn wal_records(b: Seq<u8>) -> Seq<Seq<u8>>
    decreases b.len(),
{
    if b.len() < 4 {
        seq![]
    } else {
        let n = le_value(b.subrange(0, 4));
        if b.len() - 4 < n {
            seq![]
        } else {
            seq![b.subrange(4, (4 + n) as int)] + wal_records(b.subrange((4 + n) as int, b.len() as int))
        }
    }
}

/// The write-ahead log file.
#[derive(Debug, Clone)]
pub struct Wal {
    pub file: DeirFile,
}

impl Wal {
    /// A new log at `path`, and the bytes the file starts with.
    pub fn create(path: String) -> (r: (Wal, Vec<u8>))
        ensures
            r.0.file.path@ == path@,
            r.0.file.kind == DeirKind::Wal,
            r.1@ == header_bytes(DeirHeader::new_spec(DeirKind::Wal, 0)),
    {
        let (file, header) = DeirFile::create(path, DeirKind::Wal);
        (Wal { file }, header)
    }

    /// Opens the log at `path`, given the first bytes of the file (up to 16).
    pub fn open(path: String, start: &[u8]) -> (r: Result<Wal, Error>)
        requires
            start@.len() <= HEADER_SIZE,
        ensures
            start@.len() < HEADER_SIZE ==> (r matches Err(Error::Io { kind: k, .. }) && k
                == IoErrorKind::UnexpectedEof),
            start@.len() == HEADER_SIZE ==> match r {
                Ok(w) => w.file.path@ == path@ && w.file.kind == DeirKind::Wal && (spec_decode(
                    start@,
                ) matches Some(h) && h.kind == DeirKind::Wal),
                Err(_) => spec_decode(start@) is None || spec_decode(start@)->0.kind != DeirKind::Wal,
            },
    {
        let file = DeirFile::open(path, DeirKind::Wal, start)?;
        Ok(Wal { file })
    }

    /// Where the log is.
    pub fn path(&self) -> (r: &str)
        ensures
            r@ == self.file.path@,
    {
        self.file.path()
    }

    /// The framed record to append for an operation encoded as `bytes`;
    /// a record longer than `u32::MAX` bytes cannot be framed.
    pub fn append(&self, bytes: &[u8]) -> (r: Result<Vec<u8>, Error>)
        ensures
            bytes@.len() <= u32::MAX ==> (r matches Ok(f) && f@ == wal_frame(bytes@)),
            bytes@.len() > u32::MAX ==> (r matches Err(Error::Serialization(m)) && m@
                == "WAL record is too large"@),
    {
        if bytes.len() > 0xffff_ffff {
            return Err(Error::Serialization("WAL record is too large".to_owned()));
        }
        let mut out: Vec<u8> = Vec::new();
        let mut x: u64 = bytes.len() as u64;
        let mut i: usize = 0;
        while i < 4
            invariant
                i <= 4,
                out@ + le_bytes(x as nat, (4 - i) as nat) == le_bytes(bytes@.len(), 4),
            decreases 4 - i,
        {
            let ghost before = out@;
            let b = (x % 256) as u8;
            out.push(b);
            assert(le_bytes(x as nat, (4 - i) as nat) == seq![b] + le_bytes((x / 256) as nat, (4 - i - 1) as nat));
            assert(before + le_bytes(x as nat, (4 - i) as nat) =~= out@ + le_bytes(
                (x / 256) as nat,
                (4 - i - 1) as nat,
            ));
            x = x / 256;
            i += 1;
        }
        assert(out@ + le_bytes(x as nat, 0) =~= out@);
        let ghost head = out@;
        let mut j: usize = 0;
        while j < bytes.len()
            invariant
                j <= bytes@.len(),
                out@ =~= head + bytes@.take(j as int),
            decreases bytes.len() - j,
        {
            out.push(bytes[j]);
            j += 1;
        }
        assert(bytes@.take(bytes.len() as int) =~= bytes@);
        Ok(out)
    }

    /// The complete records of the log's payload, in order; a record cut
    /// short at the end is ignored.
    pub fn replay(&self, payload: &[u8]) -> (r: Vec<Vec<u8>>)
        ensures
            r@.map_values(|v: Vec<u8>| v@) == wal_records(payload@),
    {
        let mut records: Vec<Vec<u8>> = Vec::new();
        let mut cursor: usize = 0;
        let n = payload.len();
        proof {
            lemma_pow256_values();
            assert(pow256(4) == 0x1_0000_0000) by {
                assert(pow256(1) == 256);
                assert(pow256(2) == 65536);
                assert(pow256(3) == 0x100_0000);
            }
            assert(payload@.subrange(0, n as int) =~= payload@);
        }
        loop
            invariant
                n == payload@.len(),
                cursor <= n,
                pow256(4) == 0x1_0000_0000,
                records@.map_values(|v: Vec<u8>| v@) + wal_records(payload@.subrange(cursor as int, n as int))
                    == wal_records(payload@),
            ensures
                records@.map_values(|v: Vec<u8>| v@) == wal_records(payload@),
            decreases n - cursor,
        {
            let ghost rest = payload@.subrange(cursor as int, n as int);
            if n - cursor < 4 {
                assert(wal_records(rest) =~= Seq::<Seq<u8>>::empty());
                assert(records@.map_values(|v: Vec<u8>| v@) + wal_records(rest) =~= records@.map_values(
                    |v: Vec<u8>| v@,
                ));
                break;
            }
            let word = read_le(payload, cursor, 4);
            proof {
                lemma_le_value_bound(payload@.subrange(cursor as int, cursor + 4));
            }
            let length = word as usize;
            assert(rest.subrange(0, 4) =~= payload@.subrange(cursor as int, cursor + 4));
            let start = cursor + 4;
            if n - start < length {
                assert(wal_records(rest) =~= Seq::<Seq<u8>>::empty());
                assert(records@.map_values(|v: Vec<u8>| v@) + wal_records(rest) =~= records@.map_values(
                    |v: Vec<u8>| v@,
                ));
                break;
            }
            let end = start + length;
            let mut record: Vec<u8> = Vec::new();
            let mut k: usize = start;
            while k < end
                invariant
                    start <= k <= end <= n,
                    n == payload@.len(),
                    record@ =~= payload@.subrange(start as int, k as int),
                decreases end - k,
            {
                record.push(payload[k]);
                k += 1;
            }
            proof {
                assert(rest.subrange(4, 4 + length) =~= record@);
                assert(rest.subrange(4 + length, rest.len() as int) =~= payload@.subrange(end as int, n as int));
                assert(wal_records(rest) == seq![record@] + wal_records(payload@.subrange(end as int, n as int)));
            }
            let ghost before = records@;
            records.push(record);
            assert(records@.map_values(|v: Vec<u8>| v@) =~= before.map_values(|v: Vec<u8>| v@).push(
                record@,
            ));
            assert(records@.map_values(|v: Vec<u8>| v@) + wal_records(payload@.subrange(end as int, n as int))
                =~= before.map_values(|v: Vec<u8>| v@) + wal_records(rest));
            cursor = end;
        }
        records
    }

    /// The bytes the log is truncated back to: a header stating an empty payload.
    pub fn truncate(&self) -> (header: Vec<u8>)
        ensures
            header@ == header_bytes(DeirHeader::new_spec(self.file.kind, 0)),
    {
        self.file.truncate()
    }
}


/// Replaying records framed one after the other, followed by anything,
/// gives those records first, then what the rest holds.
pub proof fn lemma_replay_frames(ps: Seq<Seq<u8>>, rest: Seq<u8>)
    requires
        forall|i: int| 0 <= i < ps.len() ==> #[trigger] ps[i].len() <= u32::MAX,
    ensures
        wal_records(wal_frames(ps) + rest) == ps + wal_records(rest),
    decreases ps.len(),
{
    if ps.len() == 0 {
        assert(wal_frames(ps) + rest =~= rest);
        assert(ps + wal_records(rest) =~= wal_records(rest));
    } else {
        let p = ps[0];
        let tail = ps.drop_first();
        assert forall|i: int| 0 <= i < tail.len() implies #[trigger] tail[i].len() <= u32::MAX by {
            assert(tail[i] == ps[i + 1]);
        }
        lemma_replay_frames(tail, rest);
        lemma_pow256_values();
        assert(pow256(4) == 0x1_0000_0000) by {
            assert(pow256(1) == 256);
            assert(pow256(2) == 65536);
            assert(pow256(3) == 0x100_0000);
        }
        lemma_le_roundtrip(p.len(), 4);
        let b = wal_frames(ps) + rest;
        let after = wal_frames(tail) + rest;
        assert(b =~= le_bytes(p.len(), 4) + p + after);
        assert(b.subrange(0, 4) =~= le_bytes(p.len(), 4));
        assert(b.subrange(4, (4 + p.len()) as int) =~= p);
        assert(b.subrange((4 + p.len()) as int, b.len() as int) =~= after);
        assert(ps =~= seq![p] + tail);
        assert(ps + wal_records(rest) =~= seq![p] + (tail + wal_records(rest)));
    }
}

/// Replaying a log whose last record was cut short, anywhere before its
/// end, gives the records appended before it.
pub proof fn lemma_replay_ignores_torn_tail(ps: Seq<Seq<u8>>, q: Seq<u8>, cut: int)
    requires
        forall|i: int| 0 <= i < ps.len() ==> #[trigger] ps[i].len() <= u32::MAX,
        q.len() <= u32::MAX,
        0 <= cut < wal_frame(q).len(),
    ensures
        wal_records(wal_frames(ps) + wal_frame(q).subrange(0, cut)) == ps,
{
    lemma_replay_frames(ps, wal_frame(q).subrange(0, cut));
    let t = wal_frame(q).subrange(0, cut);
    lemma_pow256_values();
    assert(pow256(4) == 0x1_0000_0000) by {
        assert(pow256(1) == 256);
        assert(pow256(2) == 65536);
        assert(pow256(3) == 0x100_0000);
    }
    lemma_le_roundtrip(q.len(), 4);
    if t.len() >= 4 {
        assert(t.subrange(0, 4) =~= le_bytes(q.len(), 4));
    }
    assert(wal_records(t) =~= Seq::<Seq<u8>>::empty());
    assert(ps + Seq::<Seq<u8>>::empty() =~= ps);
}

} // verus!
