//! The DEIR file format: a 16-byte header followed by a payload.
//!
//! Header layout: the magic `DEIR` (4 bytes), the format version (u16,
//! little endian), the file kind (1 byte), flags (1 byte), and the payload
//! length (u64, little endian).
use vstd::prelude::*;

use crate::error::{Error, IoErrorKind};
use crate::text::{decimal, decimal_string, string_from_chars};

verus! {

pub const FORMAT_VERSION: u16 = 1;

pub const HEADER_SIZE: usize = 16;

/// What a DEIR file holds.
#[derive(Debug, Clone, Copy, PartialEq, Eq, Structural)]
pub enum DeirKind {
    Segment,
    Wal,
}

/// The byte that encodes a kind.
pub open spec fn kind_byte(k: DeirKind) -> u8 {
    match k {
        DeirKind::Segment => 1,
        DeirKind::Wal => 2,
    }
}

/// A DEIR file header.
#[derive(Debug, Clone, Copy, PartialEq, Eq, Structural)]
pub struct DeirHeader {
    pub version: u16,
    pub kind: DeirKind,
    pub flags: u8,
    pub payload_len: u64,
}

/// 256 to the power `n`.
pub open spec fn pow256(n: nat) -> nat
    decreases n,
{
    if n == 0 {
        1
    } else {
        256 * pow256((n - 1) as nat)
    }
}

/// The `n` least significant bytes of `v`, least significant first.
pub open spec fn le_bytes(v: nat, n: nat) -> Seq<u8>
    decreases n,
{
    if n == 0 {
        seq![]
    } else {
        seq![(v % 256) as u8] + le_bytes(v / 256, (n - 1) as nat)
    }
}

/// `le_bytes` gives exactly `n` bytes.
pub(crate) proof fn lemma_le_len(v: nat, n: nat)
    ensures
        le_bytes(v, n).len() == n,
    decreases n,
{
    if n > 0 {
        lemma_le_len(v / 256, (n - 1) as nat);
    }
}

/// The number that little-endian bytes write.
pub open spec fn le_value(s: Seq<u8>) -> nat
    decreases s.len(),
{
    if s.len() == 0 {
        0
    } else {
        (s[0] + 256 * le_value(s.drop_first())) as nat
    }
}

/// The magic bytes `DEIR`.
pub open spec fn magic() -> Seq<u8> {
    seq![68u8, 69u8, 73u8, 82u8]
}

/// The 16 bytes that encode a header.
pub open spec fn header_bytes(h: DeirHeader) -> Seq<u8> {
    magic() + le_bytes(h.version as nat, 2) + seq![kind_byte(h.kind), h.flags] + le_bytes(
        h.payload_len as nat,
        8,
    )
}

/// The header that 16 bytes encode, where they encode one: right magic,
/// supported version, known kind.
pub open spec fn spec_decode(b: Seq<u8>) -> Option<DeirHeader> {
    if b.len() != 16 || b.subrange(0, 4) != magic() || le_value(b.subrange(4, 6)) != 1 {
        None
    } else if b[6] == 1 || b[6] == 2 {
        Some(
            DeirHeader {
                version: 1,
                kind: if b[6] == 1 {
                    DeirKind::Segment
                } else {
                    DeirKind::Wal
                },
                flags: b[7],
                payload_len: le_value(b.subrange(8, 16)) as u64,
            },
        )
    } else {
        None
    }
}

pub(crate) proof fn lemma_le_value_bound(s: Seq<u8>)
    ensures
        le_value(s) < pow256(s.len()),
    decreases s.len(),
{
    if s.len() > 0 {
        lemma_le_value_bound(s.drop_first());
    }
}

/// Bytes are the little-endian encoding of the number they write.
pub(crate) proof fn lemma_le_bytes_of_value(b: Seq<u8>)
    ensures
        le_bytes(le_value(b), b.len()) == b,
    decreases b.len(),
{
    if b.len() > 0 {
        let rest = b.drop_first();
        lemma_le_bytes_of_value(rest);
        let a = b[0] as int;
        let c = le_value(rest) as int;
        let v = le_value(b);
        assert(v == a + 256 * c);
        assert((a + 256 * c) % 256 == a && (a + 256 * c) / 256 == c) by (nonlinear_arith)
            requires
                0 <= a < 256,
                c >= 0,
        ;
        assert(le_bytes(v, b.len()) =~= b);
    }
}

pub(crate) proof fn lemma_le_roundtrip(v: nat, n: nat)
    requires
        v < pow256(n),
    ensures
        le_bytes(v, n).len() == n,
        le_value(le_bytes(v, n)) == v,
    decreases n,
{
    if n > 0 {
        lemma_le_roundtrip(v / 256, (n - 1) as nat);
        let b = le_bytes(v, n);
        assert(b.drop_first() =~= le_bytes(v / 256, (n - 1) as nat));
    }
}

/// The `n` least significant bytes of `v`, least significant first.
fn encode_le(out: &mut Vec<u8>, v: u64, n: usize)
    requires
        n <= 8,
    ensures
        final(out)@ == old(out)@ + le_bytes(v as nat, n as nat),
{
    let mut x: u64 = v;
    let mut i: usize = 0;
    while i < n
        invariant
            i <= n,
            out@ + le_bytes(x as nat, (n - i) as nat) == old(out)@ + le_bytes(v as nat, n as nat),
        decreases n - i,
    {
        let ghost before = out@;
        let b = (x % 256) as u8;
        out.push(b);
        assert(le_bytes(x as nat, (n - i) as nat) == seq![b] + le_bytes((x / 256) as nat, (n - i - 1) as nat));
        assert(before + le_bytes(x as nat, (n - i) as nat) =~= out@ + le_bytes((x / 256) as nat, (n - i - 1) as nat));
        x = x / 256;
        i += 1;
    }
    assert(out@ + le_bytes(x as nat, 0) =~= out@);
}

/// The number that the bytes `start..start + n` write, little endian.
pub fn read_le(b: &[u8], start: usize, n: usize) -> (r: u64)
    requires
        n <= 8,
        start + n <= b.len(),
    ensures
        r as nat == le_value(b@.subrange(start as int, start + n)),
{
    let mut acc: u64 = 0;
    let mut i: usize = n;
    proof {
        assert(b@.subrange(start + n, start + n).len() == 0);
        lemma_pow256_values();
    }
    while i > 0
        invariant
            i <= n <= 8,
            start + n <= b.len(),
            acc as nat == le_value(b@.subrange(start + i, start + n)),
            acc < pow256((n - i) as nat),
            pow256(8) == 0x1_0000_0000_0000_0000,
        decreases i,
    {
        let ghost tail = b@.subrange(start + i, start + n);
        let ghost s = b@.subrange(start + i - 1, start + n);
        assert(s.drop_first() =~= tail);
        assert(s[0] == b@[start + i - 1]);
        proof {
            lemma_pow256_monotone((n - i + 1) as nat, 8);
        }
        assert(start + i <= start + n);
        let idx: usize = start + i - 1;
        acc = acc * 256 + b[idx] as u64;
        i -= 1;
    }
    acc
}

pub(crate) proof fn lemma_pow256_values()
    ensures
        pow256(2) == 65536,
        pow256(8) == 0x1_0000_0000_0000_0000,
{
    assert(pow256(0) == 1);
    assert(pow256(1) == 256);
    assert(pow256(2) == 65536);
    assert(pow256(3) == 0x100_0000);
    assert(pow256(4) == 0x1_0000_0000);
    assert(pow256(5) == 0x100_0000_0000);
    assert(pow256(6) == 0x1_0000_0000_0000);
    assert(pow256(7) == 0x100_0000_0000_0000);
    assert(pow256(8) == 0x1_0000_0000_0000_0000);
}

proof fn lemma_pow256_monotone(a: nat, b: nat)
    requires
        a <= b,
    ensures
        pow256(a) <= pow256(b),
    decreases b - a,
{
    if a < b {
        lemma_pow256_monotone(a, (b - 1) as nat);
    }
}

impl DeirKind {
    /// The kind a byte encodes.
    fn from_u8(value: u8) -> (r: Result<Self, Error>)
        ensures
            value == 1 ==> r == Ok::<DeirKind, Error>(DeirKind::Segment),
            value == 2 ==> r == Ok::<DeirKind, Error>(DeirKind::Wal),
            value != 1 && value != 2 ==> (r matches Err(Error::InvalidFormat(_))),
    {
        if value == 1 {
            Ok(DeirKind::Segment)
        } else if value == 2 {
            Ok(DeirKind::Wal)
        } else {
            let mut message = "unknown DEIR file kind: ".to_owned();
            let digits = decimal_string(value as u64);
            message.append(string_from_chars(digits.as_slice()).as_str());
            Err(Error::InvalidFormat(message))
        }
    }

    /// The byte that encodes this kind.
    pub fn to_u8(self) -> (r: u8)
        ensures
            r == kind_byte(self),
    {
        match self {
            DeirKind::Segment => 1,
            DeirKind::Wal => 2,
        }
    }

    /// The name of this kind, as debug output writes it.
    pub fn name(self) -> (r: &'static str)
        ensures
            self == DeirKind::Segment ==> r@ == "Segment"@,
            self == DeirKind::Wal ==> r@ == "Wal"@,
    {
        match self {
            DeirKind::Segment => "Segment",
            DeirKind::Wal => "Wal",
        }
    }
}

impl DeirHeader {
    /// A header of the current format version with no flags.
    pub fn new(kind: DeirKind, payload_len: u64) -> (h: Self)
        ensures
            h == (DeirHeader { version: FORMAT_VERSION, kind, flags: 0, payload_len }),
    {
        DeirHeader { version: FORMAT_VERSION, kind, flags: 0, payload_len }
    }

    /// The 16 bytes that encode this header.
    pub fn encode(self) -> (bytes: Vec<u8>)
        ensures
            bytes@ == header_bytes(self),
            bytes@.len() == HEADER_SIZE,
    {
        let mut bytes: Vec<u8> = Vec::new();
        bytes.push(68);
        bytes.push(69);
        bytes.push(73);
        bytes.push(82);
        encode_le(&mut bytes, self.version as u64, 2);
        bytes.push(self.kind.to_u8());
        bytes.push(self.flags);
        encode_le(&mut bytes, self.payload_len, 8);
        proof {
            lemma_pow256_values();
            lemma_le_roundtrip(self.version as nat, 2);
            lemma_le_roundtrip(self.payload_len as nat, 8);
        }
        assert(bytes@ =~= header_bytes(self));
        bytes
    }

    /// Reads a header from 16 bytes: the magic must be `DEIR`, the version
    /// the current one, and the kind a known one.
    pub fn decode(bytes: &[u8]) -> (r: Result<Self, Error>)
        requires
            bytes@.len() == HEADER_SIZE,
        ensures
            match r {
                Ok(h) => spec_decode(bytes@) == Some(h),
                Err(e) => spec_decode(bytes@) is None,
            },
            bytes@.subrange(0, 4) != magic() ==> (r matches Err(Error::InvalidFormat(_))),
            bytes@.subrange(0, 4) == magic() && le_value(bytes@.subrange(4, 6)) != 1 ==> r
                == Err::<DeirHeader, Error>(
                Error::UnsupportedVersion(le_value(bytes@.subrange(4, 6)) as u32),
            ),
            bytes@.subrange(0, 4) == magic() && le_value(bytes@.subrange(4, 6)) == 1 && bytes@[6] != 1
                && bytes@[6] != 2 ==> (r matches Err(Error::InvalidFormat(_))),
    {
        if !(bytes[0] == 68 && bytes[1] == 69 && bytes[2] == 73 && bytes[3] == 82) {
            proof {
                if bytes@.subrange(0, 4) == magic() {
                    assert(bytes@.subrange(0, 4)[0] == bytes@[0]);
                    assert(bytes@.subrange(0, 4)[1] == bytes@[1]);
                    assert(bytes@.subrange(0, 4)[2] == bytes@[2]);
                    assert(bytes@.subrange(0, 4)[3] == bytes@[3]);
                }
            }
            return Err(Error::InvalidFormat("invalid DEIR magic".to_owned()));
        }
        assert(bytes@.subrange(0, 4) =~= magic());
        let version = read_le(bytes, 4, 2);
        proof {
            lemma_le_value_bound(bytes@.subrange(4, 6));
            lemma_pow256_values();
        }
        if version != 1 {
            return Err(Error::UnsupportedVersion(version as u32));
        }
        let kind = DeirKind::from_u8(bytes[6])?;
        let flags = bytes[7];
        let payload_len = read_le(bytes, 8, 8);
        Ok(DeirHeader { version: 1, kind, flags, payload_len })
    }
}

/// Reading back an encoded header gives the header again, for every
/// header of the current version.
pub proof fn lemma_header_roundtrip(h: DeirHeader)
    requires
        h.version == FORMAT_VERSION,
    ensures
        spec_decode(header_bytes(h)) == Some(h),
{
    lemma_pow256_values();
    lemma_le_roundtrip(h.version as nat, 2);
    lemma_le_roundtrip(h.payload_len as nat, 8);
    let b = header_bytes(h);
    assert(b.subrange(0, 4) =~= magic());
    assert(b.subrange(4, 6) =~= le_bytes(h.version as nat, 2));
    assert(b.subrange(8, 16) =~= le_bytes(h.payload_len as nat, 8));
    assert(b[6] == kind_byte(h.kind));
    assert(b[7] == h.flags);
}

/// The payload that the bytes of a whole DEIR file hold, read as a file of
/// kind `kind`: nothing for an empty file; otherwise the header must decode
/// to that kind and the payload must be all there (bytes after it are ignored).
pub open spec fn spec_payload(kind: DeirKind, file: Seq<u8>) -> Option<Seq<u8>> {
    if file.len() == 0 {
        Some(seq![])
    } else if file.len() < 16 {
        None
    } else {
        match spec_decode(file.subrange(0, 16)) {
            Some(h) => if h.kind == kind && 16 + h.payload_len <= file.len() {
                Some(file.subrange(16, 16 + h.payload_len))
            } else {
                None
            },
            None => None,
        }
    }
}

/// The file after writing `data` at byte `offset`; a gap past the end reads as zeros.
pub open spec fn written_at(file: Seq<u8>, offset: nat, data: Seq<u8>) -> Seq<u8> {
    let end = offset + data.len();
    let prefix = if offset <= file.len() {
        file.subrange(0, offset as int)
    } else {
        file + Seq::new((offset - file.len()) as nat, |i: int| 0u8)
    };
    let suffix = if end < file.len() {
        file.subrange(end as int, file.len() as int)
    } else {
        seq![]
    };
    prefix + data + suffix
}

/// A DEIR file: where it is and what kind of payload it holds.
#[derive(Debug, Clone)]
pub struct DeirFile {
    pub path: String,
    pub kind: DeirKind,
}

fn io_error(kind: IoErrorKind, message: &str) -> (e: Error)
    ensures
        e matches Error::Io { kind: k, .. } && k == kind,
{
    Error::Io { kind, message: message.to_owned() }
}

impl DeirFile {
    /// A new file of kind `kind` at `path`, and the bytes it starts with: a
    /// header stating an empty payload.
    pub fn create(path: String, kind: DeirKind) -> (r: (DeirFile, Vec<u8>))
        ensures
            r.0.path@ == path@,
            r.0.kind == kind,
            r.1@ == header_bytes(DeirHeader::new_spec(kind, 0)),
    {
        let file = DeirFile { path, kind };
        let header = file.header_for(0);
        (file, header)
    }

    /// Opens the file at `path` as one of kind `kind`, given the first bytes
    /// of the file (up to 16): they must hold a header of that kind.
    pub fn open(path: String, kind: DeirKind, start: &[u8]) -> (r: Result<DeirFile, Error>)
        requires
            start@.len() <= HEADER_SIZE,
        ensures
            start@.len() < HEADER_SIZE ==> (r matches Err(Error::Io { kind: k, .. }) && k
                == IoErrorKind::UnexpectedEof),
            start@.len() == HEADER_SIZE ==> match r {
                Ok(f) => f.path@ == path@ && f.kind == kind && (spec_decode(start@) matches Some(h)
                    && h.kind == kind),
                Err(_) => spec_decode(start@) is None || spec_decode(start@)->0.kind != kind,
            },
    {
        if start.len() < HEADER_SIZE {
            return Err(io_error(IoErrorKind::UnexpectedEof, "failed to fill whole buffer"));
        }
        let file = DeirFile { path, kind };
        file.read_header(start)?;
        Ok(file)
    }

    /// Where the file is.
    pub fn path(&self) -> (r: &str)
        ensures
            r@ == self.path@,
    {
        self.path.as_str()
    }

    /// The header of a file of this kind with `payload_len` payload bytes.
    pub fn header_for(&self, payload_len: u64) -> (bytes: Vec<u8>)
        ensures
            bytes@ == header_bytes(DeirHeader::new_spec(self.kind, payload_len)),
    {
        DeirHeader::new(self.kind, payload_len).encode()
    }

    /// Reads the header from the first 16 bytes of the file; it must be of this file's kind.
    pub fn read_header(&self, bytes: &[u8]) -> (r: Result<DeirHeader, Error>)
        requires
            bytes@.len() == HEADER_SIZE,
        ensures
            match r {
                Ok(h) => spec_decode(bytes@) == Some(h) && h.kind == self.kind,
                Err(_) => spec_decode(bytes@) is None || spec_decode(bytes@)->0.kind != self.kind,
            },
    {
        let header = DeirHeader::decode(bytes)?;
        if header.kind != self.kind {
            let mut message = "expected ".to_owned();
            message.append(self.kind.name());
            message.append(" file, found ");
            message.append(header.kind.name());
            return Err(Error::InvalidFormat(message));
        }
        Ok(header)
    }

    /// The payload length the header in the first 16 bytes states.
    pub fn payload_len(&self, bytes: &[u8]) -> (r: Result<u64, Error>)
        requires
            bytes@.len() == HEADER_SIZE,
        ensures
            match r {
                Ok(n) => spec_decode(bytes@) matches Some(h) && h.kind == self.kind && h.payload_len == n,
                Err(_) => spec_decode(bytes@) is None || spec_decode(bytes@)->0.kind != self.kind,
            },
    {
        Ok(self.read_header(bytes)?.payload_len)
    }

    /// The payload of the whole file `file`, read as this kind.
    pub fn read(&self, file: &[u8]) -> (r: Result<Vec<u8>, Error>)
        ensures
            match r {
                Ok(p) => spec_payload(self.kind, file@) == Some(p@),
                Err(_) => spec_payload(self.kind, file@) is None,
            },
    {
        if file.len() == 0 {
            return Ok(Vec::new());
        }
        if file.len() < HEADER_SIZE {
            return Err(io_error(IoErrorKind::UnexpectedEof, "failed to fill whole buffer"));
        }
        let mut header_bytes: Vec<u8> = Vec::new();
        let mut i: usize = 0;
        while i < HEADER_SIZE
            invariant
                i <= HEADER_SIZE <= file@.len(),
                header_bytes@ =~= file@.subrange(0, i as int),
            decreases HEADER_SIZE - i,
        {
            header_bytes.push(file[i]);
            i += 1;
        }
        let header = self.read_header(header_bytes.as_slice())?;
        let payload_len = header.payload_len;
        if payload_len > (file.len() - HEADER_SIZE) as u64 {
            return Err(io_error(IoErrorKind::UnexpectedEof, "failed to fill whole buffer"));
        }
        let end = HEADER_SIZE + payload_len as usize;
        let mut payload: Vec<u8> = Vec::new();
        let mut j: usize = HEADER_SIZE;
        while j < end
            invariant
                HEADER_SIZE <= j <= end <= file@.len(),
                payload@ =~= file@.subrange(16, j as int),
            decreases end - j,
        {
            payload.push(file[j]);
            j += 1;
        }
        Ok(payload)
    }

    /// The whole file that writing `payload` produces: a header stating its
    /// length, then the payload.
    pub fn write(&self, payload: &[u8]) -> (file: Vec<u8>)
        ensures
            file@ == header_bytes(DeirHeader::new_spec(self.kind, payload@.len() as u64)) + payload@,
            file@.len() == HEADER_SIZE + payload@.len(),
    {
        let mut file = self.header_for(payload.len() as u64);
        let mut i: usize = 0;
        let ghost h = file@;
        while i < payload.len()
            invariant
                i <= payload@.len(),
                file@ =~= h + payload@.take(i as int),
            decreases payload.len() - i,
        {
            file.push(payload[i]);
            i += 1;
        }
        assert(payload@.take(payload.len() as int) =~= payload@);
        proof {
            lemma_le_len(FORMAT_VERSION as nat, 2);
            lemma_le_len(payload@.len() as u64 as nat, 8);
        }
        file
    }

    /// How to append `payload_len` bytes to a file whose first 16 bytes are
    /// `bytes`: the offset to write the payload at, and the new header to
    /// write at offset 0.
    pub fn append(&self, bytes: &[u8], payload_len: usize) -> (r: Result<(u64, Vec<u8>), Error>)
        requires
            bytes@.len() == HEADER_SIZE,
            spec_decode(bytes@) is Some && spec_decode(bytes@)->0.kind == self.kind && spec_decode(
                bytes@,
            )->0.payload_len + payload_len <= u64::MAX ==> spec_decode(bytes@)->0.payload_len + 16
                <= u64::MAX,
        ensures
            match r {
                Ok((offset, header)) => spec_decode(bytes@) matches Some(h) && h.kind == self.kind
                    && offset == 16 + h.payload_len && h.payload_len + payload_len <= u64::MAX
                    && header@ == header_bytes(
                    DeirHeader::new_spec(self.kind, (h.payload_len + payload_len) as u64),
                ),
                Err(_) => spec_decode(bytes@) is None || spec_decode(bytes@)->0.kind != self.kind
                    || spec_decode(bytes@)->0.payload_len + payload_len > u64::MAX,
            },
    {
        let current_len = self.payload_len(bytes)?;
        let new_len = match current_len.checked_add(payload_len as u64) {
            Some(n) => n,
            None => return Err(Error::InvalidFormat("DEIR payload is too large".to_owned())),
        };
        let header = self.header_for(new_len);
        Ok((16 + current_len, header))
    }

    /// The header a file of this kind is created with, and truncated back to.
    pub fn truncate(&self) -> (header: Vec<u8>)
        ensures
            header@ == header_bytes(DeirHeader::new_spec(self.kind, 0)),
    {
        self.header_for(0)
    }
}

/// Appending to a DEIR file as `DeirFile::append` plans it (the payload
/// written at the returned offset, then the returned header at offset 0)
/// leaves a file whose payload is the old payload followed by the new bytes.
pub proof fn lemma_append_then_read(
    kind: DeirKind,
    file: Seq<u8>,
    data: Seq<u8>,
    offset: u64,
    header: Seq<u8>,
)
    requires
        file.len() >= 16,
        spec_payload(kind, file) is Some,
        spec_decode(file.subrange(0, 16)) matches Some(h) && offset == 16 + h.payload_len
            && h.payload_len + data.len() <= u64::MAX && header == header_bytes(
            DeirHeader::new_spec(kind, (h.payload_len + data.len()) as u64),
        ),
    ensures
        spec_payload(kind, written_at(written_at(file, offset as nat, data), 0, header))
            == Some(spec_payload(kind, file)->0 + data),
{
    let h = spec_decode(file.subrange(0, 16))->0;
    let p = spec_payload(kind, file)->0;
    let n = (h.payload_len + data.len()) as u64;
    let f1 = written_at(file, offset as nat, data);
    let f2 = written_at(f1, 0, header);
    lemma_pow256_values();
    lemma_le_roundtrip(1, 2);
    lemma_le_roundtrip(n as nat, 8);
    assert(header.len() == 16) by {
        lemma_le_roundtrip(FORMAT_VERSION as nat, 2);
    }
    lemma_header_roundtrip(DeirHeader::new_spec(kind, n));
    assert(f1.len() >= offset + data.len());
    assert(f2.subrange(0, 16) =~= header);
    assert(f2.subrange(16, 16 + n) =~= p + data);
}

/// A file that has just been created or truncated holds an empty payload.
pub proof fn lemma_fresh_file_is_empty(kind: DeirKind)
    ensures
        spec_payload(kind, header_bytes(DeirHeader::new_spec(kind, 0))) == Some(Seq::<u8>::empty()),
{
    lemma_pow256_values();
    lemma_le_roundtrip(FORMAT_VERSION as nat, 2);
    lemma_le_roundtrip(0, 8);
    lemma_header_roundtrip(DeirHeader::new_spec(kind, 0));
    let b = header_bytes(DeirHeader::new_spec(kind, 0));
    assert(b.subrange(0, 16) =~= b);
    assert(b.subrange(16, 16) =~= Seq::<u8>::empty());
}

/// Writing a payload and reading the file back gives the payload.
pub proof fn lemma_write_then_read(kind: DeirKind, payload: Seq<u8>)
    requires
        payload.len() + 16 <= u64::MAX,
    ensures
        spec_payload(kind, header_bytes(DeirHeader::new_spec(kind, payload.len() as u64)) + payload)
            == Some(payload),
{
    let h = DeirHeader::new_spec(kind, payload.len() as u64);
    lemma_pow256_values();
    lemma_le_roundtrip(FORMAT_VERSION as nat, 2);
    lemma_le_roundtrip(payload.len(), 8);
    lemma_header_roundtrip(h);
    let f = header_bytes(h) + payload;
    assert(f.subrange(0, 16) =~= header_bytes(h));
    assert(f.subrange(16, 16 + payload.len() as int) =~= payload);
}

impl DeirHeader {
    pub open spec fn new_spec(kind: DeirKind, payload_len: u64) -> DeirHeader {
        DeirHeader { version: FORMAT_VERSION, kind, flags: 0, payload_len }
    }
}

} // verus!
