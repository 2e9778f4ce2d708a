//! Segment management: snapshot records framed in segments, and the
//! decisions of when to start a new segment and how to name it.
use vstd::prelude::*;

use crate::error::{Error, IoErrorKind};
use crate::query::{all_digits, digits_upto, digits_value, is_digit};
use crate::storage::deir::{
    le_bytes, le_value, lemma_le_bytes_of_value, lemma_le_len, lemma_le_roundtrip, lemma_le_value_bound,
    lemma_pow256_values, pow256,
};
use crate::storage::segment::Segment;
use crate::text::{chars_of, decimal, lemma_zero_padded, string_from_chars, zero_padded, zero_padded_decimal};

verus! {

pub const RECORD_HEADER_SIZE: usize = 8;

/// Where and how big the storage of a database may grow.
#[derive(Debug, Clone)]
pub struct StorageConfig {
    pub name: String,
    pub root: String,
    pub max_segment_size: u64,
    pub max_segments: usize,
}

/// The file name of the segment with a given number: six digits at least, zero padded.
pub open spec fn segment_name(id: u64) -> Seq<char> {
    zero_padded(decimal(id as nat), 6) + ".deir"@
}

/// The temporary file name a rewrite into segment `id` goes through.
pub open spec fn rewrite_temp_name(id: u64) -> Seq<char> {
    ".rewrite."@ + zero_padded(decimal(id as nat), 6) + ".tmp"@
}

/// A record framed for a segment: its length as 8 bytes little endian, then the record.
pub open spec fn framed(p: Seq<u8>) -> Seq<u8> {
    le_bytes(p.len(), 8) + p
}

/// Records framed one after the other.
pub open spec fn framed_all(ps: Seq<Seq<u8>>) -> Seq<u8>
    decreases ps.len(),
{
    if ps.len() == 0 {
        seq![]
    } else {
        framed(ps[0]) + framed_all(ps.drop_first())
    }
}

/// The bounds of the last record of a segment, walking the frames from `off`;
/// `None` where a frame is cut short.
pub open spec fn last_frame(b: Seq<u8>, off: nat) -> Option<(nat, nat)>
    decreases b.len() - off,
{
    if off + 8 > b.len() {
        None
    } else {
        let n = le_value(b.subrange(off as int, (off + 8) as int));
        let start = off + 8;
        let end = start + n;
        if end > b.len() {
            None
        } else if end == b.len() {
            Some((start, end))
        } else {
            last_frame(b, end)
        }
    }
}

/// The message a segment is refused with, walking the frames from `off`,
/// where no complete last record is found: a length cut short; a length
/// that does not fit `usize`; a frame end past `usize::MAX`; a record cut
/// short.
pub open spec fn frame_error(b: Seq<u8>, off: nat) -> Seq<char>
    decreases b.len() - off,
{
    if off + 8 > b.len() {
        "truncated segment record header"@
    } else {
        let n = le_value(b.subrange(off as int, (off + 8) as int));
        let start = off + 8;
        if n > usize::MAX {
            "snapshot is too large"@
        } else if start + n > usize::MAX {
            "snapshot length overflow"@
        } else if start + n > b.len() {
            "truncated segment record payload"@
        } else if start + n == b.len() {
            "segment contains no complete record"@
        } else {
            frame_error(b, start + n)
        }
    }
}

/// The `u64` a text writes, as `str::parse` reads it: an optional `+`, then
/// at least one decimal digit, at most `u64::MAX`.
pub open spec fn spec_parse_u64(v: Seq<char>) -> Option<u64> {
    let d = if v.len() > 0 && v[0] == '+' {
        v.drop_first()
    } else {
        v
    };
    if d.len() > 0 && all_digits(d) && digits_value(d) <= u64::MAX {
        Some(digits_value(d) as u64)
    } else {
        None
    }
}

/// A file name with the segment extension: `.deir` after at least one character.
pub open spec fn is_segment_file(name: Seq<char>) -> bool {
    name.len() > 5 && name.subrange(name.len() - 5, name.len() as int) == seq!['.', 'd', 'e', 'i', 'r']
}

/// The number of a segment file name: its stem read as a `u64`.
pub open spec fn segment_id_of(name: Seq<char>) -> Option<u64> {
    if is_segment_file(name) {
        spec_parse_u64(name.subrange(0, name.len() - 5))
    } else {
        None
    }
}

/// Reads a `u64` as `str::parse` does.
pub fn parse_u64(v: &Vec<char>) -> (r: Option<u64>)
    ensures
        r == spec_parse_u64(v@),
{
    let start: usize = if v.len() > 0 && v[0] == '+' { 1 } else { 0 };
    let ghost d = v@.skip(start as int);
    proof {
        if start == 1 {
            assert(d =~= v@.drop_first());
        } else {
            assert(d =~= v@);
        }
    }
    if start == v.len() {
        return None;
    }
    let mut i: usize = start;
    while i < v.len()
        invariant
            start <= i <= v@.len(),
            d == v@.skip(start as int),
            d == (if v@.len() > 0 && v@[0] == '+' {
                v@.drop_first()
            } else {
                v@
            }),
            forall|m: int| 0 <= m < i - start ==> is_digit(#[trigger] d[m]),
        decreases v.len() - i,
    {
        if !('0' <= v[i] && v[i] <= '9') {
            assert(d[i - start] == v@[i as int]);
            assert(!is_digit(d[i - start]));
            assert(!all_digits(d));
            return None;
        }
        i += 1;
    }
    assert(all_digits(d));
    match digits_upto(v, start, 0xffff_ffff_ffff_ffff) {
        Some(n) => Some(n as u64),
        None => None,
    }
}

/// Whether a file name has the segment extension.
pub fn is_segment_file_name(name: &str) -> (r: bool)
    ensures
        r == is_segment_file(name@),
{
    let cs = chars_of(name);
    let n = cs.len();
    if n <= 5 {
        return false;
    }
    let r = cs[n - 5] == '.' && cs[n - 4] == 'd' && cs[n - 3] == 'e' && cs[n - 2] == 'i' && cs[n - 1] == 'r';
    proof {
        let tail = name@.subrange(n - 5, n as int);
        if r {
            assert(tail =~= seq!['.', 'd', 'e', 'i', 'r']);
        } else {
            if tail == seq!['.', 'd', 'e', 'i', 'r'] {
                assert(tail[0] == cs@[n - 5]);
                assert(tail[1] == cs@[n - 4]);
                assert(tail[2] == cs@[n - 3]);
                assert(tail[3] == cs@[n - 2]);
                assert(tail[4] == cs@[n - 1]);
            }
        }
    }
    r
}

/// The number of a segment file name, where the name has the segment
/// extension and its stem reads as a `u64`.
pub fn segment_id(name: &str) -> (r: Option<u64>)
    ensures
        r == segment_id_of(name@),
{
    if !is_segment_file_name(name) {
        return None;
    }
    let cs = chars_of(name);
    let stem_len = cs.len() - 5;
    let mut stem: Vec<char> = Vec::new();
    let mut i: usize = 0;
    while i < stem_len
        invariant
            stem_len == cs@.len() - 5,
            i <= stem_len,
            stem@ =~= cs@.subrange(0, i as int),
        decreases stem_len - i,
    {
        stem.push(cs[i]);
        i += 1;
    }
    parse_u64(&stem)
}

/// How many of the file names have the segment extension.
pub fn count_segments(names: &Vec<String>) -> (r: usize)
    ensures
        r == names@.filter(|s: String| is_segment_file(s@)).len(),
{
    let ghost pred = |s: String| is_segment_file(s@);
    let mut count: usize = 0;
    let mut i: usize = 0;
    while i < names.len()
        invariant
            i <= names@.len(),
            pred == (|s: String| is_segment_file(s@)),
            count == names@.take(i as int).filter(pred).len(),
            count <= i,
        decreases names.len() - i,
    {
        proof {
            assert(names@.take(i + 1).drop_last() =~= names@.take(i as int));
            reveal_with_fuel(Seq::filter, 1);
        }
        if is_segment_file_name(names[i].as_str()) {
            count += 1;
        }
        i += 1;
    }
    assert(names@.take(names.len() as int) =~= names@);
    count
}

/// The segment files a rewrite removes once its new segment `keep` is in
/// place: every name with the segment extension other than `keep`, in order.
pub fn obsolete_segments(names: &Vec<String>, keep: &str) -> (r: Vec<String>)
    ensures
        r@.map_values(|s: String| s@) == names@.map_values(|s: String| s@).filter(
            |n: Seq<char>| is_segment_file(n) && n != keep@,
        ),
{
    let ghost pred = |n: Seq<char>| is_segment_file(n) && n != keep@;
    let ghost all = names@.map_values(|s: String| s@);
    let mut out: Vec<String> = Vec::new();
    let mut i: usize = 0;
    while i < names.len()
        invariant
            i <= names@.len(),
            all == names@.map_values(|s: String| s@),
            pred == (|n: Seq<char>| is_segment_file(n) && n != keep@),
            out@.map_values(|s: String| s@) == all.take(i as int).filter(pred),
        decreases names.len() - i,
    {
        proof {
            assert(all.take(i + 1).drop_last() =~= all.take(i as int));
            assert(all.take(i + 1).last() == names@[i as int]@);
            reveal_with_fuel(Seq::filter, 1);
        }
        let name = names[i].as_str();
        if is_segment_file_name(name) && !crate::text::str_eq(name, keep) {
            let ghost before = out@;
            out.push(name.to_owned());
            assert(out@.map_values(|s: String| s@) =~= before.map_values(|s: String| s@).push(name@));
        }
        i += 1;
    }
    assert(all.take(names.len() as int) =~= all);
    out
}

/// The segment with the highest number among the file names: the number and
/// the position of the name; where several names share it, the last of them.
pub fn latest_segment(names: &Vec<String>) -> (r: Option<(u64, usize)>)
    ensures
        match r {
            None => forall|j: int| 0 <= j < names@.len() ==> segment_id_of(#[trigger] names@[j]@) is None,
            Some((id, at)) => {
                &&& at < names@.len()
                &&& segment_id_of(names@[at as int]@) == Some(id)
                &&& forall|j: int|
                    0 <= j < names@.len() ==> match segment_id_of(#[trigger] names@[j]@) {
                        Some(x) => x < id || (x == id && j <= at),
                        None => true,
                    }
            },
        },
{
    let mut best: Option<(u64, usize)> = None;
    let mut i: usize = 0;
    while i < names.len()
        invariant
            i <= names@.len(),
            match best {
                None => forall|j: int| 0 <= j < i ==> segment_id_of(#[trigger] names@[j]@) is None,
                Some((id, at)) => {
                    &&& at < i
                    &&& segment_id_of(names@[at as int]@) == Some(id)
                    &&& forall|j: int|
                        0 <= j < i ==> match segment_id_of(#[trigger] names@[j]@) {
                            Some(x) => x < id || (x == id && j <= at),
                            None => true,
                        }
                },
            },
        decreases names.len() - i,
    {
        match segment_id(names[i].as_str()) {
            Some(id) => {
                let replace = match best {
                    None => true,
                    Some((b, _)) => id >= b,
                };
                if replace {
                    best = Some((id, i));
                }
            },
            None => {},
        }
        i += 1;
    }
    best
}

/// Decimal text is all digits and reads back as the number it writes.
proof fn lemma_decimal_digits(n: nat)
    ensures
        decimal(n).len() >= 1,
        all_digits(decimal(n)),
        digits_value(decimal(n)) == n,
    decreases n,
{
    if n < 10 {
        let d = decimal(n);
        assert(d.drop_last() =~= Seq::<char>::empty());
        assert(d[0] == (n + 48) as char);
        assert(((n + 48) as char) as int == n + 48);
        assert(is_digit(d[0]));
        assert(digits_value(d) == digits_value(d.drop_last()) * 10 + (d.last() as int - '0' as int));
    } else {
        lemma_decimal_digits(n / 10);
        let d = decimal(n);
        let c = ((n % 10) + 48) as char;
        assert(d == decimal(n / 10).push(c));
        assert(d.drop_last() =~= decimal(n / 10));
        assert(d.last() == c);
        assert(c as int == (n % 10) + 48);
        assert(digits_value(d) == digits_value(decimal(n / 10)) * 10 + (c as int - '0' as int));
        assert forall|i: int| 0 <= i < d.len() implies is_digit(#[trigger] d[i]) by {
            if i < d.len() - 1 {
                assert(d[i] == decimal(n / 10)[i]);
            }
        }
    }
}

/// Zeros in front of digits change neither that they are digits nor what they write.
proof fn lemma_leading_zeros(pad: nat, s: Seq<char>)
    requires
        all_digits(s),
    ensures
        all_digits(Seq::new(pad, |k: int| '0') + s),
        digits_value(Seq::new(pad, |k: int| '0') + s) == digits_value(s),
    decreases s.len() + pad,
{
    let z = Seq::new(pad, |k: int| '0');
    let t = z + s;
    assert forall|i: int| 0 <= i < t.len() implies is_digit(#[trigger] t[i]) by {
        if i >= pad {
            assert(t[i] == s[i - pad]);
        }
    }
    if s.len() == 0 {
        if pad > 0 {
            let z1 = Seq::new((pad - 1) as nat, |k: int| '0');
            lemma_leading_zeros((pad - 1) as nat, s);
            assert(t.drop_last() =~= z1 + s);
            assert(t.last() == '0');
        } else {
            assert(t =~= s);
        }
    } else {
        assert(all_digits(s.drop_last()));
        lemma_leading_zeros(pad, s.drop_last());
        assert(t.drop_last() =~= z + s.drop_last());
        assert(t.last() == s.last());
    }
}

/// A segment is found again by its file name: the number read back from the
/// name that `segment_file_name` gives segment `id` (as `create`, `rotate`
/// and `rewrite` name segments, and as `latest_segment` reads them) is `id`.
pub proof fn lemma_segment_name_roundtrip(id: u64)
    ensures
        segment_id_of(segment_name(id)) == Some(id),
{
    let d = decimal(id as nat);
    lemma_decimal_digits(id as nat);
    let pad: nat = if d.len() < 6 {
        (6 - d.len()) as nat
    } else {
        0
    };
    lemma_zero_padded(d, 6, pad);
    lemma_leading_zeros(pad, d);
    let p = zero_padded(d, 6);
    assert(p == Seq::new(pad, |k: int| '0') + d);
    reveal_strlit(".deir");
    let name = segment_name(id);
    assert(name == p + ".deir"@);
    assert(name.subrange(name.len() - 5, name.len() as int) =~= seq!['.', 'd', 'e', 'i', 'r']);
    assert(name.subrange(0, name.len() - 5) =~= p);
    assert(p.len() > 0);
    assert(is_digit(p[0]));
    assert(p[0] != '+');
}

/// Walking frames that follow any prefix ends on the last of them.
proof fn lemma_last_frame_after(pre: Seq<u8>, ps: Seq<Seq<u8>>)
    requires
        ps.len() > 0,
        forall|i: int| 0 <= i < ps.len() ==> #[trigger] ps[i].len() < pow256(8),
    ensures
        last_frame(pre + framed_all(ps), pre.len()) == Some(
            (
                (pre.len() + framed_all(ps).len() - ps.last().len()) as nat,
                (pre.len() + framed_all(ps).len()) as nat,
            ),
        ),
    decreases ps.len(),
{
    let p = ps[0];
    let rest = ps.drop_first();
    let b = pre + framed_all(ps);
    let off = pre.len();
    lemma_le_roundtrip(p.len(), 8);
    assert(framed_all(ps) == framed(p) + framed_all(rest));
    assert(b.subrange(off as int, (off + 8) as int) =~= le_bytes(p.len(), 8));
    if rest.len() == 0 {
        assert(framed_all(rest) =~= Seq::<u8>::empty());
        assert(ps.last() == p);
    } else {
        assert forall|i: int| 0 <= i < rest.len() implies #[trigger] rest[i].len() < pow256(8) by {
            assert(rest[i] == ps[i + 1]);
        }
        lemma_last_frame_after(pre + framed(p), rest);
        assert(b =~= (pre + framed(p)) + framed_all(rest));
        assert(rest.last() == ps.last());
        lemma_framed_all_len(rest);
    }
}

proof fn lemma_framed_all_len(ps: Seq<Seq<u8>>)
    requires
        ps.len() > 0,
    ensures
        framed_all(ps).len() >= 8 + ps.last().len(),
    decreases ps.len(),
{
    lemma_pow256_values();
    let rest = ps.drop_first();
    if rest.len() > 0 {
        lemma_framed_all_len(rest);
        assert(rest.last() == ps.last());
    }
    lemma_le_len(ps[0].len(), 8);
}


/// The records whose frames make up `b` from `off` on, where walking the
/// frames from `off` ends on a last record.
proof fn frames_from(b: Seq<u8>, off: nat) -> (ps: Seq<Seq<u8>>)
    requires
        off <= b.len(),
        last_frame(b, off) is Some,
    ensures
        ps.len() > 0,
        forall|i: int| 0 <= i < ps.len() ==> #[trigger] ps[i].len() < pow256(8),
        b.subrange(off as int, b.len() as int) == framed_all(ps),
        b.subrange((last_frame(b, off)->0).0 as int, (last_frame(b, off)->0).1 as int) == ps.last(),
    decreases b.len() - off,
{
    let head = b.subrange(off as int, (off + 8) as int);
    let n = le_value(head);
    let start = off + 8;
    let end = start + n;
    let p = b.subrange(start as int, end as int);
    lemma_le_bytes_of_value(head);
    lemma_le_value_bound(head);
    assert(p.len() == n);
    assert(framed(p) =~= b.subrange(off as int, end as int));
    if end == b.len() {
        let ps = seq![p];
        assert(ps.drop_first() =~= Seq::<Seq<u8>>::empty());
        assert(ps[0] == p);
        assert(framed_all(ps.drop_first()) == Seq::<u8>::empty());
        assert(framed_all(ps) == framed(p) + framed_all(ps.drop_first()));
        assert(framed_all(ps) =~= framed(p));
        ps
    } else {
        let rest = frames_from(b, end);
        let ps = seq![p] + rest;
        assert(ps.drop_first() =~= rest);
        assert(ps[0] == p);
        assert(b.subrange(off as int, b.len() as int) =~= b.subrange(off as int, end as int) + b.subrange(
            end as int,
            b.len() as int,
        ));
        assert forall|i: int| 0 <= i < ps.len() implies #[trigger] ps[i].len() < pow256(8) by {
            if i > 0 {
                assert(ps[i] == rest[i - 1]);
            }
        }
        assert(ps.last() == rest.last());
        ps
    }
}

/// Walking the frames of a segment ends on a last record only where the
/// segment is records framed one after the other, and that record is the
/// last of them: every other non-empty segment is refused by
/// `decode_last_record` as an invalid format.
pub proof fn lemma_last_frame_only_of_frames(b: Seq<u8>)
    requires
        last_frame(b, 0) is Some,
    ensures
        exists|ps: Seq<Seq<u8>>|
            #![trigger framed_all(ps)]
            ps.len() > 0 && b == framed_all(ps) && (forall|i: int| 0 <= i < ps.len() ==> #[trigger] ps[i].len()
                < pow256(8)) && b.subrange((last_frame(b, 0)->0).0 as int, (last_frame(b, 0)->0).1 as int)
                == ps.last(),
{
    let ps = frames_from(b, 0);
    assert(b.subrange(0, b.len() as int) =~= b);
}

/// Of records framed one after the other in a segment, reading the last
/// record gives back the last one framed: what `decode_last_record` returns
/// after a run of `encode_record` calls whose frames were appended in order.
pub proof fn lemma_last_record_is_latest(ps: Seq<Seq<u8>>)
    requires
        ps.len() > 0,
        forall|i: int| 0 <= i < ps.len() ==> #[trigger] ps[i].len() < pow256(8),
    ensures
        match last_frame(framed_all(ps), 0) {
            Some((s, e)) => framed_all(ps).subrange(s as int, e as int) == ps.last(),
            None => false,
        },
    decreases ps.len(),
{
    lemma_last_frame_after(Seq::<u8>::empty(), ps);
    assert(Seq::<u8>::empty() + framed_all(ps) =~= framed_all(ps));
    lemma_last_frame_tail(ps);
}

proof fn lemma_last_frame_tail(ps: Seq<Seq<u8>>)
    requires
        ps.len() > 0,
    ensures
        framed_all(ps).len() >= ps.last().len(),
        framed_all(ps).subrange(
            framed_all(ps).len() - ps.last().len(),
            framed_all(ps).len() as int,
        ) == ps.last(),
    decreases ps.len(),
{
    let rest = ps.drop_first();
    lemma_le_len(ps[0].len(), 8);
    if rest.len() == 0 {
        assert(framed_all(rest) =~= Seq::<u8>::empty());
        assert(framed_all(ps) =~= framed(ps[0]));
    } else {
        lemma_last_frame_tail(rest);
        assert(rest.last() == ps.last());
        let f = framed_all(ps);
        let g = framed_all(rest);
        assert(f == framed(ps[0]) + g);
        assert(f.subrange(f.len() - ps.last().len(), f.len() as int) =~= g.subrange(
            g.len() - ps.last().len(),
            g.len() as int,
        ));
    }
}

/// Manages the segments of a store.
#[derive(Debug, Clone)]
pub struct SegmentManager {
    pub config: StorageConfig,
    pub active: Segment,
    pub active_id: u64,
}

fn literal(s: &str) -> (r: Vec<char>)
    ensures
        r@ == s@,
{
    crate::text::chars_of(s)
}

fn append_chars(out: &mut Vec<char>, s: &Vec<char>)
    ensures
        final(out)@ == old(out)@ + s@,
{
    let mut i: usize = 0;
    while i < s.len()
        invariant
            i <= s@.len(),
            out@ =~= old(out)@ + s@.take(i as int),
        decreases s.len() - i,
    {
        out.push(s[i]);
        i += 1;
    }
    assert(s@.take(s.len() as int) =~= s@);
}

/// The file name of the segment with a given number.
pub fn segment_file_name(id: u64) -> (r: String)
    ensures
        r@ == segment_name(id),
{
    let mut name = zero_padded_decimal(id, 6);
    append_chars(&mut name, &literal(".deir"));
    string_from_chars(name.as_slice())
}

/// The temporary file name a rewrite into segment `id` goes through.
pub fn rewrite_temp_file_name(id: u64) -> (r: String)
    ensures
        r@ == rewrite_temp_name(id),
{
    let mut name = literal(".rewrite.");
    append_chars(&mut name, &zero_padded_decimal(id, 6));
    append_chars(&mut name, &literal(".tmp"));
    string_from_chars(name.as_slice())
}

impl SegmentManager {
    /// A manager whose active segment is the first one, number 1.
    pub fn new(config: StorageConfig, active: Segment) -> (r: Self)
        ensures
            r.config == config,
            r.active == active,
            r.active_id == 1,
    {
        SegmentManager { config, active, active_id: 1 }
    }

    /// Where the active segment is.
    pub fn path(&self) -> (r: &str)
        ensures
            r@ == self.active.file.path@,
    {
        self.active.path()
    }

    /// The number of the active segment.
    pub fn active_id(&self) -> (r: u64)
        ensures
            r == self.active_id,
    {
        self.active_id
    }

    /// Whether a record of `payload_len` bytes would make the active segment,
    /// now `active_size` bytes, exceed the maximum segment size.
    pub fn should_rotate(&self, active_size: u64, payload_len: u64) -> (r: bool)
        requires
            active_size + payload_len <= u64::MAX,
        ensures
            r == (active_size + payload_len > self.config.max_segment_size),
    {
        active_size + payload_len > self.config.max_segment_size
    }

    /// The number and file name of the next segment, given how many segments
    /// there are: refused once the maximum number of segments is reached.
    pub fn rotate(&self, segment_count: usize) -> (r: Result<(u64, String), Error>)
        requires
            self.active_id < u64::MAX,
        ensures
            segment_count >= self.config.max_segments ==> r == Err::<(u64, String), Error>(
                Error::StorageLimit { max_segments: self.config.max_segments },
            ),
            segment_count < self.config.max_segments ==> (r matches Ok((id, name))
                && id == self.active_id + 1 && name@ == segment_name(id)),
    {
        if segment_count >= self.config.max_segments {
            return Err(Error::StorageLimit { max_segments: self.config.max_segments });
        }
        let next_id = self.active_id + 1;
        Ok((next_id, segment_file_name(next_id)))
    }

    /// Makes `active`, numbered `id`, the active segment.
    pub fn install(&mut self, active: Segment, id: u64)
        ensures
            final(self).config == old(self).config,
            final(self).active == active,
            final(self).active_id == id,
    {
        self.active = active;
        self.active_id = id;
    }

    /// The number, temporary file name and final file name of the segment a
    /// rewrite produces; refused where the number would overflow.
    pub fn rewrite(&self) -> (r: Result<(u64, String, String), Error>)
        ensures
            self.active_id == u64::MAX ==> (r matches Err(Error::InvalidFormat(m)) && m@
                == "segment ID overflow"@),
            self.active_id < u64::MAX ==> (r matches Ok((id, temp, name)) && id == self.active_id + 1
                && temp@ == rewrite_temp_name(id) && name@ == segment_name(id)),
    {
        let next_id = match self.active_id.checked_add(1) {
            Some(n) => n,
            None => return Err(Error::InvalidFormat("segment ID overflow".to_owned())),
        };
        Ok((next_id, rewrite_temp_file_name(next_id), segment_file_name(next_id)))
    }

    /// Frames a record: its length as 8 bytes little endian, then the record.
    pub fn encode_record(payload: &[u8]) -> (r: Result<Vec<u8>, Error>)
        ensures
            r matches Ok(f) && f@ == framed(payload@),
    {
        let mut out: Vec<u8> = Vec::new();
        let mut x: u64 = payload.len() as u64;
        let mut i: usize = 0;
        while i < RECORD_HEADER_SIZE
            invariant
                i <= 8,
                out@ + le_bytes(x as nat, (8 - i) as nat) == le_bytes(payload@.len(), 8),
            decreases 8 - i,
        {
            let ghost before = out@;
            let b = (x % 256) as u8;
            out.push(b);
            assert(le_bytes(x as nat, (8 - i) as nat) == seq![b] + le_bytes((x / 256) as nat, (8 - i - 1) as nat));
            assert(before + le_bytes(x as nat, (8 - i) as nat) =~= out@ + le_bytes((x / 256) as nat, (8 - i - 1) as nat));
            x = x / 256;
            i += 1;
        }
        assert(out@ + le_bytes(x as nat, 0) =~= out@);
        let mut j: usize = 0;
        let ghost head = out@;
        while j < payload.len()
            invariant
                j <= payload@.len(),
                out@ =~= head + payload@.take(j as int),
            decreases payload.len() - j,
        {
            out.push(payload[j]);
            j += 1;
        }
        assert(payload@.take(payload.len() as int) =~= payload@);
        Ok(out)
    }

    /// The last record of a segment's payload. An empty payload holds no
    /// snapshot; a frame cut short is an invalid format.
    pub fn decode_last_record(bytes: &[u8]) -> (r: Result<Vec<u8>, Error>)
        ensures
            bytes@.len() == 0 ==> (r matches Err(Error::Io { kind: k, .. }) && k == IoErrorKind::NotFound),
            bytes@.len() > 0 ==> match last_frame(bytes@, 0) {
                Some((s, e)) => (r matches Ok(p) && p@ == bytes@.subrange(s as int, e as int)),
                None => (r matches Err(Error::InvalidFormat(m)) && m@ == frame_error(bytes@, 0)),
            },
    {
        if bytes.len() == 0 {
            return Err(Error::Io {
                kind: IoErrorKind::NotFound,
                message: "database snapshot does not exist".to_owned(),
            });
        }
        let mut offset: usize = 0;
        while offset < bytes.len()
            invariant
                0 < bytes@.len(),
                offset < bytes@.len(),
                last_frame(bytes@, 0) == last_frame(bytes@, offset as nat),
                last_frame(bytes@, 0) is None ==> frame_error(bytes@, 0) == frame_error(bytes@, offset as nat),
            decreases bytes.len() - offset,
        {
            if bytes.len() - offset < RECORD_HEADER_SIZE {
                return Err(Error::InvalidFormat("truncated segment record header".to_owned()));
            }
            let len = read_u64_le(bytes, offset);
            if len > usize::MAX as u64 {
                return Err(Error::InvalidFormat("snapshot is too large".to_owned()));
            }
            let len = len as usize;
            let payload_start = offset + RECORD_HEADER_SIZE;
            let payload_end = match payload_start.checked_add(len) {
                Some(end) => end,
                None => return Err(Error::InvalidFormat("snapshot length overflow".to_owned())),
            };
            if payload_end > bytes.len() {
                return Err(Error::InvalidFormat("truncated segment record payload".to_owned()));
            }
            offset = payload_end;
            if offset == bytes.len() {
                let mut out: Vec<u8> = Vec::new();
                let mut k: usize = payload_start;
                while k < payload_end
                    invariant
                        payload_start <= k <= payload_end <= bytes@.len(),
                        out@ =~= bytes@.subrange(payload_start as int, k as int),
                    decreases payload_end - k,
                {
                    out.push(bytes[k]);
                    k += 1;
                }
                return Ok(out);
            }
        }
        Err(Error::InvalidFormat("segment contains no complete record".to_owned()))
    }
}

/// The number that the 8 bytes at `start` write, little endian.
fn read_u64_le(b: &[u8], start: usize) -> (r: u64)
    requires
        start + 8 <= b.len(),
    ensures
        r as nat == le_value(b@.subrange(start as int, start + 8)),
{
    crate::storage::deir::read_le(b, start, 8)
}

} // verus!
