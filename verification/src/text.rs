//! Text primitives: normalisation, trimming and whitespace tokenisation.
//!
//! Unicode case mapping and the Unicode `White_Space` property come from the
//! standard library; everything built on top of them is verified here.
use vstd::prelude::*;

verus! {

/// What `str::to_lowercase` returns for a given text (Unicode case mapping).
pub uninterp spec fn spec_lowercase(s: Seq<char>) -> Seq<char>;

/// Whether a character has the Unicode `White_Space` property, as
/// `char::is_whitespace` tells: tab to carriage return, space, next line,
/// no-break space, Ogham space mark, the spaces from en quad to hair space,
/// line and paragraph separator, narrow no-break space, medium mathematical
/// space and ideographic space.
pub open spec fn spec_is_whitespace(c: char) -> bool {
    let v = c as u32;
    ||| 0x09 <= v <= 0x0d
    ||| v == 0x20
    ||| v == 0x85
    ||| v == 0xa0
    ||| v == 0x1680
    ||| 0x2000 <= v <= 0x200a
    ||| v == 0x2028
    ||| v == 0x2029
    ||| v == 0x202f
    ||| v == 0x205f
    ||| v == 0x3000
}

/// Calls `str::to_lowercase`; its result is named by `spec_lowercase`.
#[verifier::external_body]
fn lowercase(s: &str) -> (r: String)
    ensures
        r@ == spec_lowercase(s@),
{
    s.to_lowercase()
}

/// Whether a character has the Unicode `White_Space` property.
pub(crate) fn is_whitespace(c: char) -> (r: bool)
    ensures
        r == spec_is_whitespace(c),
{
    let v = c as u32;
    (0x09 <= v && v <= 0x0d) || v == 0x20 || v == 0x85 || v == 0xa0 || v == 0x1680 || (0x2000 <= v
        && v <= 0x200a) || v == 0x2028 || v == 0x2029 || v == 0x202f || v == 0x205f || v == 0x3000
}

/// The characters of a string slice, in order.
pub(crate) fn chars_of(s: &str) -> (r: Vec<char>)
    ensures
        r@ == s@,
{
    let mut out: Vec<char> = Vec::new();
    for c in it: s.chars()
        invariant
            out@ == it.seq().take(it.index() as int),
            it.seq() == s@,
    {
        out.push(c);
    }
    out
}

/// `String::push`: appends a character to the end of the string.
#[verifier::external_body]
fn push_char(s: &mut String, c: char)
    ensures
        final(s)@ == old(s)@.push(c),
{
    s.push(c)
}

/// A string made of the given characters, in order.
pub(crate) fn string_from_chars(cs: &[char]) -> (r: String)
    ensures
        r@ == cs@,
{
    let mut out = String::new();
    let mut i: usize = 0;
    while i < cs.len()
        invariant
            i <= cs@.len(),
            out@ == cs@.take(i as int),
        decreases cs.len() - i,
    {
        push_char(&mut out, cs[i]);
        assert(cs@.take(i + 1) =~= cs@.take(i as int).push(cs@[i as int]));
        i += 1;
    }
    assert(cs@.take(cs.len() as int) =~= cs@);
    out
}

/// Whether two string slices hold the same characters.
pub(crate) fn str_eq(a: &str, b: &str) -> (r: bool)
    ensures
        r == (a@ == b@),
{
    let x = chars_of(a);
    let y = chars_of(b);
    if x.len() != y.len() {
        return false;
    }
    let mut i: usize = 0;
    while i < x.len()
        invariant
            x@ == a@,
            y@ == b@,
            x@.len() == y@.len(),
            i <= x@.len(),
            forall|k: int| 0 <= k < i ==> x@[k] == y@[k],
        decreases x.len() - i,
    {
        if x[i] != y[i] {
            return false;
        }
        i += 1;
    }
    assert(a@ =~= b@);
    true
}

/// Each hyphen replaced by a space.
pub open spec fn replace_dashes(s: Seq<char>) -> Seq<char> {
    s.map_values(|c: char| if c == '-' { ' ' } else { c })
}

/// The text without its leading whitespace.
pub open spec fn trim_start(s: Seq<char>) -> Seq<char>
    decreases s.len(),
{
    if s.len() > 0 && spec_is_whitespace(s[0]) {
        trim_start(s.drop_first())
    } else {
        s
    }
}

/// The text without its trailing whitespace.
pub open spec fn trim_end(s: Seq<char>) -> Seq<char>
    decreases s.len(),
{
    if s.len() > 0 && spec_is_whitespace(s.last()) {
        trim_end(s.drop_last())
    } else {
        s
    }
}

/// The text without leading and trailing whitespace (`str::trim`).
pub open spec fn trim(s: Seq<char>) -> Seq<char> {
    trim_end(trim_start(s))
}

/// The normal form used for every lookup key: lower case, hyphens turned
/// into spaces, surrounding whitespace removed.
pub open spec fn spec_normalize(s: Seq<char>) -> Seq<char> {
    trim(replace_dashes(spec_lowercase(s)))
}

/// What `trim_start` leaves is a suffix of the text that does not start
/// with whitespace.
proof fn lemma_trim_start(s: Seq<char>) -> (k: int)
    ensures
        0 <= k <= s.len(),
        trim_start(s) == s.subrange(k, s.len() as int),
        trim_start(s).len() > 0 ==> !spec_is_whitespace(trim_start(s)[0]),
    decreases s.len(),
{
    if s.len() > 0 && spec_is_whitespace(s[0]) {
        let k = lemma_trim_start(s.drop_first());
        assert(s.drop_first().subrange(k, s.drop_first().len() as int) =~= s.subrange(k + 1, s.len() as int));
        k + 1
    } else {
        assert(s.subrange(0, s.len() as int) =~= s);
        0
    }
}

/// What `trim_end` leaves is a prefix of the text that does not end with
/// whitespace.
proof fn lemma_trim_end(s: Seq<char>) -> (k: int)
    ensures
        0 <= k <= s.len(),
        trim_end(s) == s.subrange(0, k),
        trim_end(s).len() > 0 ==> !spec_is_whitespace(trim_end(s).last()),
    decreases s.len(),
{
    if s.len() > 0 && spec_is_whitespace(s.last()) {
        let k = lemma_trim_end(s.drop_last());
        assert(s.drop_last().subrange(0, k) =~= s.subrange(0, k));
        k
    } else {
        assert(s.subrange(0, s.len() as int) =~= s);
        s.len() as int
    }
}

/// A normal form holds no hyphen, neither starts nor ends with whitespace,
/// and trimming leaves it as it is.
pub proof fn lemma_normal_form(s: Seq<char>)
    ensures
        !spec_normalize(s).contains('-'),
        spec_normalize(s).len() > 0 ==> !spec_is_whitespace(spec_normalize(s)[0])
            && !spec_is_whitespace(spec_normalize(s).last()),
        trim(spec_normalize(s)) == spec_normalize(s),
{
    let r = replace_dashes(spec_lowercase(s));
    let a = lemma_trim_start(r);
    let t = trim_start(r);
    let b = lemma_trim_end(t);
    let n = spec_normalize(s);
    assert(n == t.subrange(0, b));
    assert forall|i: int| 0 <= i < n.len() implies n[i] != '-' by {
        assert(n[i] == t[i]);
        assert(t[i] == r[a + i]);
    }
    if n.len() > 0 {
        assert(n[0] == t[0]);
    }
    let a2 = lemma_trim_start(n);
    if n.len() > 0 {
        assert(trim_start(n) == n);
    } else {
        assert(trim_start(n) =~= n);
    }
    let b2 = lemma_trim_end(n);
    if n.len() > 0 {
        assert(trim_end(n) == n);
    } else {
        assert(trim_end(n) =~= n);
    }
}

/// The word that is still being read, closed off into a list of words.
pub open spec fn close_word(cur: Seq<char>) -> Seq<Seq<char>> {
    if cur.len() > 0 {
        seq![cur]
    } else {
        seq![]
    }
}

/// The maximal runs of non-whitespace characters of `s`, in order, where
/// `cur` is a word already begun before `s`.
pub open spec fn words_from(s: Seq<char>, cur: Seq<char>) -> Seq<Seq<char>>
    decreases s.len(),
{
    if s.len() == 0 {
        close_word(cur)
    } else if spec_is_whitespace(s[0]) {
        close_word(cur) + words_from(s.drop_first(), seq![])
    } else {
        words_from(s.drop_first(), cur.push(s[0]))
    }
}

/// The whitespace-separated words of `s` (`str::split_whitespace`).
pub open spec fn words(s: Seq<char>) -> Seq<Seq<char>> {
    words_from(s, seq![])
}

/// `trim` on a character sequence.
pub fn trim_chars(s: &Vec<char>) -> (r: Vec<char>)
    ensures
        r@ == trim(s@),
{
    let mut start: usize = 0;
    assert(s@.skip(0) =~= s@);
    while start < s.len() && is_whitespace(s[start])
        invariant
            start <= s.len(),
            trim_start(s@) == trim_start(s@.skip(start as int)),
        decreases s.len() - start,
    {
        assert(s@.skip(start as int).drop_first() =~= s@.skip(start + 1));
        start += 1;
    }
    assert(trim_start(s@) == s@.skip(start as int));
    assert(s@.skip(start as int) =~= s@.subrange(start as int, s.len() as int));
    let mut end: usize = s.len();
    while end > start && is_whitespace(s[end - 1])
        invariant
            start <= end <= s.len(),
            trim(s@) == trim_end(s@.subrange(start as int, end as int)),
        decreases end,
    {
        assert(s@.subrange(start as int, end as int).drop_last() =~= s@.subrange(
            start as int,
            end - 1,
        ));
        end -= 1;
    }
    assert(trim(s@) == s@.subrange(start as int, end as int));
    let mut r: Vec<char> = Vec::new();
    let mut i: usize = start;
    while i < end
        invariant
            start <= i <= end <= s.len(),
            r@ =~= s@.subrange(start as int, i as int),
        decreases end - i,
    {
        r.push(s[i]);
        i += 1;
    }
    r
}

/// Normalises a text: lower case, hyphens as spaces, trimmed.
pub fn normalize(value: &str) -> (r: String)
    ensures
        r@ == spec_normalize(value@),
{
    let lower = lowercase(value);
    let cs = chars_of(lower.as_str());
    let mut replaced: Vec<char> = Vec::new();
    let mut i: usize = 0;
    while i < cs.len()
        invariant
            i <= cs.len(),
            replaced@ =~= replace_dashes(cs@.take(i as int)),
        decreases cs.len() - i,
    {
        let c = cs[i];
        if c == '-' {
            replaced.push(' ');
        } else {
            replaced.push(c);
        }
        assert(cs@.take(i + 1) =~= cs@.take(i as int).push(c));
        i += 1;
    }
    assert(cs@.take(cs.len() as int) =~= cs@);
    let trimmed = trim_chars(&replaced);
    string_from_chars(trimmed.as_slice())
}

/// `words` on a character sequence.
pub fn split_words(s: &Vec<char>) -> (r: Vec<Vec<char>>)
    ensures
        r@.map_values(|w: Vec<char>| w@) == words(s@),
{
    let mut out: Vec<Vec<char>> = Vec::new();
    let mut cur: Vec<char> = Vec::new();
    let mut i: usize = 0;
    assert(s@.skip(0) =~= s@);
    while i < s.len()
        invariant
            i <= s.len(),
            words(s@) == out@.map_values(|w: Vec<char>| w@) + words_from(s@.skip(i as int), cur@),
        decreases s.len() - i,
    {
        let c = s[i];
        let ghost rest = s@.skip(i as int);
        assert(rest.drop_first() =~= s@.skip(i + 1));
        assert(rest[0] == c);
        if is_whitespace(c) {
            let ghost before = out@.map_values(|w: Vec<char>| w@);
            if cur.len() > 0 {
                let w = cur;
                out.push(w);
                cur = Vec::new();
                assert(out@.map_values(|w: Vec<char>| w@) =~= before + close_word(w@));
            } else {
                assert(out@.map_values(|w: Vec<char>| w@) =~= before + close_word(cur@));
                cur = Vec::new();
            }
            assert(cur@ =~= Seq::<char>::empty());
        } else {
            cur.push(c);
        }
        i += 1;
    }
    let ghost before = out@.map_values(|w: Vec<char>| w@);
    if cur.len() > 0 {
        out.push(cur);
        assert(out@.map_values(|w: Vec<char>| w@) =~= before + close_word(
            out@[out@.len() - 1]@,
        ));
    }
    assert(out@.map_values(|w: Vec<char>| w@) =~= words(s@));
    out
}

/// The whitespace-separated words of a string, each as a `String`.
pub fn split_whitespace(s: &str) -> (r: Vec<String>)
    ensures
        r@.map_values(|w: String| w@) == words(s@),
{
    let cs = chars_of(s);
    let ws = split_words(&cs);
    let mut out: Vec<String> = Vec::new();
    let mut i: usize = 0;
    while i < ws.len()
        invariant
            i <= ws.len(),
            out@.map_values(|w: String| w@) =~= ws@.map_values(|w: Vec<char>| w@).take(i as int),
        decreases ws.len() - i,
    {
        let w = string_from_chars(ws[i].as_slice());
        let ghost prev = out@;
        out.push(w);
        assert(out@.map_values(|w: String| w@) =~= prev.map_values(|w: String| w@).push(ws@[i as int]@));
        assert(ws@.map_values(|w: Vec<char>| w@).take(i + 1) =~= ws@.map_values(|w: Vec<char>| w@).take(i as int).push(ws@[i as int]@));
        i += 1;
    }
    assert(ws@.map_values(|w: Vec<char>| w@).take(ws.len() as int) =~= ws@.map_values(
        |w: Vec<char>| w@,
    ));
    out
}

} // verus!

verus! {

/// The decimal digits of `n`, most significant first, without leading zeros.
pub open spec fn decimal(n: nat) -> Seq<char>
    decreases n,
{
    if n < 10 {
        seq![(n + 48) as char]
    } else {
        decimal(n / 10).push(((n % 10) + 48) as char)
    }
}

/// `s` with zeros in front, to at least `width` characters.
pub open spec fn zero_padded(s: Seq<char>, width: nat) -> Seq<char>
    decreases width - s.len(),
{
    if s.len() >= width {
        s
    } else {
        zero_padded(seq!['0'] + s, width)
    }
}

/// Writes `n` in decimal.
pub fn decimal_string(n: u64) -> (r: Vec<char>)
    ensures
        r@ == decimal(n as nat),
{
    let mut digits: Vec<char> = Vec::new();
    let mut x: u64 = n;
    loop
        invariant
            decimal(n as nat) == decimal(x as nat) + digits@,
        decreases x,
    {
        if x < 10 {
            let c = char_of_digit(x);
            let mut out: Vec<char> = Vec::new();
            out.push(c);
            let mut i: usize = 0;
            while i < digits.len()
                invariant
                    i <= digits@.len(),
                    out@ =~= seq![c] + digits@.take(i as int),
                decreases digits.len() - i,
            {
                out.push(digits[i]);
                i += 1;
            }
            assert(digits@.take(digits.len() as int) =~= digits@);
            return out;
        }
        let c = char_of_digit(x % 10);
        let mut next: Vec<char> = Vec::new();
        next.push(c);
        let mut i: usize = 0;
        while i < digits.len()
            invariant
                i <= digits@.len(),
                next@ =~= seq![c] + digits@.take(i as int),
            decreases digits.len() - i,
        {
            next.push(digits[i]);
            i += 1;
        }
        assert(digits@.take(digits.len() as int) =~= digits@);
        assert(decimal(x as nat) == decimal((x / 10) as nat).push(c));
        assert(decimal((x / 10) as nat).push(c) + digits@ =~= decimal((x / 10) as nat) + next@);
        digits = next;
        x = x / 10;
    }
}

fn char_of_digit(d: u64) -> (c: char)
    requires
        d < 10,
    ensures
        c == (d + 48) as char,
{
    if d == 0 { '0' }
    else if d == 1 { '1' }
    else if d == 2 { '2' }
    else if d == 3 { '3' }
    else if d == 4 { '4' }
    else if d == 5 { '5' }
    else if d == 6 { '6' }
    else if d == 7 { '7' }
    else if d == 8 { '8' }
    else { '9' }
}

/// Writes `n` in decimal with zeros in front, to at least `width` digits.
pub fn zero_padded_decimal(n: u64, width: usize) -> (r: Vec<char>)
    ensures
        r@ == zero_padded(decimal(n as nat), width as nat),
{
    let digits = decimal_string(n);
    let mut pad: usize = 0;
    if digits.len() < width {
        pad = width - digits.len();
    }
    let mut out: Vec<char> = Vec::new();
    let mut i: usize = 0;
    while i < pad
        invariant
            i <= pad,
            out@ =~= Seq::new(i as nat, |k: int| '0'),
        decreases pad - i,
    {
        out.push('0');
        i += 1;
    }
    let mut j: usize = 0;
    while j < digits.len()
        invariant
            j <= digits@.len(),
            out@ =~= Seq::new(pad as nat, |k: int| '0') + digits@.take(j as int),
        decreases digits.len() - j,
    {
        out.push(digits[j]);
        j += 1;
    }
    assert(digits@.take(digits.len() as int) =~= digits@);
    proof {
        lemma_zero_padded(digits@, width as nat, pad as nat);
    }
    out
}

pub(crate) proof fn lemma_zero_padded(s: Seq<char>, width: nat, pad: nat)
    requires
        pad == if s.len() < width {
            (width - s.len()) as nat
        } else {
            0nat
        },
    ensures
        zero_padded(s, width) == Seq::new(pad, |k: int| '0') + s,
    decreases pad,
{
    if pad == 0 {
        assert(Seq::new(0, |k: int| '0') + s =~= s);
    } else {
        lemma_zero_padded(seq!['0'] + s, width, (pad - 1) as nat);
        assert(Seq::new((pad - 1) as nat, |k: int| '0') + (seq!['0'] + s) =~= Seq::new(pad, |k: int| '0') + s);
    }
}

} // verus!
