//! Search queries: normalised text, words, and an optional filter expression.
//!
//! Filter syntax: comparisons `key op value` with `op` one of `>=`, `<=`,
//! `!=`, `=`, `>`, `<`, combined with `&` (binds tighter) and `|`, and
//! grouped with parentheses. A value made of an optional `-` and decimal
//! digits that fits an `i64` is an integer; any other value is text.
use vstd::prelude::*;

use crate::entity::Value;
use crate::text::{
    chars_of, normalize, spec_normalize, split_whitespace, string_from_chars, trim,
    trim_chars, trim_start, words,
};

verus! {

/// A comparison operator of an attribute filter.
#[derive(Debug, Clone, Copy, PartialEq, Eq, Structural)]
pub enum CompareOp {
    Eq,
    NotEq,
    Gt,
    Ge,
    Lt,
    Le,
}

/// A single filter condition.
#[derive(Debug, Clone)]
pub enum Filter {
    Attribute { key: String, op: CompareOp, value: Value },
    Tag { tag: String },
    Relationship { kind: String, target: String },
    Source { source: String },
    EntityType { entity_type: String },
}

/// A boolean combination of filters.
#[derive(Debug)]
pub enum FilterExpr {
    Filter(Filter),
    And(Box<FilterExpr>, Box<FilterExpr>),
    Or(Box<FilterExpr>, Box<FilterExpr>),
    Not(Box<FilterExpr>),
}

/// What a query asks for.
#[derive(Debug, Clone, Copy, PartialEq, Eq, Structural)]
pub enum QueryIntent {
    Lookup,
    Browse,
    Filter,
    Relationship,
    Similar,
    Tag,
    Unknown,
}

/// A parsed query.
#[derive(Debug)]
pub struct Query {
    pub original: String,
    pub normalized: String,
    pub tokens: Vec<String>,
    pub intent: QueryIntent,
    pub filter: Option<FilterExpr>,
}

/// The mathematical value of an attribute value.
pub enum SpecValue {
    Str(Seq<char>),
    Int(i64),
}

/// The mathematical value of a filter.
pub enum SpecFilter {
    Attribute { key: Seq<char>, op: CompareOp, value: SpecValue },
    Tag { tag: Seq<char> },
    Relationship { kind: Seq<char>, target: Seq<char> },
    Source { source: Seq<char> },
    EntityType { entity_type: Seq<char> },
}

/// The mathematical value of a filter expression.
pub enum SpecFilterExpr {
    Filter(SpecFilter),
    And(Box<SpecFilterExpr>, Box<SpecFilterExpr>),
    Or(Box<SpecFilterExpr>, Box<SpecFilterExpr>),
    Not(Box<SpecFilterExpr>),
}

impl View for Value {
    type V = SpecValue;

    open spec fn view(&self) -> SpecValue {
        match self {
            Value::String(s) => SpecValue::Str(s@),
            Value::Integer(n) => SpecValue::Int(*n),
        }
    }
}

impl View for Filter {
    type V = SpecFilter;

    open spec fn view(&self) -> SpecFilter {
        match self {
            Filter::Attribute { key, op, value } => SpecFilter::Attribute {
                key: key@,
                op: *op,
                value: value@,
            },
            Filter::Tag { tag } => SpecFilter::Tag { tag: tag@ },
            Filter::Relationship { kind, target } => SpecFilter::Relationship {
                kind: kind@,
                target: target@,
            },
            Filter::Source { source } => SpecFilter::Source { source: source@ },
            Filter::EntityType { entity_type } => SpecFilter::EntityType {
                entity_type: entity_type@,
            },
        }
    }
}

/// The mathematical value of a filter expression.
pub open spec fn expr_view(e: FilterExpr) -> SpecFilterExpr
    decreases e,
{
    match e {
        FilterExpr::Filter(f) => SpecFilterExpr::Filter(f@),
        FilterExpr::And(l, r) => SpecFilterExpr::And(
            Box::new(expr_view(*l)),
            Box::new(expr_view(*r)),
        ),
        FilterExpr::Or(l, r) => SpecFilterExpr::Or(
            Box::new(expr_view(*l)),
            Box::new(expr_view(*r)),
        ),
        FilterExpr::Not(e) => SpecFilterExpr::Not(Box::new(expr_view(*e))),
    }
}

impl View for FilterExpr {
    type V = SpecFilterExpr;

    open spec fn view(&self) -> SpecFilterExpr {
        expr_view(*self)
    }
}

/// A unit of filter syntax: a delimiter, or the characters `start..end` of
/// the input that lie between two delimiters.
#[derive(Debug, Clone, Copy, PartialEq, Eq, Structural)]
pub enum Lexeme {
    Open,
    Close,
    And,
    Or,
    Term { start: usize, end: usize },
}

pub open spec fn is_delimiter(c: char) -> bool {
    c == '(' || c == ')' || c == '&' || c == '|'
}

pub open spec fn delimiter_lexeme(c: char) -> Lexeme {
    if c == '(' {
        Lexeme::Open
    } else if c == ')' {
        Lexeme::Close
    } else if c == '&' {
        Lexeme::And
    } else {
        Lexeme::Or
    }
}

/// The term `start..end`, unless it holds only whitespace.
pub open spec fn close_term(s: Seq<char>, start: int, end: int) -> Seq<Lexeme> {
    if trim(s.subrange(start, end)).len() > 0 {
        seq![Lexeme::Term { start: start as usize, end: end as usize }]
    } else {
        seq![]
    }
}

/// The lexemes of `s` from position `i` on, where the current term began at `start`.
pub open spec fn lex_from(s: Seq<char>, i: int, start: int) -> Seq<Lexeme>
    decreases s.len() - i,
{
    if i >= s.len() {
        close_term(s, start, s.len() as int)
    } else if is_delimiter(s[i]) {
        close_term(s, start, i) + seq![delimiter_lexeme(s[i])] + lex_from(s, i + 1, i + 1)
    } else {
        lex_from(s, i + 1, start)
    }
}

/// The lexemes of a filter text.
pub open spec fn spec_lex(s: Seq<char>) -> Seq<Lexeme> {
    lex_from(s, 0, 0)
}

pub open spec fn is_op_char(c: char) -> bool {
    c == '=' || c == '!' || c == '<' || c == '>'
}

/// The first position at or after `i` that holds an operator character.
pub open spec fn first_op(t: Seq<char>, i: int) -> Option<int>
    decreases t.len() - i,
{
    if i >= t.len() {
        None
    } else if is_op_char(t[i]) {
        Some(i)
    } else {
        first_op(t, i + 1)
    }
}

/// The operator that starts at position `k` and its width in characters.
pub open spec fn op_at(t: Seq<char>, k: int) -> Option<(CompareOp, int)> {
    let next_is_eq = k + 1 < t.len() && t[k + 1] == '=';
    if t[k] == '!' {
        if next_is_eq {
            Some((CompareOp::NotEq, 2))
        } else {
            None
        }
    } else if t[k] == '>' {
        if next_is_eq {
            Some((CompareOp::Ge, 2))
        } else {
            Some((CompareOp::Gt, 1))
        }
    } else if t[k] == '<' {
        if next_is_eq {
            Some((CompareOp::Le, 2))
        } else {
            Some((CompareOp::Lt, 1))
        }
    } else {
        Some((CompareOp::Eq, 1))
    }
}

pub open spec fn is_digit(c: char) -> bool {
    '0' <= c <= '9'
}

pub open spec fn all_digits(d: Seq<char>) -> bool {
    forall|i: int| 0 <= i < d.len() ==> is_digit(#[trigger] d[i])
}

/// The number written by a run of decimal digits.
pub open spec fn digits_value(d: Seq<char>) -> int
    decreases d.len(),
{
    if d.len() == 0 {
        0
    } else {
        digits_value(d.drop_last()) * 10 + (d.last() as int - '0' as int)
    }
}

/// The `i64` written by `v`: an optional `-` then at least one digit.
pub open spec fn spec_parse_int(v: Seq<char>) -> Option<i64> {
    if v.len() > 0 && v[0] == '-' {
        let d = v.drop_first();
        if d.len() > 0 && all_digits(d) && digits_value(d) <= 0x8000_0000_0000_0000 {
            Some((-digits_value(d)) as i64)
        } else {
            None
        }
    } else if v.len() > 0 && all_digits(v) && digits_value(v) <= 0x7fff_ffff_ffff_ffff {
        Some(digits_value(v) as i64)
    } else {
        None
    }
}

/// The value a filter text stands for: an integer where it writes one, else text.
pub open spec fn spec_value_of(v: Seq<char>) -> SpecValue {
    match spec_parse_int(v) {
        Some(n) => SpecValue::Int(n),
        None => SpecValue::Str(v),
    }
}

/// The comparison a term writes, if it writes one.
pub open spec fn spec_comparison(t: Seq<char>) -> Option<SpecFilter> {
    match first_op(t, 0) {
        None => None,
        Some(k) => match op_at(t, k) {
            None => None,
            Some((op, w)) => {
                let key = trim(t.subrange(0, k));
                let value = trim(t.subrange(k + w, t.len() as int));
                if key.len() == 0 || value.len() == 0 {
                    None
                } else {
                    Some(SpecFilter::Attribute { key, op, value: spec_value_of(value) })
                }
            },
        },
    }
}

/// `expr := and ('|' and)*` from lexeme `p`; the expression and the next position.
pub open spec fn parse_or(s: Seq<char>, t: Seq<Lexeme>, p: int) -> Option<(SpecFilterExpr, int)>
    decreases t.len() - p, 3int,
{
    if p < 0 || p > t.len() {
        None
    } else {
        match parse_and(s, t, p) {
            None => None,
            Some((l, q)) => if p < q <= t.len() {
                or_tail(s, t, q, l)
            } else {
                None
            },
        }
    }
}

/// The `('|' and)*` part, with `acc` parsed so far.
pub open spec fn or_tail(s: Seq<char>, t: Seq<Lexeme>, q: int, acc: SpecFilterExpr) -> Option<
    (SpecFilterExpr, int),
>
    decreases t.len() - q, 4int,
{
    if 0 <= q < t.len() && t[q] == Lexeme::Or {
        match parse_and(s, t, q + 1) {
            None => None,
            Some((r, q2)) => if q + 1 < q2 <= t.len() {
                or_tail(s, t, q2, SpecFilterExpr::Or(Box::new(acc), Box::new(r)))
            } else {
                None
            },
        }
    } else {
        Some((acc, q))
    }
}

/// `and := atom ('&' atom)*` from lexeme `p`.
pub open spec fn parse_and(s: Seq<char>, t: Seq<Lexeme>, p: int) -> Option<(SpecFilterExpr, int)>
    decreases t.len() - p, 2int,
{
    if p < 0 || p > t.len() {
        None
    } else {
        match parse_atom(s, t, p) {
            None => None,
            Some((l, q)) => if p < q <= t.len() {
                and_tail(s, t, q, l)
            } else {
                None
            },
        }
    }
}

/// The `('&' atom)*` part, with `acc` parsed so far.
pub open spec fn and_tail(s: Seq<char>, t: Seq<Lexeme>, q: int, acc: SpecFilterExpr) -> Option<
    (SpecFilterExpr, int),
>
    decreases t.len() - q, 5int,
{
    if 0 <= q < t.len() && t[q] == Lexeme::And {
        match parse_atom(s, t, q + 1) {
            None => None,
            Some((r, q2)) => if q + 1 < q2 <= t.len() {
                and_tail(s, t, q2, SpecFilterExpr::And(Box::new(acc), Box::new(r)))
            } else {
                None
            },
        }
    } else {
        Some((acc, q))
    }
}

/// `atom := '(' expr ')' | comparison` at lexeme `p`.
pub open spec fn parse_atom(s: Seq<char>, t: Seq<Lexeme>, p: int) -> Option<(SpecFilterExpr, int)>
    decreases t.len() - p, 1int,
{
    if 0 <= p < t.len() {
        match t[p] {
            Lexeme::Open => match parse_or(s, t, p + 1) {
                Some((e, q)) => if p + 1 < q < t.len() && t[q] == Lexeme::Close {
                    Some((e, q + 1))
                } else {
                    None
                },
                None => None,
            },
            Lexeme::Term { start, end } => if start <= end <= s.len() {
                match spec_comparison(s.subrange(start as int, end as int)) {
                    Some(f) => Some((SpecFilterExpr::Filter(f), p + 1)),
                    None => None,
                }
            } else {
                None
            },
            _ => None,
        }
    } else {
        None
    }
}

/// The filter expression a query text writes, if the whole text is one.
pub open spec fn spec_parse_filter(s: Seq<char>) -> Option<SpecFilterExpr> {
    let t = spec_lex(s);
    match parse_or(s, t, 0) {
        Some((e, q)) => if q == t.len() {
            Some(e)
        } else {
            None
        },
        None => None,
    }
}

/// The intent of a query: a filter where the text is one, otherwise a
/// lookup of its words, or nothing to do where it has none.
pub open spec fn spec_intent(filter: Option<SpecFilterExpr>, tokens: Seq<Seq<char>>) -> QueryIntent {
    if filter is Some {
        QueryIntent::Filter
    } else if tokens.len() == 0 {
        QueryIntent::Unknown
    } else {
        QueryIntent::Lookup
    }
}

pub open spec fn view_opt_expr(e: Option<FilterExpr>) -> Option<SpecFilterExpr> {
    match e {
        Some(e) => Some(e@),
        None => None,
    }
}

pub open spec fn view_parsed(r: Option<(FilterExpr, usize)>) -> Option<(SpecFilterExpr, int)> {
    match r {
        Some((e, q)) => Some((e@, q as int)),
        None => None,
    }
}

/// Copies the characters `start..end`.
pub fn copy_range(s: &Vec<char>, start: usize, end: usize) -> (r: Vec<char>)
    requires
        start <= end <= s.len(),
    ensures
        r@ == s@.subrange(start as int, end as int),
{
    let mut r: Vec<char> = Vec::new();
    let mut i: usize = start;
    while i < end
        invariant
            start <= i <= end <= s.len(),
            r@ =~= s@.subrange(start as int, i as int),
        decreases end - i,
    {
        r.push(s[i]);
        i += 1;
    }
    r
}

fn push_term(out: &mut Vec<Lexeme>, s: &Vec<char>, start: usize, end: usize)
    requires
        start <= end <= s.len(),
    ensures
        final(out)@ == old(out)@ + close_term(s@, start as int, end as int),
{
    let sub = copy_range(s, start, end);
    let trimmed = trim_chars(&sub);
    if trimmed.len() > 0 {
        out.push(Lexeme::Term { start, end });
    }
    assert(final(out)@ =~= old(out)@ + close_term(s@, start as int, end as int));
}

/// Splits a filter text into lexemes.
pub fn lex(s: &Vec<char>) -> (r: Vec<Lexeme>)
    ensures
        r@ == spec_lex(s@),
{
    let mut out: Vec<Lexeme> = Vec::new();
    let mut start: usize = 0;
    let mut i: usize = 0;
    while i < s.len()
        invariant
            start <= i <= s.len(),
            spec_lex(s@) == out@ + lex_from(s@, i as int, start as int),
        decreases s.len() - i,
    {
        let c = s[i];
        if c == '(' || c == ')' || c == '&' || c == '|' {
            let ghost before = out@;
            push_term(&mut out, s, start, i);
            let d = if c == '(' {
                Lexeme::Open
            } else if c == ')' {
                Lexeme::Close
            } else if c == '&' {
                Lexeme::And
            } else {
                Lexeme::Or
            };
            out.push(d);
            assert(out@ =~= before + close_term(s@, start as int, i as int) + seq![
                delimiter_lexeme(c),
            ]);
            start = i + 1;
        }
        i += 1;
    }
    push_term(&mut out, s, start, s.len());
    assert(out@ =~= spec_lex(s@));
    out
}

fn is_op_char_exec(c: char) -> (r: bool)
    ensures
        r == is_op_char(c),
{
    c == '=' || c == '!' || c == '<' || c == '>'
}

fn find_op(t: &Vec<char>) -> (r: Option<usize>)
    ensures
        match r {
            Some(k) => first_op(t@, 0) == Some(k as int) && k < t.len(),
            None => first_op(t@, 0) is None,
        },
{
    let mut i: usize = 0;
    while i < t.len()
        invariant
            i <= t.len(),
            first_op(t@, 0) == first_op(t@, i as int),
        decreases t.len() - i,
    {
        if is_op_char_exec(t[i]) {
            return Some(i);
        }
        i += 1;
    }
    None
}

/// The digits of `d` as a number, or `None` once it exceeds `bound`.
pub(crate) fn digits_upto(d: &Vec<char>, start: usize, bound: i128) -> (r: Option<i128>)
    requires
        start <= d.len(),
        0 <= bound <= 0xffff_ffff_ffff_ffff,
        all_digits(d@.skip(start as int)),
    ensures
        match r {
            Some(n) => n == digits_value(d@.skip(start as int)) && 0 <= n <= bound,
            None => digits_value(d@.skip(start as int)) > bound,
        },
{
    let ghost ds = d@.skip(start as int);
    let mut acc: i128 = 0;
    let mut i: usize = start;
    assert(ds.take(0) =~= Seq::<char>::empty());
    while i < d.len()
        invariant
            start <= i <= d.len(),
            ds == d@.skip(start as int),
            all_digits(ds),
            0 <= bound <= 0xffff_ffff_ffff_ffff,
            acc == digits_value(ds.take(i - start)),
            0 <= acc <= bound,
        decreases d.len() - i,
    {
        let c = d[i];
        assert(ds[i - start] == c);
        assert(is_digit(ds[i - start]));
        let digit: i128 = (c as u32 - '0' as u32) as i128;
        assert(ds.take(i - start + 1).drop_last() =~= ds.take(i - start));
        assert(ds.take(i - start + 1).last() == c);
        acc = acc * 10 + digit;
        if acc > bound {
            proof {
                lemma_digits_value_prefix_bound(ds, i - start + 1);
            }
            return None;
        }
        i += 1;
    }
    assert(ds.take(d.len() - start) =~= ds);
    Some(acc)
}

/// A longer run of digits never writes a smaller number.
proof fn lemma_digits_value_prefix_bound(d: Seq<char>, k: int)
    requires
        0 <= k <= d.len(),
        all_digits(d),
    ensures
        digits_value(d.take(k)) <= digits_value(d),
    decreases d.len() - k,
{
    if k < d.len() {
        lemma_digits_value_prefix_bound(d, k + 1);
        let p = d.take(k + 1);
        assert(p.drop_last() =~= d.take(k));
        assert(is_digit(d[k]));
        lemma_digits_value_nonneg(d.take(k));
    }
    else {
        assert(d.take(k) =~= d);
    }
}

pub(crate) proof fn lemma_digits_value_nonneg(d: Seq<char>)
    requires
        all_digits(d),
    ensures
        digits_value(d) >= 0,
    decreases d.len(),
{
    if d.len() > 0 {
        assert(all_digits(d.drop_last()));
        lemma_digits_value_nonneg(d.drop_last());
        assert(is_digit(d[d.len() - 1]));
    }
}

fn all_digits_from(d: &Vec<char>, start: usize) -> (r: bool)
    requires
        start <= d.len(),
    ensures
        r == all_digits(d@.skip(start as int)),
{
    let mut i: usize = start;
    while i < d.len()
        invariant
            start <= i <= d.len(),
            forall|j: int| start <= j < i ==> is_digit(#[trigger] d@[j]),
        decreases d.len() - i,
    {
        if !('0' <= d[i] && d[i] <= '9') {
            assert(!is_digit(d@.skip(start as int)[i - start]));
            return false;
        }
        i += 1;
    }
    assert forall|j: int| 0 <= j < d@.skip(start as int).len() implies is_digit(
        #[trigger] d@.skip(start as int)[j],
    ) by {
        assert(d@.skip(start as int)[j] == d@[j + start]);
    }
    true
}

/// Reads an `i64` written as an optional `-` and decimal digits.
pub fn parse_int(v: &Vec<char>) -> (r: Option<i64>)
    ensures
        r == spec_parse_int(v@),
{
    if v.len() > 0 && v[0] == '-' {
        assert(v@.skip(1) =~= v@.drop_first());
        if v.len() > 1 && all_digits_from(v, 1) {
            match digits_upto(v, 1, 0x8000_0000_0000_0000) {
                Some(n) => Some((-n) as i64),
                None => None,
            }
        } else {
            None
        }
    } else {
        assert(v@.skip(0) =~= v@);
        if v.len() > 0 && all_digits_from(v, 0) {
            match digits_upto(v, 0, 0x7fff_ffff_ffff_ffff) {
                Some(n) => Some(n as i64),
                None => None,
            }
        } else {
            None
        }
    }
}

/// How an operator is written.
pub open spec fn op_symbol(op: CompareOp) -> Seq<char> {
    match op {
        CompareOp::Eq => seq!['='],
        CompareOp::NotEq => seq!['!', '='],
        CompareOp::Gt => seq!['>'],
        CompareOp::Ge => seq!['>', '='],
        CompareOp::Lt => seq!['<'],
        CompareOp::Le => seq!['<', '='],
    }
}

proof fn lemma_first_op_at(t: Seq<char>, k: int, i: int)
    requires
        0 <= i <= k < t.len(),
        is_op_char(t[k]),
        forall|j: int| i <= j < k ==> !is_op_char(#[trigger] t[j]),
    ensures
        first_op(t, i) == Some(k),
    decreases k - i,
{
    if i < k {
        lemma_first_op_at(t, k, i + 1);
    }
}

/// A term made of a key free of operator characters, an operator and a
/// value reads as that comparison, with key and value trimmed: `<` and `>`
/// are strict unless `=` follows them, `<=`, `>=`, `!=` and `=` are read as
/// written.
pub proof fn lemma_comparison_of_parts(key: Seq<char>, op: CompareOp, value: Seq<char>)
    requires
        forall|i: int| 0 <= i < key.len() ==> #[trigger] key[i] != '=' && key[i] != '!' && key[i] != '<'
            && key[i] != '>',
        trim(key).len() > 0,
        trim(value).len() > 0,
        op == CompareOp::Lt || op == CompareOp::Gt ==> value[0] != '=',
    ensures
        spec_comparison(key + op_symbol(op) + value) == Some(
            SpecFilter::Attribute { key: trim(key), op, value: spec_value_of(trim(value)) },
        ),
{
    let sym = op_symbol(op);
    let t = key + sym + value;
    let k = key.len() as int;
    if value.len() == 0 {
        assert(trim_start(value) == value);
        assert(trim(value) == value);
    }
    assert(t[k] == sym[0]);
    assert forall|j: int| 0 <= j < k implies !is_op_char(#[trigger] t[j]) by {
        assert(t[j] == key[j]);
    }
    lemma_first_op_at(t, k, 0);
    if sym.len() == 2 {
        assert(t[k + 1] == sym[1]);
    } else {
        assert(t[k + 1] == value[0]);
    }
    assert(op_at(t, k) == Some((op, sym.len() as int)));
    assert(t.subrange(0, k) =~= key);
    assert(t.subrange(k + sym.len(), t.len() as int) =~= value);
}

/// Reads the comparison a term writes, if it writes one.
pub fn parse_comparison(t: &Vec<char>) -> (r: Option<Filter>)
    ensures
        match r {
            Some(f) => spec_comparison(t@) == Some(f@),
            None => spec_comparison(t@) is None,
        },
{
    let k = match find_op(t) {
        Some(k) => k,
        None => return None,
    };
    let next_is_eq = k + 1 < t.len() && t[k + 1] == '=';
    let (op, w): (CompareOp, usize) = if t[k] == '!' {
        if next_is_eq {
            (CompareOp::NotEq, 2)
        } else {
            return None;
        }
    } else if t[k] == '>' {
        if next_is_eq {
            (CompareOp::Ge, 2)
        } else {
            (CompareOp::Gt, 1)
        }
    } else if t[k] == '<' {
        if next_is_eq {
            (CompareOp::Le, 2)
        } else {
            (CompareOp::Lt, 1)
        }
    } else {
        (CompareOp::Eq, 1)
    };
    assert(op_at(t@, k as int) == Some((op, w as int)));
    let key = trim_chars(&copy_range(t, 0, k));
    let value = trim_chars(&copy_range(t, k + w, t.len()));
    if key.len() == 0 || value.len() == 0 {
        return None;
    }
    let parsed = match parse_int(&value) {
        Some(n) => Value::Integer(n),
        None => Value::String(string_from_chars(value.as_slice())),
    };
    Some(Filter::Attribute { key: string_from_chars(key.as_slice()), op, value: parsed })
}

fn exec_parse_or(s: &Vec<char>, t: &Vec<Lexeme>, p: usize) -> (r: Option<(FilterExpr, usize)>)
    requires
        p <= t.len(),
    ensures
        view_parsed(r) == parse_or(s@, t@, p as int),
    decreases t.len() - p, 3int,
{
    match exec_parse_and(s, t, p) {
        None => None,
        Some((l, q)) => if p < q && q <= t.len() {
            exec_or_tail(s, t, q, l)
        } else {
            None
        },
    }
}

fn exec_or_tail(s: &Vec<char>, t: &Vec<Lexeme>, q: usize, acc: FilterExpr) -> (r: Option<
    (FilterExpr, usize),
>)
    requires
        q <= t.len(),
    ensures
        view_parsed(r) == or_tail(s@, t@, q as int, acc@),
    decreases t.len() - q, 4int,
{
    if q < t.len() && t[q] == Lexeme::Or {
        match exec_parse_and(s, t, q + 1) {
            None => None,
            Some((r, q2)) => if q + 1 < q2 && q2 <= t.len() {
                let e = FilterExpr::Or(Box::new(acc), Box::new(r));
                exec_or_tail(s, t, q2, e)
            } else {
                None
            },
        }
    } else {
        Some((acc, q))
    }
}

fn exec_parse_and(s: &Vec<char>, t: &Vec<Lexeme>, p: usize) -> (r: Option<(FilterExpr, usize)>)
    requires
        p <= t.len(),
    ensures
        view_parsed(r) == parse_and(s@, t@, p as int),
    decreases t.len() - p, 2int,
{
    match exec_parse_atom(s, t, p) {
        None => None,
        Some((l, q)) => if p < q && q <= t.len() {
            exec_and_tail(s, t, q, l)
        } else {
            None
        },
    }
}

fn exec_and_tail(s: &Vec<char>, t: &Vec<Lexeme>, q: usize, acc: FilterExpr) -> (r: Option<
    (FilterExpr, usize),
>)
    requires
        q <= t.len(),
    ensures
        view_parsed(r) == and_tail(s@, t@, q as int, acc@),
    decreases t.len() - q, 5int,
{
    if q < t.len() && t[q] == Lexeme::And {
        match exec_parse_atom(s, t, q + 1) {
            None => None,
            Some((r, q2)) => if q + 1 < q2 && q2 <= t.len() {
                let e = FilterExpr::And(Box::new(acc), Box::new(r));
                exec_and_tail(s, t, q2, e)
            } else {
                None
            },
        }
    } else {
        Some((acc, q))
    }
}

fn exec_parse_atom(s: &Vec<char>, t: &Vec<Lexeme>, p: usize) -> (r: Option<(FilterExpr, usize)>)
    requires
        p <= t.len(),
    ensures
        view_parsed(r) == parse_atom(s@, t@, p as int),
    decreases t.len() - p, 1int,
{
    if p < t.len() {
        match t[p] {
            Lexeme::Open => match exec_parse_or(s, t, p + 1) {
                Some((e, q)) => if p + 1 < q && q < t.len() && t[q] == Lexeme::Close {
                    Some((e, q + 1))
                } else {
                    None
                },
                None => None,
            },
            Lexeme::Term { start, end } => if start <= end && end <= s.len() {
                let term = copy_range(s, start, end);
                match parse_comparison(&term) {
                    Some(f) => Some((FilterExpr::Filter(f), p + 1)),
                    None => None,
                }
            } else {
                None
            },
            _ => None,
        }
    } else {
        None
    }
}

/// Reads the filter expression a query text writes, if the whole text is one.
pub fn parse_filter(input: &str) -> (r: Option<FilterExpr>)
    ensures
        view_opt_expr(r) == spec_parse_filter(input@),
{
    let s = chars_of(input);
    let t = lex(&s);
    match exec_parse_or(&s, &t, 0) {
        Some((e, q)) => if q == t.len() {
            Some(e)
        } else {
            None
        },
        None => None,
    }
}

impl Query {
    /// Parses a query text.
    pub fn parse(input: &str) -> (q: Query)
        ensures
            q.original@ == input@,
            q.normalized@ == spec_normalize(input@),
            q.tokens@.map_values(|w: String| w@) == words(spec_normalize(input@)),
            view_opt_expr(q.filter) == spec_parse_filter(input@),
            q.intent == spec_intent(spec_parse_filter(input@), words(spec_normalize(input@))),
    {
        let normalized = normalize(input);
        let tokens = split_whitespace(normalized.as_str());
        let filter = parse_filter(input);
        let intent = if filter.is_some() {
            QueryIntent::Filter
        } else if tokens.len() == 0 {
            QueryIntent::Unknown
        } else {
            QueryIntent::Lookup
        };
        let original = string_from_chars(chars_of(input).as_slice());
        Query { original, normalized, tokens, intent, filter }
    }
}

} // verus!
