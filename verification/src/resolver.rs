//! The entity resolver: finds entities by alias, word, tag, attribute and
//! relationship.
use vstd::prelude::*;

use crate::entity::{Attribute, EntityDocument, Relationship, RelationshipType, Value};
use crate::ids::{AttributeKeyID, EntityID, RegistryID, RelationshipTypeID, TagID};
use crate::query::{CompareOp, SpecValue};
use crate::storage::registry::Registry;
use crate::text::{
    chars_of, normalize, spec_normalize, split_whitespace, str_eq, string_from_chars, words,
};

verus! {

/// The identifiers of the entities that satisfy `p`, in insertion order.
pub open spec fn ids_where(es: Seq<EntityDocument>, p: spec_fn(EntityDocument) -> bool) -> Seq<
    EntityID,
>
    decreases es.len(),
{
    if es.len() == 0 {
        seq![]
    } else {
        let r = ids_where(es.drop_last(), p);
        if p(es.last()) {
            r.push(es.last().id)
        } else {
            r
        }
    }
}

/// `ids_where` keeps the identifier of every entity that satisfies `p` and
/// no other: it is empty exactly when none does, each identifier it holds is
/// that of an entity that satisfies `p`, and the first is that of the first
/// such entity.
pub proof fn lemma_ids_where(es: Seq<EntityDocument>, p: spec_fn(EntityDocument) -> bool)
    ensures
        ids_where(es, p).len() == 0 <==> forall|i: int| 0 <= i < es.len() ==> !p(#[trigger] es[i]),
        forall|j: int| 0 <= j < ids_where(es, p).len() ==> exists|i: int|
            0 <= i < es.len() && p(#[trigger] es[i]) && es[i].id == #[trigger] ids_where(es, p)[j],
        ids_where(es, p).len() > 0 ==> exists|i: int|
            0 <= i < es.len() && p(#[trigger] es[i]) && es[i].id == ids_where(es, p)[0] && forall|u: int|
                0 <= u < i ==> !p(#[trigger] es[u]),
    decreases es.len(),
{
    if es.len() > 0 {
        let init = es.drop_last();
        let r = ids_where(init, p);
        let out = ids_where(es, p);
        let n = es.len() - 1;
        lemma_ids_where(init, p);
        assert forall|i: int| 0 <= i < init.len() implies #[trigger] init[i] == es[i] by {}
        if r.len() == 0 {
            assert forall|i: int| 0 <= i < init.len() implies !p(#[trigger] es[i]) by {
                assert(!p(init[i]));
            }
        } else {
            let i = choose|i: int|
                0 <= i < init.len() && p(#[trigger] init[i]) && init[i].id == r[0] && forall|u: int|
                    0 <= u < i ==> !p(#[trigger] init[u]);
            assert(p(es[i]) && es[i].id == out[0]);
            assert forall|u: int| 0 <= u < i implies !p(#[trigger] es[u]) by {
                assert(!p(init[u]));
            }
        }
        if p(es[n]) {
            assert(out[r.len() as int] == es[n].id);
        }
        if out.len() == 0 {
            assert forall|i: int| 0 <= i < es.len() implies !p(#[trigger] es[i]) by {
                if i < n {
                    assert(!p(init[i]));
                }
            }
        }
        assert forall|j: int| 0 <= j < out.len() implies exists|i: int|
            0 <= i < es.len() && p(#[trigger] es[i]) && es[i].id == #[trigger] out[j] by {
            if j < r.len() {
                let i = choose|i: int| 0 <= i < init.len() && p(#[trigger] init[i]) && init[i].id == r[j];
                assert(p(es[i]) && es[i].id == out[j]);
            } else {
                assert(p(es[n]) && es[n].id == out[j]);
            }
        }
    }
}

/// Every entity that satisfies `p` has its identifier in `ids_where`.
pub proof fn lemma_ids_where_complete(es: Seq<EntityDocument>, p: spec_fn(EntityDocument) -> bool)
    ensures
        forall|i: int| 0 <= i < es.len() && p(#[trigger] es[i]) ==> ids_where(es, p).contains(es[i].id),
    decreases es.len(),
{
    if es.len() > 0 {
        let init = es.drop_last();
        lemma_ids_where_complete(init, p);
        let r = ids_where(init, p);
        let out = ids_where(es, p);
        assert forall|i: int| 0 <= i < es.len() && p(#[trigger] es[i]) implies out.contains(es[i].id) by {
            if i < init.len() {
                assert(init[i] == es[i]);
                assert(r.contains(es[i].id));
                let j = choose|j: int| 0 <= j < r.len() && r[j] == es[i].id;
                assert(out[j] == r[j]);
            } else {
                assert(out[r.len() as int] == es[i].id);
            }
        }
    }
}

/// Some alias of the entity normalises to `q`.
pub open spec fn has_alias(e: EntityDocument, q: Seq<char>) -> bool {
    exists|i: int| 0 <= i < e.aliases@.len() && spec_normalize((#[trigger] e.aliases@[i])@) == q
}

/// Some alias of the entity normalises to a text that begins with `t`.
pub open spec fn has_alias_prefix(e: EntityDocument, t: Seq<char>) -> bool {
    exists|i: int|
        0 <= i < e.aliases@.len() && t.is_prefix_of(spec_normalize((#[trigger] e.aliases@[i])@))
}

/// Some alias of the entity normalises to a text within `d` edits of `t`.
pub open spec fn has_alias_near(e: EntityDocument, t: Seq<char>, d: nat) -> bool {
    exists|i: int|
        0 <= i < e.aliases@.len() && edit_distance(spec_normalize((#[trigger] e.aliases@[i])@), t)
            <= d
}

/// Some alias of the entity has `t` among the words of its normal form.
pub open spec fn has_alias_word(e: EntityDocument, t: Seq<char>) -> bool {
    exists|i: int|
        0 <= i < e.aliases@.len() && words(spec_normalize((#[trigger] e.aliases@[i])@)).contains(t)
}

pub open spec fn min3(a: nat, b: nat, c: nat) -> nat {
    if a <= b && a <= c {
        a
    } else if b <= c {
        b
    } else {
        c
    }
}

/// The Levenshtein distance: the fewest insertions, deletions and
/// substitutions of single characters that turn `a` into `b`.
pub open spec fn edit_distance(a: Seq<char>, b: Seq<char>) -> nat
    decreases a.len() + b.len(),
{
    if a.len() == 0 {
        b.len()
    } else if b.len() == 0 {
        a.len()
    } else {
        min3(
            edit_distance(a.drop_last(), b) + 1,
            edit_distance(a, b.drop_last()) + 1,
            edit_distance(a.drop_last(), b.drop_last()) + if a.last() == b.last() {
                0nat
            } else {
                1nat
            },
        )
    }
}

/// How a stored attribute value compares with a filter value. Integers
/// compare by value; texts compare for (in)equality of their normal forms;
/// values of different kinds never match.
pub open spec fn value_matches(stored: SpecValue, op: CompareOp, q: SpecValue) -> bool {
    match (stored, q) {
        (SpecValue::Int(a), SpecValue::Int(b)) => match op {
            CompareOp::Eq => a == b,
            CompareOp::NotEq => a != b,
            CompareOp::Gt => a > b,
            CompareOp::Ge => a >= b,
            CompareOp::Lt => a < b,
            CompareOp::Le => a <= b,
        },
        (SpecValue::Str(a), SpecValue::Str(b)) => match op {
            CompareOp::Eq => spec_normalize(a) == spec_normalize(b),
            CompareOp::NotEq => spec_normalize(a) != spec_normalize(b),
            _ => false,
        },
        _ => false,
    }
}

/// `!=` selects exactly what `=` does not, for texts and for integers alike;
/// texts are compared by their normal forms, so two texts with one normal
/// form are alike under every operator; and a text never matches an integer.
pub proof fn lemma_value_comparisons(a: SpecValue, b: SpecValue, c: Seq<char>, d: Seq<char>)
    ensures
        value_matches(a, CompareOp::NotEq, b) == (!value_matches(a, CompareOp::Eq, b) && (a is Str
            == b is Str)),
        spec_normalize(c) == spec_normalize(d) ==> forall|op: CompareOp, q: Seq<char>|
            #[trigger] value_matches(SpecValue::Str(c), op, SpecValue::Str(q)) == value_matches(
                SpecValue::Str(d),
                op,
                SpecValue::Str(q),
            ),
        value_matches(SpecValue::Str(c), CompareOp::Eq, SpecValue::Str(c)),
        !value_matches(SpecValue::Str(c), CompareOp::NotEq, SpecValue::Str(c)),
        forall|op: CompareOp, n: i64| !(#[trigger] value_matches(SpecValue::Str(c), op, SpecValue::Int(n)))
            && !value_matches(SpecValue::Int(n), op, SpecValue::Str(c)),
{
}

/// A registration of the attribute key `key` under a name that normalises to `name`.
pub open spec fn key_named(names: Seq<(AttributeKeyID, String)>, key: AttributeKeyID, name: Seq<
    char,
>) -> bool {
    exists|j: int|
        0 <= j < names.len() && (#[trigger] names[j]).0 == key && spec_normalize(names[j].1@)
            == name
}

/// The first registered tag whose name normalises to `t`.
pub open spec fn first_tag_named(tags: Seq<(TagID, String)>, t: Seq<char>) -> Option<TagID>
    decreases tags.len(),
{
    if tags.len() == 0 {
        None
    } else if spec_normalize(tags[0].1@) == t {
        Some(tags[0].0)
    } else {
        first_tag_named(tags.drop_first(), t)
    }
}

/// What a lookup asks of an entity.
pub enum Criterion {
    Alias(Seq<char>),
    AliasPrefix(Seq<char>),
    AliasNear(Seq<char>, nat),
    AliasWord(Seq<char>),
    Tag(TagID),
    Attribute(Seq<char>, CompareOp, SpecValue),
    Related(RelationshipTypeID, EntityID),
}

/// Finds entities by alias, word, tag, attribute and relationship.
pub struct Resolver {
    pub entities: Vec<EntityDocument>,
    pub tags: Vec<(TagID, String)>,
    pub attribute_names: Vec<(AttributeKeyID, String)>,
    pub relationship_types: Registry<RelationshipTypeID>,
}

/// A criterion in executable form.
enum Probe<'a> {
    Alias(String),
    AliasPrefix(Vec<char>),
    AliasNear(Vec<char>, usize),
    AliasWord(String),
    Tag(TagID),
    Attribute(String, CompareOp, &'a Value),
    Related(RelationshipTypeID, EntityID),
}

spec fn probe_view(p: Probe) -> Criterion {
    match p {
        Probe::Alias(q) => Criterion::Alias(q@),
        Probe::AliasPrefix(t) => Criterion::AliasPrefix(t@),
        Probe::AliasNear(t, d) => Criterion::AliasNear(t@, d as nat),
        Probe::AliasWord(t) => Criterion::AliasWord(t@),
        Probe::Tag(tag) => Criterion::Tag(tag),
        Probe::Attribute(k, op, v) => Criterion::Attribute(k@, op, v@),
        Probe::Related(kind, target) => Criterion::Related(kind, target),
    }
}

fn min3_exec(a: usize, b: usize, c: usize) -> (r: usize)
    ensures
        r == min3(a as nat, b as nat, c as nat),
{
    if a <= b && a <= c {
        a
    } else if b <= c {
        b
    } else {
        c
    }
}

proof fn lemma_edit_distance_bound(a: Seq<char>, b: Seq<char>)
    ensures
        edit_distance(a, b) <= if a.len() >= b.len() {
            a.len()
        } else {
            b.len()
        },
    decreases a.len() + b.len(),
{
    if a.len() > 0 && b.len() > 0 {
        lemma_edit_distance_bound(a.drop_last(), b.drop_last());
    }
}

/// The Levenshtein distance, row by row.
pub fn edit_distance_exec(a: &Vec<char>, b: &Vec<char>) -> (d: usize)
    ensures
        d == edit_distance(a@, b@),
{
    let m = b.len();
    let mut prev: Vec<usize> = Vec::new();
    proof {
        assert(a@.take(0).len() == 0);
    }
    prev.push(0);
    let mut j: usize = 0;
    while j < m
        invariant
            m == b.len(),
            j <= m,
            prev.len() == j + 1,
            forall|k: int| 0 <= k <= j ==> prev@[k] == edit_distance(a@.take(0), b@.take(k)),
        decreases m - j,
    {
        prev.push(j + 1);
        j += 1;
    }
    let mut i: usize = 0;
    while i < a.len()
        invariant
            m == b.len(),
            i <= a.len(),
            prev.len() == m + 1,
            forall|k: int| 0 <= k <= m ==> prev@[k] == edit_distance(a@.take(i as int), b@.take(k)),
        decreases a.len() - i,
    {
        let ai = a[i];
        let ghost ai1 = a@.take(i + 1);
        proof {
            assert(ai1.drop_last() =~= a@.take(i as int));
            assert(ai1.last() == ai);
            assert(b@.take(0).len() == 0);
        }
        let mut cur: Vec<usize> = Vec::new();
        cur.push(i + 1);
        let mut j: usize = 0;
        while j < m
            invariant
                m == b.len(),
                i < a.len(),
                j <= m,
                ai1 == a@.take(i + 1),
                ai1.drop_last() == a@.take(i as int),
                ai1.last() == ai,
                prev.len() == m + 1,
                forall|k: int| 0 <= k <= m ==> prev@[k] == edit_distance(a@.take(i as int), b@.take(k)),
                cur.len() == j + 1,
                forall|k: int| 0 <= k <= j ==> cur@[k] == edit_distance(ai1, b@.take(k)),
            decreases m - j,
        {
            let bj = b[j];
            let ghost bj1 = b@.take(j + 1);
            proof {
                assert(bj1.drop_last() =~= b@.take(j as int));
                assert(bj1.last() == bj);
                lemma_edit_distance_bound(a@.take(i as int), b@.take(j + 1));
                lemma_edit_distance_bound(ai1, b@.take(j as int));
                lemma_edit_distance_bound(a@.take(i as int), b@.take(j as int));
            }
            let cost: usize = if ai == bj {
                0
            } else {
                1
            };
            let v = min3_exec(
                prev[j + 1].saturating_add(1),
                cur[j].saturating_add(1),
                prev[j].saturating_add(cost),
            );
            cur.push(v);
            j += 1;
        }
        prev = cur;
        i += 1;
    }
    assert(a@.take(a.len() as int) =~= a@);
    assert(b@.take(m as int) =~= b@);
    prev[m]
}

fn values_match(stored: &Value, op: CompareOp, q: &Value) -> (r: bool)
    ensures
        r == value_matches(stored@, op, q@),
{
    match (stored, q) {
        (Value::Integer(a), Value::Integer(b)) => match op {
            CompareOp::Eq => *a == *b,
            CompareOp::NotEq => *a != *b,
            CompareOp::Gt => *a > *b,
            CompareOp::Ge => *a >= *b,
            CompareOp::Lt => *a < *b,
            CompareOp::Le => *a <= *b,
        },
        (Value::String(a), Value::String(b)) => match op {
            CompareOp::Eq => {
                let x = normalize(a.as_str());
                let y = normalize(b.as_str());
                str_eq(x.as_str(), y.as_str())
            },
            CompareOp::NotEq => {
                let x = normalize(a.as_str());
                let y = normalize(b.as_str());
                !str_eq(x.as_str(), y.as_str())
            },
            _ => false,
        },
        _ => false,
    }
}

fn is_prefix_chars(t: &Vec<char>, s: &Vec<char>) -> (r: bool)
    ensures
        r == t@.is_prefix_of(s@),
{
    if t.len() > s.len() {
        return false;
    }
    let mut i: usize = 0;
    while i < t.len()
        invariant
            t.len() <= s.len(),
            i <= t.len(),
            forall|k: int| 0 <= k < i ==> t@[k] == s@[k],
        decreases t.len() - i,
    {
        if t[i] != s[i] {
            return false;
        }
        i += 1;
    }
    true
}

impl Resolver {
    /// The resolver's registries are well formed.
    pub open spec fn wf(&self) -> bool {
        self.relationship_types.wf()
    }

    /// Whether an entity meets a criterion.
    pub open spec fn meets(&self, e: EntityDocument, c: Criterion) -> bool {
        match c {
            Criterion::Alias(q) => has_alias(e, q),
            Criterion::AliasPrefix(t) => has_alias_prefix(e, t),
            Criterion::AliasNear(t, d) => has_alias_near(e, t, d),
            Criterion::AliasWord(t) => has_alias_word(e, t),
            Criterion::Tag(tag) => e.tags@.contains(tag),
            Criterion::Attribute(key, op, v) => exists|i: int|
                0 <= i < e.attributes@.len() && key_named(
                    self.attribute_names@,
                    (#[trigger] e.attributes@[i]).key,
                    key,
                ) && value_matches(e.attributes@[i].value@, op, v),
            Criterion::Related(kind, target) => e.relationships@.contains(
                Relationship { kind: RelationshipType::Custom(kind), target },
            ),
        }
    }

    /// The identifiers of the entities that meet a criterion, in insertion order.
    pub open spec fn matching(&self, c: Criterion) -> Seq<EntityID> {
        ids_where(self.entities@, |e: EntityDocument| self.meets(e, c))
    }

    fn key_named_exec(&self, key: AttributeKeyID, name: &String) -> (r: bool)
        ensures
            r == key_named(self.attribute_names@, key, name@),
    {
        let mut j: usize = 0;
        while j < self.attribute_names.len()
            invariant
                j <= self.attribute_names@.len(),
                forall|x: int|
                    0 <= x < j ==> !((#[trigger] self.attribute_names@[x]).0 == key
                        && spec_normalize(self.attribute_names@[x].1@) == name@),
            decreases self.attribute_names.len() - j,
        {
            let entry = &self.attribute_names[j];
            if entry.0 == key {
                let n = normalize(entry.1.as_str());
                if str_eq(n.as_str(), name.as_str()) {
                    assert(self.attribute_names@[j as int].0 == key);
                    return true;
                }
            }
            j += 1;
        }
        false
    }

    #[verifier::loop_isolation(false)]
    fn check(&self, e: &EntityDocument, p: &Probe) -> (r: bool)
        ensures
            r == self.meets(*e, probe_view(*p)),
    {
        match p {
            Probe::Alias(q) => {
                let mut i: usize = 0;
                while i < e.aliases.len()
                    invariant
                        i <= e.aliases@.len(),
                        forall|j: int| 0 <= j < i ==> spec_normalize((#[trigger] e.aliases@[j])@) != q@,
                    decreases e.aliases.len() - i,
                {
                    let n = normalize(e.aliases[i].as_str());
                    if str_eq(n.as_str(), q.as_str()) {
                        assert(spec_normalize((e.aliases@[i as int])@) == q@);
                        assert(has_alias(*e, q@));
                        assert(probe_view(*p) == Criterion::Alias(q@));
                        return true;
                    }
                    i += 1;
                }
                false
            },
            Probe::AliasPrefix(t) => {
                let mut i: usize = 0;
                while i < e.aliases.len()
                    invariant
                        i <= e.aliases@.len(),
                        forall|j: int|
                            0 <= j < i ==> !t@.is_prefix_of(spec_normalize((#[trigger] e.aliases@[j])@)),
                    decreases e.aliases.len() - i,
                {
                    let n = normalize(e.aliases[i].as_str());
                    let cs = chars_of(n.as_str());
                    if is_prefix_chars(t, &cs) {
                        assert(t@.is_prefix_of(spec_normalize((e.aliases@[i as int])@)));
                        assert(has_alias_prefix(*e, t@));
                        assert(probe_view(*p) == Criterion::AliasPrefix(t@));
                        return true;
                    }
                    i += 1;
                }
                false
            },
            Probe::AliasNear(t, d) => {
                let mut i: usize = 0;
                while i < e.aliases.len()
                    invariant
                        i <= e.aliases@.len(),
                        forall|j: int|
                            0 <= j < i ==> !(edit_distance(
                                spec_normalize((#[trigger] e.aliases@[j])@),
                                t@,
                            ) <= *d as nat),
                    decreases e.aliases.len() - i,
                {
                    let n = normalize(e.aliases[i].as_str());
                    let cs = chars_of(n.as_str());
                    if edit_distance_exec(&cs, t) <= *d {
                        assert(edit_distance(spec_normalize((e.aliases@[i as int])@), t@) <= *d as nat);
                        assert(has_alias_near(*e, t@, *d as nat));
                        assert(probe_view(*p) == Criterion::AliasNear(t@, *d as nat));
                        return true;
                    }
                    i += 1;
                }
                false
            },
            Probe::AliasWord(t) => {
                let mut i: usize = 0;
                while i < e.aliases.len()
                    invariant
                        i <= e.aliases@.len(),
                        forall|j: int|
                            0 <= j < i ==> !words(spec_normalize((#[trigger] e.aliases@[j])@)).contains(t@),
                    decreases e.aliases.len() - i,
                {
                    let n = normalize(e.aliases[i].as_str());
                    let ws = split_whitespace(n.as_str());
                    let mut k: usize = 0;
                    while k < ws.len()
                        invariant
                            k <= ws@.len(),
                            forall|x: int| 0 <= x < k ==> (#[trigger] ws@[x])@ != t@,
                        decreases ws.len() - k,
                    {
                        if str_eq(ws[k].as_str(), t.as_str()) {
                            proof {
                                assert(ws@.map_values(|w: String| w@)[k as int] == t@);
                                assert(words(spec_normalize((e.aliases@[i as int])@)).contains(t@));
                                assert(has_alias_word(*e, t@));
                                assert(probe_view(*p) == Criterion::AliasWord(t@));
                            }
                            return true;
                        }
                        k += 1;
                    }
                    proof {
                        let m = ws@.map_values(|w: String| w@);
                        assert forall|x: int| 0 <= x < m.len() implies m[x] != t@ by {
                            assert(m[x] == ws@[x]@);
                        }
                    }
                    i += 1;
                }
                false
            },
            Probe::Tag(tag) => {
                let mut i: usize = 0;
                while i < e.tags.len()
                    invariant
                        i <= e.tags@.len(),
                        forall|j: int| 0 <= j < i ==> e.tags@[j] != *tag,
                    decreases e.tags.len() - i,
                {
                    if e.tags[i] == *tag {
                        assert(e.tags@[i as int] == *tag);
                        assert(e.tags@.contains(*tag));
                        assert(probe_view(*p) == Criterion::Tag(*tag));
                        return true;
                    }
                    i += 1;
                }
                false
            },
            Probe::Attribute(key, op, v) => {
                let mut i: usize = 0;
                while i < e.attributes.len()
                    invariant
                        i <= e.attributes@.len(),
                        forall|j: int|
                            0 <= j < i ==> !(key_named(
                                self.attribute_names@,
                                (#[trigger] e.attributes@[j]).key,
                                key@,
                            ) && value_matches(e.attributes@[j].value@, *op, v@)),
                    decreases e.attributes.len() - i,
                {
                    let a = &e.attributes[i];
                    if self.key_named_exec(a.key, key) && values_match(&a.value, *op, v) {
                        assert(key_named(self.attribute_names@, (e.attributes@[i as int]).key, key@));
                        assert(probe_view(*p) == Criterion::Attribute(key@, *op, v@));
                        return true;
                    }
                    i += 1;
                }
                false
            },
            Probe::Related(kind, target) => {
                let wanted = Relationship { kind: RelationshipType::Custom(*kind), target: *target };
                let mut i: usize = 0;
                while i < e.relationships.len()
                    invariant
                        i <= e.relationships@.len(),
                        forall|j: int| 0 <= j < i ==> e.relationships@[j] != wanted,
                    decreases e.relationships.len() - i,
                {
                    if e.relationships[i] == wanted {
                        assert(e.relationships@[i as int] == wanted);
                        assert(e.relationships@.contains(wanted));
                        assert(probe_view(*p) == Criterion::Related(*kind, *target));
                        return true;
                    }
                    i += 1;
                }
                false
            },
        }
    }

    fn collect(&self, p: &Probe) -> (r: Vec<EntityID>)
        ensures
            r@ == self.matching(probe_view(*p)),
    {
        let ghost c = probe_view(*p);
        let ghost pred = |e: EntityDocument| self.meets(e, c);
        let mut out: Vec<EntityID> = Vec::new();
        let mut i: usize = 0;
        while i < self.entities.len()
            invariant
                i <= self.entities@.len(),
                c == probe_view(*p),
                pred == (|e: EntityDocument| self.meets(e, c)),
                out@ == ids_where(self.entities@.take(i as int), pred),
            decreases self.entities.len() - i,
        {
            assert(self.entities@.take(i + 1).drop_last() =~= self.entities@.take(i as int));
            if self.check(&self.entities[i], p) {
                out.push(self.entities[i].id);
            }
            i += 1;
        }
        assert(self.entities@.take(self.entities.len() as int) =~= self.entities@);
        out
    }
}

impl Default for Resolver {
    /// A resolver with no entities and no registered names.
    fn default() -> (r: Self)
        ensures
            r.wf(),
            r.entities@.len() == 0,
            r.tags@.len() == 0,
            r.attribute_names@.len() == 0,
            r.relationship_types.slots().len() == 0,
            r.relationship_types.canonical(),
    {
        Resolver {
            entities: Vec::new(),
            tags: Vec::new(),
            attribute_names: Vec::new(),
            relationship_types: Registry::default(),
        }
    }
}

impl Resolver {
    /// Adds an entity.
    pub fn add(&mut self, entity: EntityDocument)
        ensures
            final(self).entities@ == old(self).entities@.push(entity),
            final(self).tags@ == old(self).tags@,
            final(self).attribute_names@ == old(self).attribute_names@,
            final(self).relationship_types == old(self).relationship_types,
    {
        self.entities.push(entity);
    }

    /// Registers the name of an attribute key.
    pub fn register_attribute(&mut self, key: AttributeKeyID, name: String)
        ensures
            final(self).entities@ == old(self).entities@,
            final(self).tags@ == old(self).tags@,
            final(self).attribute_names@ == old(self).attribute_names@.push((key, name)),
            final(self).relationship_types == old(self).relationship_types,
    {
        self.attribute_names.push((key, name));
    }

    /// Registers the name of a tag.
    pub fn register_tag(&mut self, tag: TagID, name: String)
        ensures
            final(self).entities@ == old(self).entities@,
            final(self).tags@ == old(self).tags@.push((tag, name)),
            final(self).attribute_names@ == old(self).attribute_names@,
            final(self).relationship_types == old(self).relationship_types,
    {
        self.tags.push((tag, name));
    }

    /// Registers a relationship type by name and returns its identifier.
    pub fn register_relationship_type(&mut self, name: &str) -> (id: RelationshipTypeID)
        requires
            old(self).wf(),
        ensures
            final(self).wf(),
            final(self).entities@ == old(self).entities@,
            final(self).tags@ == old(self).tags@,
            final(self).attribute_names@ == old(self).attribute_names@,
            final(self).relationship_types.lookup().contains_key(spec_normalize(name@)),
            final(self).relationship_types.lookup()[spec_normalize(name@)] == id.slot(),
            old(self).relationship_types.lookup().contains_key(spec_normalize(name@))
                ==> final(self).relationship_types.lookup() == old(self).relationship_types.lookup(),
            !old(self).relationship_types.lookup().contains_key(spec_normalize(name@))
                ==> final(self).relationship_types.lookup() == old(self).relationship_types.lookup().insert(
                spec_normalize(name@),
                id.slot(),
            ),
    {
        self.relationship_types.intern(name)
    }

    /// The relationship type registered under the normal form of `kind`.
    pub fn relationship_type_id(&self, kind: &str) -> (r: Option<RelationshipTypeID>)
        requires
            self.wf(),
        ensures
            match r {
                Some(id) => self.relationship_types.lookup().contains_key(spec_normalize(kind@))
                    && self.relationship_types.lookup()[spec_normalize(kind@)] == id.slot(),
                None => !self.relationship_types.lookup().contains_key(spec_normalize(kind@)),
            },
    {
        let k = normalize(kind);
        self.relationship_types.id(k.as_str())
    }

    /// The entities with an alias whose normal form is that of `alias`.
    pub fn resolve(&self, alias: &str) -> (r: Vec<EntityID>)
        ensures
            r@ == self.matching(Criterion::Alias(spec_normalize(alias@))),
    {
        let q = normalize(alias);
        self.collect(&Probe::Alias(q))
    }

    /// The entities with an alias whose normal form begins with `token`.
    pub fn prefix(&self, token: &str) -> (r: Vec<EntityID>)
        ensures
            r@ == self.matching(Criterion::AliasPrefix(token@)),
    {
        let t = chars_of(token);
        self.collect(&Probe::AliasPrefix(t))
    }

    /// The entities with an alias whose normal form is within `distance`
    /// edits of `token`.
    pub fn fuzzy(&self, token: &str, distance: usize) -> (r: Vec<EntityID>)
        ensures
            r@ == self.matching(Criterion::AliasNear(token@, distance as nat)),
    {
        let t = chars_of(token);
        self.collect(&Probe::AliasNear(t, distance))
    }

    /// The entities with an alias that has `token` as one of its words.
    pub fn lookup(&self, token: &str) -> (r: Vec<EntityID>)
        ensures
            r@ == self.matching(Criterion::AliasWord(token@)),
    {
        let t = string_from_chars(chars_of(token).as_slice());
        self.collect(&Probe::AliasWord(t))
    }

    /// The first registered tag whose name has the normal form of `token`.
    pub fn tag_search(&self, token: &str) -> (r: Option<TagID>)
        ensures
            r == first_tag_named(self.tags@, spec_normalize(token@)),
    {
        let t = normalize(token);
        let mut i: usize = 0;
        assert(self.tags@.skip(0) =~= self.tags@);
        while i < self.tags.len()
            invariant
                i <= self.tags@.len(),
                t@ == spec_normalize(token@),
                first_tag_named(self.tags@, t@) == first_tag_named(self.tags@.skip(i as int), t@),
            decreases self.tags.len() - i,
        {
            let ghost rest = self.tags@.skip(i as int);
            assert(rest[0] == self.tags@[i as int]);
            assert(rest.drop_first() =~= self.tags@.skip(i + 1));
            let n = normalize(self.tags[i].1.as_str());
            if str_eq(n.as_str(), t.as_str()) {
                assert(first_tag_named(rest, t@) == Some(rest[0].0));
                return Some(self.tags[i].0);
            }
            i += 1;
        }
        None
    }

    /// The entities that carry a tag.
    pub fn entities_with_tag(&self, tag: TagID) -> (r: Vec<EntityID>)
        ensures
            r@ == self.matching(Criterion::Tag(tag)),
    {
        self.collect(&Probe::Tag(tag))
    }

    /// The entities with an attribute whose key is registered under the
    /// normal form of `key` and whose value compares with `value` by `op`.
    pub fn attribute_compare(&self, key: &str, op: CompareOp, value: &Value) -> (r: Vec<EntityID>)
        ensures
            r@ == self.matching(Criterion::Attribute(spec_normalize(key@), op, value@)),
    {
        let k = normalize(key);
        self.collect(&Probe::Attribute(k, op, value))
    }

    /// The entities with a relationship of a registered type to `target`.
    pub fn relationship_lookup(&self, kind: RelationshipTypeID, target: EntityID) -> (r: Vec<
        EntityID,
    >)
        ensures
            r@ == self.matching(Criterion::Related(kind, target)),
    {
        self.collect(&Probe::Related(kind, target))
    }
}

} // verus!
