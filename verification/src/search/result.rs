//! Where a search hit came from, and why it matched.
use vstd::prelude::*;

use crate::ids::{EntityID, RelationshipTypeID, SourceID, TagID};
use crate::text::str_eq;

verus! {

/// The kind of evidence behind a hit.
#[derive(Debug, Clone, Copy, PartialEq, Eq, Structural, Hash)]
pub enum SearchSource {
    ExactAlias,
    PrefixAlias,
    FuzzyAlias,
    Token,
    Tag,
    AttributeKey,
    AttributeValue,
    AttributeKeyValue,
    Relationship,
    Source,
}

/// The evidence itself: what matched.
#[derive(Debug, Clone, PartialEq, Eq, Hash)]
pub enum SearchExplanation {
    ExactAlias { alias: String },
    PrefixAlias { alias: String },
    FuzzyAlias { alias: String },
    Token { token: String },
    Relationship { kind: RelationshipTypeID, target: EntityID },
    Tag { tag: TagID },
    AttributeKey { term: String },
    AttributeValue { term: String },
    AttributeKeyValue { key: String, value: String },
    Source { source: SourceID },
}

/// Two explanations say the same thing: same variant, same field values
/// (texts compared by their characters).
pub open spec fn same_explanation(a: SearchExplanation, b: SearchExplanation) -> bool {
    match (a, b) {
        (SearchExplanation::ExactAlias { alias: x }, SearchExplanation::ExactAlias { alias: y }) => x@
            == y@,
        (SearchExplanation::PrefixAlias { alias: x }, SearchExplanation::PrefixAlias { alias: y }) => x@
            == y@,
        (SearchExplanation::FuzzyAlias { alias: x }, SearchExplanation::FuzzyAlias { alias: y }) => x@
            == y@,
        (SearchExplanation::Token { token: x }, SearchExplanation::Token { token: y }) => x@ == y@,
        (
            SearchExplanation::Relationship { kind: k1, target: t1 },
            SearchExplanation::Relationship { kind: k2, target: t2 },
        ) => k1 == k2 && t1 == t2,
        (SearchExplanation::Tag { tag: x }, SearchExplanation::Tag { tag: y }) => x == y,
        (SearchExplanation::AttributeKey { term: x }, SearchExplanation::AttributeKey { term: y }) => x@
            == y@,
        (SearchExplanation::AttributeValue { term: x }, SearchExplanation::AttributeValue { term: y }) => x@
            == y@,
        (
            SearchExplanation::AttributeKeyValue { key: k1, value: v1 },
            SearchExplanation::AttributeKeyValue { key: k2, value: v2 },
        ) => k1@ == k2@ && v1@ == v2@,
        (SearchExplanation::Source { source: x }, SearchExplanation::Source { source: y }) => x == y,
        _ => false,
    }
}

impl SearchExplanation {
    /// Whether `self` and `other` say the same thing.
    pub fn same_as(&self, other: &SearchExplanation) -> (r: bool)
        ensures
            r == same_explanation(*self, *other),
    {
        match (self, other) {
            (SearchExplanation::ExactAlias { alias: x }, SearchExplanation::ExactAlias { alias: y }) => {
                str_eq(x.as_str(), y.as_str())
            },
            (
                SearchExplanation::PrefixAlias { alias: x },
                SearchExplanation::PrefixAlias { alias: y },
            ) => str_eq(x.as_str(), y.as_str()),
            (SearchExplanation::FuzzyAlias { alias: x }, SearchExplanation::FuzzyAlias { alias: y }) => {
                str_eq(x.as_str(), y.as_str())
            },
            (SearchExplanation::Token { token: x }, SearchExplanation::Token { token: y }) => {
                str_eq(x.as_str(), y.as_str())
            },
            (
                SearchExplanation::Relationship { kind: k1, target: t1 },
                SearchExplanation::Relationship { kind: k2, target: t2 },
            ) => k1.index == k2.index && t1.index == t2.index,
            (SearchExplanation::Tag { tag: x }, SearchExplanation::Tag { tag: y }) => x.index
                == y.index,
            (
                SearchExplanation::AttributeKey { term: x },
                SearchExplanation::AttributeKey { term: y },
            ) => str_eq(x.as_str(), y.as_str()),
            (
                SearchExplanation::AttributeValue { term: x },
                SearchExplanation::AttributeValue { term: y },
            ) => str_eq(x.as_str(), y.as_str()),
            (
                SearchExplanation::AttributeKeyValue { key: k1, value: v1 },
                SearchExplanation::AttributeKeyValue { key: k2, value: v2 },
            ) => str_eq(k1.as_str(), k2.as_str()) && str_eq(v1.as_str(), v2.as_str()),
            (SearchExplanation::Source { source: x }, SearchExplanation::Source { source: y }) => {
                x.index == y.index
            },
            _ => false,
        }
    }
}

} // verus!
