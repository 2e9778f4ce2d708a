//! The kinds of evidence that make an entity a search candidate.
use vstd::prelude::*;

verus! {

/// One piece of evidence for a candidate.
#[derive(Debug, Clone, Copy, PartialEq, Eq, Structural, Hash)]
pub enum Signal {
    ExactAlias,
    PrefixAlias,
    FuzzyAlias,
    Token,
    Tag,
    Property,
    Relationship,
}

/// The evidence gathered for one candidate, in the order it was found.
pub type SignalSet = Vec<Signal>;

} // verus!
