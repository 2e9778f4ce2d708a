//! Candidates that satisfy an attribute comparison.
use vstd::prelude::*;

use crate::query::{Filter, SpecFilter};
use crate::resolver::{Criterion, Resolver};
use crate::search::candidate::{with_signals, CandidateSet};
use crate::search::signal::Signal;
use crate::text::spec_normalize;

verus! {

/// The entities an attribute filter selects; none for any other filter.
pub open spec fn hits(r: Resolver, f: SpecFilter) -> Seq<crate::ids::EntityID> {
    match f {
        SpecFilter::Attribute { key, op, value } => r.matching(
            Criterion::Attribute(spec_normalize(key), op, value),
        ),
        _ => seq![],
    }
}

/// Adds a `Property` signal for each entity that an attribute filter
/// selects; any other filter changes nothing.
pub fn execute(resolver: &Resolver, candidates: &mut CandidateSet, filter: &Filter)
    requires
        old(candidates).wf(),
    ensures
        final(candidates).wf(),
        final(candidates).view() == with_signals(
            old(candidates).view(),
            hits(*resolver, filter@),
            Signal::Property,
        ),
{
    match filter {
        Filter::Attribute { key, op, value } => {
            let entities = resolver.attribute_compare(key.as_str(), *op, value);
            candidates.add_signals(&entities, Signal::Property);
        },
        _ => {},
    }
}

} // verus!
