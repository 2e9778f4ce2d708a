//! Candidates whose alias is the whole query.
use vstd::prelude::*;

use crate::resolver::Criterion;
use crate::search::candidate::with_signals;
use crate::search::context::SearchContext;
use crate::search::signal::Signal;

verus! {

/// Adds an `ExactAlias` signal for each entity with an alias equal to the
/// normalised query.
pub fn execute(ctx: &mut SearchContext)
    requires
        old(ctx).wf(),
    ensures
        final(ctx).wf(),
        final(ctx).resolver == old(ctx).resolver,
        final(ctx).query == old(ctx).query,
        final(ctx).database == old(ctx).database,
        final(ctx).candidates.view() == with_signals(
            old(ctx).candidates.view(),
            old(ctx).resolver.matching(Criterion::Alias(crate::text::spec_normalize(old(ctx).query.normalized@))),
            Signal::ExactAlias,
        ),
{
    let entities = ctx.resolver.resolve(ctx.query.normalized.as_str());
    ctx.candidates.add_signals(&entities, Signal::ExactAlias);
}

} // verus!
