//! Candidates with an alias that contains a query word.
use vstd::prelude::*;

use crate::resolver::{Criterion, Resolver};
use crate::search::candidate::with_signal_lists;
use crate::search::context::SearchContext;
use crate::search::signal::Signal;

verus! {

/// For each query word, the entities with an alias that has it among its words.
pub open spec fn hits(r: Resolver, tokens: Seq<String>) -> Seq<Seq<crate::ids::EntityID>> {
    tokens.map_values(|t: String| r.matching(Criterion::AliasWord(t@)))
}

/// Adds a `Token` signal per query word for each entity with an alias that has that word.
pub fn execute(ctx: &mut SearchContext)
    requires
        old(ctx).wf(),
    ensures
        final(ctx).wf(),
        final(ctx).resolver == old(ctx).resolver,
        final(ctx).query == old(ctx).query,
        final(ctx).database == old(ctx).database,
        final(ctx).candidates.view() == with_signal_lists(
            old(ctx).candidates.view(),
            hits(old(ctx).resolver, old(ctx).query.tokens@),
            Signal::Token,
        ),
{
    let ghost lists = hits(ctx.resolver, ctx.query.tokens@);
    let mut i: usize = 0;
    while i < ctx.query.tokens.len()
        invariant
            i <= ctx.query.tokens@.len(),
            ctx.wf(),
            ctx.resolver == old(ctx).resolver,
            ctx.query == old(ctx).query,
            ctx.database == old(ctx).database,
            lists == hits(ctx.resolver, ctx.query.tokens@),
            ctx.candidates.view() == with_signal_lists(
                old(ctx).candidates.view(),
                lists.take(i as int),
                Signal::Token,
            ),
        decreases ctx.query.tokens.len() - i,
    {
        assert(lists.take(i + 1).drop_last() =~= lists.take(i as int));
        let token = &ctx.query.tokens[i];
        let entities = ctx.resolver.lookup(token.as_str());
        ctx.candidates.add_signals(&entities, Signal::Token);
        i += 1;
    }
    assert(lists.take(ctx.query.tokens.len() as int) =~= lists);
}

} // verus!
