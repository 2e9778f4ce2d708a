//! Candidates that carry a tag named by a query word.
use vstd::prelude::*;

use crate::resolver::{first_tag_named, Criterion, Resolver};
use crate::search::candidate::with_signal_lists;
use crate::search::context::SearchContext;
use crate::search::signal::Signal;

verus! {

/// For each query word that names a tag, the entities that carry the tag.
pub open spec fn hits(r: Resolver, tokens: Seq<String>) -> Seq<Seq<crate::ids::EntityID>> {
    tokens.map_values(|t: String| match first_tag_named(r.tags@, crate::text::spec_normalize(t@)) {
        Some(tag) => r.matching(Criterion::Tag(tag)),
        None => seq![],
    })
}

/// Adds a `Tag` signal per query word that names a tag, for each entity that carries the tag.
pub fn execute(ctx: &mut SearchContext)
    requires
        old(ctx).wf(),
    ensures
        final(ctx).wf(),
        final(ctx).resolver == old(ctx).resolver,
        final(ctx).query == old(ctx).query,
        final(ctx).database == old(ctx).database,
        final(ctx).candidates.view() == with_signal_lists(
            old(ctx).candidates.view(),
            hits(old(ctx).resolver, old(ctx).query.tokens@),
            Signal::Tag,
        ),
{
    let ghost lists = hits(ctx.resolver, ctx.query.tokens@);
    let mut i: usize = 0;
    while i < ctx.query.tokens.len()
        invariant
            i <= ctx.query.tokens@.len(),
            ctx.wf(),
            ctx.resolver == old(ctx).resolver,
            ctx.query == old(ctx).query,
            ctx.database == old(ctx).database,
            lists == hits(ctx.resolver, ctx.query.tokens@),
            ctx.candidates.view() == with_signal_lists(
                old(ctx).candidates.view(),
                lists.take(i as int),
                Signal::Tag,
            ),
        decreases ctx.query.tokens.len() - i,
    {
        assert(lists.take(i + 1).drop_last() =~= lists.take(i as int));
        let token = &ctx.query.tokens[i];
        match ctx.resolver.tag_search(token.as_str()) {
            Some(tag_id) => {
                let entities = ctx.resolver.entities_with_tag(tag_id);
                ctx.candidates.add_signals(&entities, Signal::Tag);
            },
            None => {},
        }
        i += 1;
    }
    assert(lists.take(ctx.query.tokens.len() as int) =~= lists);
}

} // verus!
