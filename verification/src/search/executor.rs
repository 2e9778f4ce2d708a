//! Runs a search plan against a search context.
use vstd::prelude::*;

use crate::query::{view_opt_expr, Filter, FilterExpr, Query, SpecFilter, SpecFilterExpr};
use crate::resolver::{Criterion, Resolver};
use crate::search::candidate::{merged, signals_at, with_signal_lists, with_signals, CandidateSet};
use crate::search::context::SearchContext;
use crate::search::operators;
use crate::search::planner::{SearchPlan, SearchStage};
use crate::search::signal::Signal;
use crate::text::spec_normalize;

verus! {

/// The candidates a filter expression selects: a leaf adds its signal to
/// each entity it selects, `&` keeps the left candidates the right side
/// also has, `|` merges both sides, and `!` selects nothing.
pub open spec fn evaluated(r: Resolver, e: SpecFilterExpr) -> Map<usize, Seq<Signal>>
    decreases e,
{
    match e {
        SpecFilterExpr::Filter(f) => match f {
            SpecFilter::Attribute { .. } => with_signals(
                Map::empty(),
                operators::attribute::hits(r, f),
                Signal::Property,
            ),
            SpecFilter::Relationship { .. } => with_signals(
                Map::empty(),
                operators::relationship::hits(r, f),
                Signal::Relationship,
            ),
            _ => Map::empty(),
        },
        SpecFilterExpr::And(left, right) => evaluated(r, *left).restrict(
            evaluated(r, *right).dom(),
        ),
        SpecFilterExpr::Or(left, right) => merged(evaluated(r, *left), evaluated(r, *right)),
        SpecFilterExpr::Not(_) => Map::empty(),
    }
}

/// Filters combine as boolean logic: an entity is selected by `a & b`
/// exactly when both sides select it, keeping the signals of `a`; by
/// `a | b` exactly when either does, with the signals of `a` then `b`. A
/// negation, and a tag, source or entity-type filter, select nothing.
pub proof fn lemma_filter_boolean_semantics(r: Resolver, a: SpecFilterExpr, b: SpecFilterExpr)
    ensures
        evaluated(r, SpecFilterExpr::And(Box::new(a), Box::new(b))).dom() == evaluated(r, a).dom().intersect(
            evaluated(r, b).dom(),
        ),
        forall|k: usize| #[trigger]
            evaluated(r, SpecFilterExpr::And(Box::new(a), Box::new(b))).contains_key(k) ==> evaluated(
                r,
                SpecFilterExpr::And(Box::new(a), Box::new(b)),
            )[k] == evaluated(r, a)[k],
        evaluated(r, SpecFilterExpr::Or(Box::new(a), Box::new(b))).dom() == evaluated(r, a).dom().union(
            evaluated(r, b).dom(),
        ),
        forall|k: usize| #[trigger]
            evaluated(r, SpecFilterExpr::Or(Box::new(a), Box::new(b))).contains_key(k) ==> evaluated(
                r,
                SpecFilterExpr::Or(Box::new(a), Box::new(b)),
            )[k] == signals_at(evaluated(r, a), k) + signals_at(evaluated(r, b), k),
        evaluated(r, SpecFilterExpr::Not(Box::new(a))) == Map::<usize, Seq<Signal>>::empty(),
        forall|f: SpecFilter|
            (f is Tag || f is Source || f is EntityType) ==> #[trigger] evaluated(r, SpecFilterExpr::Filter(f))
                == Map::<usize, Seq<Signal>>::empty(),
{
    assert(evaluated(r, SpecFilterExpr::And(Box::new(a), Box::new(b))).dom() =~= evaluated(r, a).dom().intersect(
        evaluated(r, b).dom(),
    ));
    assert(evaluated(r, SpecFilterExpr::Or(Box::new(a), Box::new(b))).dom() =~= evaluated(r, a).dom().union(
        evaluated(r, b).dom(),
    ));
}

/// The candidates after one stage, given those before it.
pub open spec fn stage_effect(r: Resolver, q: Query, m: Map<usize, Seq<Signal>>, stage: SearchStage) -> Map<
    usize,
    Seq<Signal>,
> {
    match stage {
        SearchStage::ExactAlias => with_signals(
            m,
            r.matching(Criterion::Alias(spec_normalize(q.normalized@))),
            Signal::ExactAlias,
        ),
        SearchStage::PrefixAlias => with_signal_lists(
            m,
            operators::prefix_alias::hits(r, q.tokens@),
            Signal::PrefixAlias,
        ),
        SearchStage::FuzzyAlias { distance } => with_signal_lists(
            m,
            operators::fuzzy_alias::hits(r, q.tokens@, distance as nat),
            Signal::FuzzyAlias,
        ),
        SearchStage::Token => with_signal_lists(
            m,
            operators::token::hits(r, q.tokens@),
            Signal::Token,
        ),
        SearchStage::Tag => with_signal_lists(m, operators::tag::hits(r, q.tokens@), Signal::Tag),
        SearchStage::Attribute | SearchStage::Relationship => match view_opt_expr(q.filter) {
            Some(e) => evaluated(r, e),
            None => m,
        },
    }
}

/// The candidates after running `stages` in order, starting from `m`.
pub open spec fn run_stages(r: Resolver, q: Query, m: Map<usize, Seq<Signal>>, stages: Seq<SearchStage>) -> Map<
    usize,
    Seq<Signal>,
>
    decreases stages.len(),
{
    if stages.len() == 0 {
        m
    } else {
        stage_effect(r, q, run_stages(r, q, m, stages.drop_last()), stages.last())
    }
}

/// Runs search plans.
pub struct SearchExecutor;

impl SearchExecutor {
    /// Runs the stages of a plan in order. Alias, word and tag stages add
    /// signals to the candidates; an attribute or relationship stage replaces
    /// them with what the query's filter selects, where it has one.
    pub fn execute(plan: &SearchPlan, ctx: &mut SearchContext)
        requires
            old(ctx).wf(),
        ensures
            final(ctx).wf(),
            final(ctx).resolver == old(ctx).resolver,
            final(ctx).query == old(ctx).query,
            final(ctx).database == old(ctx).database,
            final(ctx).candidates.view() == run_stages(
                old(ctx).resolver,
                *old(ctx).query,
                old(ctx).candidates.view(),
                plan.stages@,
            ),
    {
        let mut i: usize = 0;
        while i < plan.stages.len()
            invariant
                i <= plan.stages@.len(),
                ctx.wf(),
                ctx.resolver == old(ctx).resolver,
                ctx.query == old(ctx).query,
                ctx.database == old(ctx).database,
                ctx.candidates.view() == run_stages(
                    old(ctx).resolver,
                    *old(ctx).query,
                    old(ctx).candidates.view(),
                    plan.stages@.take(i as int),
                ),
            decreases plan.stages.len() - i,
        {
            assert(plan.stages@.take(i + 1).drop_last() =~= plan.stages@.take(i as int));
            match plan.stages[i] {
                SearchStage::ExactAlias => {
                    operators::exact_alias::execute(ctx);
                },
                SearchStage::PrefixAlias => {
                    operators::prefix_alias::execute(ctx);
                },
                SearchStage::FuzzyAlias { distance } => {
                    operators::fuzzy_alias::execute(ctx, distance);
                },
                SearchStage::Token => {
                    operators::token::execute(ctx);
                },
                SearchStage::Tag => {
                    operators::tag::execute(ctx);
                },
                SearchStage::Attribute | SearchStage::Relationship => {
                    if let Some(expr) = ctx.query.filter.as_ref() {
                        let candidates = Self::evaluate_filter_expr(&ctx.resolver, expr);
                        ctx.candidates = candidates;
                    }
                },
            }
            i += 1;
        }
        assert(plan.stages@.take(plan.stages.len() as int) =~= plan.stages@);
    }

    /// The candidates a filter expression selects.
    fn evaluate_filter_expr(resolver: &Resolver, expr: &FilterExpr) -> (r: CandidateSet)
        requires
            resolver.wf(),
        ensures
            r.wf(),
            r.view() == evaluated(*resolver, expr@),
        decreases expr,
    {
        match expr {
            FilterExpr::Filter(filter) => {
                let mut candidates = CandidateSet::default();
                match filter {
                    Filter::Attribute { .. } => {
                        operators::attribute::execute(resolver, &mut candidates, filter);
                    },
                    Filter::Relationship { .. } => {
                        operators::relationship::execute(resolver, &mut candidates, filter);
                    },
                    _ => {},
                }
                candidates
            },
            FilterExpr::And(left, right) => {
                let mut left = Self::evaluate_filter_expr(resolver, left);
                let right = Self::evaluate_filter_expr(resolver, right);
                left.intersect_with(&right);
                left
            },
            FilterExpr::Or(left, right) => {
                let mut left = Self::evaluate_filter_expr(resolver, left);
                let right = Self::evaluate_filter_expr(resolver, right);
                left.union_with(right);
                left
            },
            FilterExpr::Not(inner) => {
                // A negation needs the whole universe of entities; it selects nothing.
                let _inner = Self::evaluate_filter_expr(resolver, inner);
                CandidateSet::default()
            },
        }
    }
}

} // verus!
