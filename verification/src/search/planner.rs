//! Search plans: which stages a query runs, in order.
use vstd::prelude::*;

use crate::query::{Filter, FilterExpr, Query, QueryIntent, SpecFilter, SpecFilterExpr};

verus! {

/// One stage of a search.
#[derive(Debug, Clone, Copy, PartialEq, Eq, Structural)]
pub enum SearchStage {
    ExactAlias,
    PrefixAlias,
    FuzzyAlias { distance: usize },
    Token,
    Tag,
    Attribute,
    Relationship,
}

/// The stages a search runs, in order.
#[derive(Debug)]
pub struct SearchPlan {
    pub stages: Vec<SearchStage>,
}

/// `s` with `stage` added at the end unless it is there already.
pub open spec fn add_stage(s: Seq<SearchStage>, stage: SearchStage) -> Seq<SearchStage> {
    if s.contains(stage) {
        s
    } else {
        s.push(stage)
    }
}

/// The stages a filter expression needs, added to `s` in the order of the
/// filters from left to right, each kind once.
pub open spec fn collected_stages(e: SpecFilterExpr, s: Seq<SearchStage>) -> Seq<SearchStage>
    decreases e,
{
    match e {
        SpecFilterExpr::Filter(f) => match f {
            SpecFilter::Attribute { .. } => add_stage(s, SearchStage::Attribute),
            SpecFilter::Tag { .. } => add_stage(s, SearchStage::Tag),
            SpecFilter::Relationship { .. } => add_stage(s, SearchStage::Relationship),
            _ => s,
        },
        SpecFilterExpr::And(l, r) => collected_stages(*r, collected_stages(*l, s)),
        SpecFilterExpr::Or(l, r) => collected_stages(*r, collected_stages(*l, s)),
        SpecFilterExpr::Not(e) => collected_stages(*e, s),
    }
}

/// The plan for a query of a given intent and filter.
pub open spec fn planned_stages(intent: QueryIntent, filter: Option<SpecFilterExpr>) -> Seq<
    SearchStage,
> {
    match intent {
        QueryIntent::Lookup => seq![
            SearchStage::ExactAlias,
            SearchStage::PrefixAlias,
            SearchStage::FuzzyAlias { distance: 1 },
            SearchStage::Token,
        ],
        QueryIntent::Browse => seq![SearchStage::Tag, SearchStage::Token],
        QueryIntent::Filter => match filter {
            Some(e) => collected_stages(e, seq![]),
            None => seq![],
        },
        QueryIntent::Relationship => seq![SearchStage::Relationship, SearchStage::Token],
        QueryIntent::Similar => seq![SearchStage::Tag, SearchStage::Attribute],
        QueryIntent::Tag => seq![SearchStage::Tag],
        QueryIntent::Unknown => seq![SearchStage::Token],
    }
}

/// Each intent but `Filter` runs a fixed list of stages. A lookup tries the
/// exact alias, then alias prefixes, then aliases one edit away, then the
/// words of aliases; the plan for a filter holds only filter stages, each once.
pub proof fn lemma_fixed_plans(filter: Option<SpecFilterExpr>)
    ensures
        planned_stages(QueryIntent::Lookup, filter) == seq![
            SearchStage::ExactAlias,
            SearchStage::PrefixAlias,
            SearchStage::FuzzyAlias { distance: 1 },
            SearchStage::Token,
        ],
        planned_stages(QueryIntent::Lookup, filter).contains(SearchStage::FuzzyAlias { distance: 1 }),
        planned_stages(QueryIntent::Browse, filter) == seq![SearchStage::Tag, SearchStage::Token],
        planned_stages(QueryIntent::Relationship, filter) == seq![SearchStage::Relationship, SearchStage::Token],
        planned_stages(QueryIntent::Similar, filter) == seq![SearchStage::Tag, SearchStage::Attribute],
        planned_stages(QueryIntent::Tag, filter) == seq![SearchStage::Tag],
        planned_stages(QueryIntent::Unknown, filter) == seq![SearchStage::Token],
        planned_stages(QueryIntent::Filter, filter).no_duplicates(),
        forall|i: int| 0 <= i < planned_stages(QueryIntent::Filter, filter).len() ==> is_filter_stage(
            #[trigger] planned_stages(QueryIntent::Filter, filter)[i],
        ),
{
    let l = planned_stages(QueryIntent::Lookup, filter);
    assert(l[2] == SearchStage::FuzzyAlias { distance: 1 });
    match filter {
        Some(e) => lemma_collected_stages(e, seq![]),
        None => {},
    }
}

/// A stage that a filter may need.
pub open spec fn is_filter_stage(st: SearchStage) -> bool {
    st == SearchStage::Attribute || st == SearchStage::Tag || st == SearchStage::Relationship
}

proof fn lemma_collected_filter(f: SpecFilter, s: Seq<SearchStage>)
    ensures
        s.no_duplicates() ==> collected_stages(SpecFilterExpr::Filter(f), s).no_duplicates(),
        (forall|i: int| 0 <= i < s.len() ==> is_filter_stage(#[trigger] s[i])) ==> (forall|i: int|
            0 <= i < collected_stages(SpecFilterExpr::Filter(f), s).len() ==> is_filter_stage(
                #[trigger] collected_stages(SpecFilterExpr::Filter(f), s)[i],
            )),
{
    let stage = match f {
        SpecFilter::Attribute { .. } => SearchStage::Attribute,
        SpecFilter::Tag { .. } => SearchStage::Tag,
        _ => SearchStage::Relationship,
    };
    if s.no_duplicates() {
        lemma_add_stage_no_duplicates(s, stage);
    }
}

/// Collecting adds only filter stages, and adds none twice.
proof fn lemma_collected_stages(e: SpecFilterExpr, s: Seq<SearchStage>)
    ensures
        s.no_duplicates() ==> collected_stages(e, s).no_duplicates(),
        (forall|i: int| 0 <= i < s.len() ==> is_filter_stage(#[trigger] s[i])) ==> (forall|i: int|
            0 <= i < collected_stages(e, s).len() ==> is_filter_stage(#[trigger] collected_stages(e, s)[i])),
    decreases e,
{
    match e {
        SpecFilterExpr::Filter(f) => {
            lemma_collected_filter(f, s);
        },
        SpecFilterExpr::And(l, r) => {
            let mid = collected_stages(*l, s);
            lemma_collected_stages(*l, s);
            lemma_collected_stages(*r, mid);
            assert(collected_stages(e, s) == collected_stages(*r, mid));
        },
        SpecFilterExpr::Or(l, r) => {
            let mid = collected_stages(*l, s);
            lemma_collected_stages(*l, s);
            lemma_collected_stages(*r, mid);
            assert(collected_stages(e, s) == collected_stages(*r, mid));
        },
        SpecFilterExpr::Not(inner) => {
            lemma_collected_stages(*inner, s);
            assert(collected_stages(e, s) == collected_stages(*inner, s));
        },
    }
}

fn contains_stage(s: &Vec<SearchStage>, stage: SearchStage) -> (r: bool)
    ensures
        r == s@.contains(stage),
{
    let mut i: usize = 0;
    while i < s.len()
        invariant
            i <= s@.len(),
            forall|j: int| 0 <= j < i ==> s@[j] != stage,
        decreases s.len() - i,
    {
        if s[i] == stage {
            assert(s@[i as int] == stage);
            return true;
        }
        i += 1;
    }
    false
}

fn push_stage(stages: &mut Vec<SearchStage>, stage: SearchStage)
    ensures
        final(stages)@ == add_stage(old(stages)@, stage),
{
    if !contains_stage(stages, stage) {
        stages.push(stage);
    }
}

proof fn lemma_add_stage_no_duplicates(s: Seq<SearchStage>, stage: SearchStage)
    requires
        s.no_duplicates(),
    ensures
        add_stage(s, stage).no_duplicates(),
{
    if !s.contains(stage) {
        assert forall|i: int, j: int|
            0 <= i < s.push(stage).len() && 0 <= j < s.push(stage).len() && i != j implies s.push(stage)[i]
            != s.push(stage)[j] by {
            if i == s.len() as int {
                assert(s.push(stage)[j] == s[j]);
            } else if j == s.len() as int {
                assert(s.push(stage)[i] == s[i]);
            }
        }
    }
}

impl SearchPlan {
    /// The stages a filter expression needs, added to `stages`; a list
    /// without repeats stays without repeats.
    fn collect_stages(expr: &FilterExpr, stages: &mut Vec<SearchStage>)
        ensures
            final(stages)@ == collected_stages(expr@, old(stages)@),
            old(stages)@.no_duplicates() ==> final(stages)@.no_duplicates(),
        decreases expr,
    {
        match expr {
            FilterExpr::Filter(filter) => match filter {
                Filter::Attribute { .. } => {
                    proof {
                        if stages@.no_duplicates() {
                            lemma_add_stage_no_duplicates(stages@, SearchStage::Attribute);
                        }
                    }
                    push_stage(stages, SearchStage::Attribute);
                },
                Filter::Tag { .. } => {
                    proof {
                        if stages@.no_duplicates() {
                            lemma_add_stage_no_duplicates(stages@, SearchStage::Tag);
                        }
                    }
                    push_stage(stages, SearchStage::Tag);
                },
                Filter::Relationship { .. } => {
                    proof {
                        if stages@.no_duplicates() {
                            lemma_add_stage_no_duplicates(stages@, SearchStage::Relationship);
                        }
                    }
                    push_stage(stages, SearchStage::Relationship);
                },
                Filter::Source { .. } => {},
                Filter::EntityType { .. } => {},
            },
            FilterExpr::And(left, right) => {
                Self::collect_stages(left, stages);
                Self::collect_stages(right, stages);
            },
            FilterExpr::Or(left, right) => {
                Self::collect_stages(left, stages);
                Self::collect_stages(right, stages);
            },
            FilterExpr::Not(inner) => {
                Self::collect_stages(inner, stages);
            },
        }
    }

    /// The plan for a query: fixed stages per intent; for a filter, the
    /// stages its filters need, each once.
    pub fn from_query(query: &Query) -> (plan: Self)
        ensures
            plan.stages@ == planned_stages(
                query.intent,
                crate::query::view_opt_expr(query.filter),
            ),
            query.intent == QueryIntent::Filter ==> plan.stages@.no_duplicates(),
            query.intent == QueryIntent::Lookup ==> plan.stages@ == seq![
                SearchStage::ExactAlias,
                SearchStage::PrefixAlias,
                SearchStage::FuzzyAlias { distance: 1 },
                SearchStage::Token,
            ],
    {
        proof {
            lemma_fixed_plans(crate::query::view_opt_expr(query.filter));
        }
        let stages = match query.intent {
            QueryIntent::Lookup => vec![
                SearchStage::ExactAlias,
                SearchStage::PrefixAlias,
                SearchStage::FuzzyAlias { distance: 1 },
                SearchStage::Token,
            ],
            QueryIntent::Browse => vec![SearchStage::Tag, SearchStage::Token],
            QueryIntent::Filter => {
                let mut stages: Vec<SearchStage> = Vec::new();
                if let Some(filter) = &query.filter {
                    Self::collect_stages(filter, &mut stages);
                }
                stages
            },
            QueryIntent::Relationship => vec![SearchStage::Relationship, SearchStage::Token],
            QueryIntent::Similar => vec![SearchStage::Tag, SearchStage::Attribute],
            QueryIntent::Tag => vec![SearchStage::Tag],
            QueryIntent::Unknown => vec![SearchStage::Token],
        };
        proof {
            assert(stages@ =~= planned_stages(query.intent, crate::query::view_opt_expr(query.filter)));
        }
        SearchPlan { stages }
    }
}

} // verus!
