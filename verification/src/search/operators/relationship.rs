//! Candidates related to a named target by a named relationship type.
use vstd::prelude::*;

use crate::ids::{EntityID, RelationshipTypeID};
use crate::query::{Filter, SpecFilter};
use crate::entity::{EntityDocument, Relationship, RelationshipType};
use crate::resolver::{has_alias, lemma_ids_where, lemma_ids_where_complete, Criterion, Resolver};
use crate::search::candidate::{with_signals, CandidateSet};
use crate::search::signal::Signal;
use crate::text::spec_normalize;

verus! {

/// The entities a relationship filter selects: those related, by the type
/// registered under the filter's kind, to the first entity that the
/// filter's target names. None where either is unknown, or for any other
/// filter.
pub open spec fn hits(r: Resolver, f: SpecFilter) -> Seq<EntityID> {
    match f {
        SpecFilter::Relationship { kind, target } => {
            let k = spec_normalize(kind);
            let targets = r.matching(Criterion::Alias(spec_normalize(target)));
            if !r.relationship_types.lookup().contains_key(k) || targets.len() == 0 {
                seq![]
            } else {
                r.matching(
                    Criterion::Related(
                        RelationshipTypeID { index: r.relationship_types.lookup()[k] as usize },
                        targets[0],
                    ),
                )
            }
        },
        _ => seq![],
    }
}

/// A relationship filter looks its target up as a name: two targets with one
/// normal form select the same entities. What it selects is related, by the
/// type registered under the filter's kind, to the first entity that has an
/// alias with the target's normal form; and each entity so related is
/// selected.
pub proof fn lemma_relationship_target(r: Resolver, kind: Seq<char>, target: Seq<char>, other: Seq<char>)
    ensures
        spec_normalize(target) == spec_normalize(other) ==> hits(
            r,
            SpecFilter::Relationship { kind, target },
        ) == hits(r, SpecFilter::Relationship { kind, target: other }),
        hits(r, SpecFilter::Relationship { kind, target }).len() > 0 ==> {
            let es = r.entities@;
            let rel = RelationshipType::Custom(
                RelationshipTypeID { index: r.relationship_types.lookup()[spec_normalize(kind)] as usize },
            );
            &&& r.relationship_types.lookup().contains_key(spec_normalize(kind))
            &&& exists|t: int|
                0 <= t < es.len() && #[trigger] has_alias(es[t], spec_normalize(target)) && (forall|u: int|
                    0 <= u < t ==> !has_alias(#[trigger] es[u], spec_normalize(target))) && (forall|j: int|
                    0 <= j < hits(r, SpecFilter::Relationship { kind, target }).len() ==> exists|e: int|
                        0 <= e < es.len() && #[trigger] es[e].id == #[trigger] hits(
                            r,
                            SpecFilter::Relationship { kind, target },
                        )[j] && es[e].relationships@.contains(Relationship { kind: rel, target: es[t].id }))
                    && (forall|e: int|
                    0 <= e < es.len() && (#[trigger] es[e]).relationships@.contains(
                        Relationship { kind: rel, target: es[t].id },
                    ) ==> hits(r, SpecFilter::Relationship { kind, target }).contains(es[e].id))
        },
{
    let f = SpecFilter::Relationship { kind, target };
    let h = hits(r, f);
    if h.len() > 0 {
        let es = r.entities@;
        let k = spec_normalize(kind);
        let alias = Criterion::Alias(spec_normalize(target));
        let pa = |e: EntityDocument| r.meets(e, alias);
        let targets = r.matching(alias);
        lemma_ids_where(es, pa);
        let t = choose|t: int|
            0 <= t < es.len() && pa(#[trigger] es[t]) && es[t].id == targets[0] && forall|u: int|
                0 <= u < t ==> !pa(#[trigger] es[u]);
        let kid = RelationshipTypeID { index: r.relationship_types.lookup()[k] as usize };
        let rel = RelationshipType::Custom(kid);
        let related = Criterion::Related(kid, targets[0]);
        let pr = |e: EntityDocument| r.meets(e, related);
        lemma_ids_where(es, pr);
        lemma_ids_where_complete(es, pr);
        assert(h == r.matching(related));
        assert forall|u: int| 0 <= u < t implies !has_alias(#[trigger] es[u], spec_normalize(target)) by {
            assert(!pa(es[u]));
        }
        assert forall|j: int| 0 <= j < h.len() implies exists|e: int|
            0 <= e < es.len() && #[trigger] es[e].id == #[trigger] h[j] && es[e].relationships@.contains(
                Relationship { kind: rel, target: es[t].id },
            ) by {
            let e = choose|e: int| 0 <= e < es.len() && pr(#[trigger] es[e]) && es[e].id == #[trigger] h[j];
            assert(pr(es[e]));
        }
        assert forall|e: int|
            0 <= e < es.len() && (#[trigger] es[e]).relationships@.contains(
                Relationship { kind: rel, target: es[t].id },
            ) implies h.contains(es[e].id) by {
            assert(pr(es[e]));
        }
        assert(has_alias(es[t], spec_normalize(target)));
    }
}

/// Adds a `Relationship` signal for each entity that a relationship filter
/// selects; any other filter changes nothing.
pub fn execute(resolver: &Resolver, candidates: &mut CandidateSet, filter: &Filter)
    requires
        resolver.wf(),
        old(candidates).wf(),
    ensures
        final(candidates).wf(),
        final(candidates).view() == with_signals(
            old(candidates).view(),
            hits(*resolver, filter@),
            Signal::Relationship,
        ),
{
    if let Filter::Relationship { kind, target } = filter {
        let kind_id = match resolver.relationship_type_id(kind.as_str()) {
            Some(id) => id,
            None => return,
        };
        let targets = resolver.resolve(target.as_str());
        if targets.len() == 0 {
            return;
        }
        let target_id = targets[0];
        let entities = resolver.relationship_lookup(kind_id, target_id);
        candidates.add_signals(&entities, Signal::Relationship);
    }
}

} // verus!
