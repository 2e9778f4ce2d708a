//! Ranking: candidates found by the search stages are merged per entity and
//! scored by the strongest kind of evidence, with a small bonus for each
//! further kind that supports it.
//!
//! Scores are kept in hundredths of a point: a score of 100 is a perfect
//! match, and no score exceeds it.
use vstd::prelude::*;

use crate::ids::EntityID;
use crate::search::result::{same_explanation, SearchExplanation, SearchSource};

verus! {

/// The weight of one kind of evidence, in hundredths.
pub open spec fn weight(source: SearchSource) -> nat {
    match source {
        SearchSource::ExactAlias => 100,
        SearchSource::PrefixAlias => 75,
        SearchSource::FuzzyAlias => 60,
        SearchSource::Token => 40,
        SearchSource::Relationship => 70,
        SearchSource::Tag => 25,
        SearchSource::AttributeKey => 20,
        SearchSource::AttributeValue => 50,
        SearchSource::AttributeKeyValue => 85,
        SearchSource::Source => 45,
    }
}

/// The largest weight among `sources`; 0 for none.
pub open spec fn strongest(sources: Seq<SearchSource>) -> nat
    decreases sources.len(),
{
    if sources.len() == 0 {
        0
    } else {
        let rest = strongest(sources.drop_last());
        if weight(sources.last()) > rest {
            weight(sources.last())
        } else {
            rest
        }
    }
}

/// The score of a hit with the given kinds of evidence: the strongest
/// weight, plus 3 for each further kind, at most 100.
pub open spec fn score_of(sources: Seq<SearchSource>) -> nat {
    let supporting: nat = if sources.len() == 0 {
        0
    } else {
        (3 * (sources.len() - 1)) as nat
    };
    if strongest(sources) + supporting > 100 {
        100
    } else {
        strongest(sources) + supporting
    }
}

/// More evidence never lowers a score, and no score exceeds a perfect match.
pub proof fn lemma_more_evidence_never_lowers_score(sources: Seq<SearchSource>, extra: SearchSource)
    ensures
        score_of(sources) <= score_of(sources.push(extra)),
        score_of(sources.push(extra)) <= 100,
{
    assert(sources.push(extra).drop_last() =~= sources);
}

/// The strongest weight is the largest: no kind of evidence in `sources`
/// weighs more, and, unless there is none, one of them weighs exactly that.
pub proof fn lemma_strongest_is_largest(sources: Seq<SearchSource>)
    ensures
        forall|i: int| 0 <= i < sources.len() ==> weight(#[trigger] sources[i]) <= strongest(sources),
        sources.len() == 0 ==> strongest(sources) == 0,
        sources.len() > 0 ==> exists|i: int| 0 <= i < sources.len() && weight(#[trigger] sources[i]) == strongest(sources),
    decreases sources.len(),
{
    if sources.len() > 0 {
        let init = sources.drop_last();
        lemma_strongest_is_largest(init);
        assert forall|i: int| 0 <= i < sources.len() implies weight(#[trigger] sources[i]) <= strongest(sources) by {
            if i < init.len() {
                assert(init[i] == sources[i]);
            }
        }
        if weight(sources.last()) <= strongest(init) && init.len() > 0 {
            let i = choose|i: int| 0 <= i < init.len() && weight(#[trigger] init[i]) == strongest(init);
            assert(init[i] == sources[i]);
        }
    }
}

/// A hit scores at least the weight of each kind of evidence it has, never
/// more than a perfect match, and its score does not depend on the order in
/// which the evidence was found: two lists of the same length that hold the
/// same kinds score the same.
pub proof fn lemma_score_of_evidence(sources: Seq<SearchSource>, other: Seq<SearchSource>)
    requires
        other.len() == sources.len(),
        forall|s: SearchSource| sources.contains(s) <==> other.contains(s),
    ensures
        forall|i: int| 0 <= i < sources.len() ==> weight(#[trigger] sources[i]) <= score_of(sources),
        score_of(sources) <= 100,
        score_of(sources) == score_of(other),
{
    lemma_strongest_is_largest(sources);
    lemma_strongest_is_largest(other);
    assert forall|i: int| 0 <= i < sources.len() implies weight(#[trigger] sources[i]) <= score_of(sources) by {
        assert(weight(sources[i]) <= 100);
    }
    if sources.len() > 0 {
        let i = choose|i: int| 0 <= i < sources.len() && weight(#[trigger] sources[i]) == strongest(sources);
        assert(sources.contains(sources[i]));
        let j = choose|j: int| 0 <= j < other.len() && weight(#[trigger] other[j]) == strongest(other);
        assert(other.contains(other[j]));
        let a = choose|a: int| 0 <= a < other.len() && other[a] == sources[i];
        let b = choose|b: int| 0 <= b < sources.len() && sources[b] == other[j];
        assert(weight(other[a]) <= strongest(other));
        assert(weight(sources[b]) <= strongest(sources));
    }
}

/// Some candidate names entity `id` with kind of evidence `s`.
pub open spec fn has_source(
    cands: Seq<(EntityID, SearchSource, SearchExplanation)>,
    n: int,
    id: EntityID,
    s: SearchSource,
) -> bool {
    exists|i: int| 0 <= i < n && #[trigger] cands[i].0 == id && cands[i].1 == s
}

/// Some candidate names entity `id` with an explanation that says what `e` says.
pub open spec fn has_explanation(
    cands: Seq<(EntityID, SearchSource, SearchExplanation)>,
    n: int,
    id: EntityID,
    e: SearchExplanation,
) -> bool {
    exists|i: int| 0 <= i < n && #[trigger] cands[i].0 == id && same_explanation(cands[i].2, e)
}

/// Some candidate names entity `id`.
pub open spec fn names(cands: Seq<(EntityID, SearchSource, SearchExplanation)>, n: int, id: EntityID) -> bool {
    exists|i: int| 0 <= i < n && #[trigger] cands[i].0 == id
}

/// One entity of a ranking: its score in hundredths, the kinds of evidence
/// found for it and the explanations, each kind and each explanation once.
#[derive(Debug, Clone)]
pub struct RankedHit {
    pub entity_id: EntityID,
    pub score: u32,
    pub sources: Vec<SearchSource>,
    pub explanations: Vec<SearchExplanation>,
}

/// The hits gather exactly the evidence of the first `n` candidates, one hit
/// per entity named.
pub open spec fn gathers(
    hits: Seq<RankedHit>,
    cands: Seq<(EntityID, SearchSource, SearchExplanation)>,
    n: int,
) -> bool {
    &&& forall|i: int, j: int|
        0 <= i < j < hits.len() ==> #[trigger] hits[i].entity_id != #[trigger] hits[j].entity_id
    &&& forall|id: EntityID|
        (exists|i: int| 0 <= i < hits.len() && #[trigger] hits[i].entity_id == id) <==> names(
            cands,
            n,
            id,
        )
    &&& forall|i: int, s: SearchSource|
        0 <= i < hits.len() ==> (#[trigger] hits[i].sources@.contains(s) <==> has_source(
            cands,
            n,
            hits[i].entity_id,
            s,
        ))
    &&& forall|i: int| 0 <= i < hits.len() ==> (#[trigger] hits[i].sources@).no_duplicates()
    &&& forall|i: int, e: SearchExplanation|
        0 <= i < hits.len() ==> ((exists|j: int|
            0 <= j < hits[i].explanations@.len() && same_explanation(
                #[trigger] hits[i].explanations@[j],
                e,
            )) <==> #[trigger] has_explanation(cands, n, hits[i].entity_id, e))
    &&& forall|i: int, j: int, k: int|
        0 <= i < hits.len() && 0 <= j < k < hits[i].explanations@.len() ==> !same_explanation(
            #[trigger] hits[i].explanations@[j],
            #[trigger] hits[i].explanations@[k],
        )
}

/// `same_explanation` is an equivalence.
proof fn lemma_same_explanation_equivalence(a: SearchExplanation, b: SearchExplanation, c: SearchExplanation)
    ensures
        same_explanation(a, a),
        same_explanation(a, b) ==> same_explanation(b, a),
        same_explanation(a, b) && same_explanation(b, c) ==> same_explanation(a, c),
{
}

/// Merges candidates into hits and orders them by score.
#[derive(Debug, Clone, Copy)]
pub struct Ranker;

impl Ranker {
    pub fn new() -> (r: Self)
        ensures
            r == Ranker,
    {
        Ranker
    }

    /// The weight of one kind of evidence, in hundredths.
    pub fn weight(source: SearchSource) -> (r: u32)
        ensures
            r == weight(source),
    {
        match source {
            SearchSource::ExactAlias => 100,
            SearchSource::PrefixAlias => 75,
            SearchSource::FuzzyAlias => 60,
            SearchSource::Token => 40,
            SearchSource::Relationship => 70,
            SearchSource::Tag => 25,
            SearchSource::AttributeKey => 20,
            SearchSource::AttributeValue => 50,
            SearchSource::AttributeKeyValue => 85,
            SearchSource::Source => 45,
        }
    }

    /// The score of a hit with the given kinds of evidence, in hundredths.
    pub fn calculate_score(sources: &Vec<SearchSource>) -> (r: u32)
        ensures
            r == score_of(sources@),
            r <= 100,
            forall|i: int| 0 <= i < sources@.len() ==> weight(#[trigger] sources@[i]) <= r,
    {
        proof {
            lemma_score_of_evidence(sources@, sources@);
        }
        let mut best: u32 = 0;
        let mut i: usize = 0;
        while i < sources.len()
            invariant
                i <= sources@.len(),
                best == strongest(sources@.take(i as int)),
                best <= 100,
            decreases sources.len() - i,
        {
            assert(sources@.take(i + 1).drop_last() =~= sources@.take(i as int));
            let w = Self::weight(sources[i]);
            if w > best {
                best = w;
            }
            i += 1;
        }
        assert(sources@.take(sources.len() as int) =~= sources@);
        let n = sources.len();
        if n == 0 {
            return best;
        }
        if n - 1 >= 34 {
            return 100;
        }
        let supporting = 3 * ((n - 1) as u32);
        if best + supporting > 100 {
            100
        } else {
            best + supporting
        }
    }

    /// Merges the candidates per entity (each kind of evidence and each
    /// explanation once) and orders the hits by score, highest first.
    pub fn rank(&self, candidates: Vec<(EntityID, SearchSource, SearchExplanation)>) -> (r: Vec<
        RankedHit,
    >)
        ensures
            gathers(r@, candidates@, candidates@.len() as int),
            forall|i: int| 0 <= i < r@.len() ==> #[trigger] r@[i].score == score_of(r@[i].sources@),
            forall|i: int, j: int| 0 <= i < j < r@.len() ==> #[trigger] r@[i].score >= #[trigger] r@[j].score,
    {
        let ghost cands = candidates@;
        let hits = Self::merge(candidates);
        let r = Self::order(hits);
        proof {
            let taken = choose|taken: Seq<int>| #[trigger] is_permutation(taken, hits@.len() as int) && forall|i: int|
                0 <= i < r@.len() ==> #[trigger] r@[i] == with_score(hits@[taken[i]], r@[i].score);
            lemma_gathers_permuted(hits@, r@, taken, cands, cands.len() as int);
        }
        r
    }

    /// One hit per entity, in order of first appearance, gathering its evidence.
    fn merge(candidates: Vec<(EntityID, SearchSource, SearchExplanation)>) -> (hits: Vec<RankedHit>)
        ensures
            gathers(hits@, candidates@, candidates@.len() as int),
    {
        let ghost cands = candidates@;
        let n = candidates.len();
        let mut rest = candidates;
        let mut hits: Vec<RankedHit> = Vec::new();
        let mut k: usize = 0;
        while k < n
            invariant
                n == cands.len(),
                k <= n,
                rest@ == cands.skip(k as int),
                gathers(hits@, cands, k as int),
            decreases n - k,
        {
            let (id, source, explanation) = rest.remove(0);
            assert(cands[k as int] == (id, source, explanation)) by {
                assert(cands.skip(k as int)[0] == cands[k as int]);
            }
            let ghost old_hits = hits@;
            let mut pos: usize = 0;
            while pos < hits.len() && hits[pos].entity_id.index != id.index
                invariant
                    pos <= hits@.len(),
                    forall|j: int| 0 <= j < pos ==> #[trigger] hits@[j].entity_id != id,
                decreases hits.len() - pos,
            {
                pos += 1;
            }
            if pos == hits.len() {
                let mut sources: Vec<SearchSource> = Vec::new();
                sources.push(source);
                let mut explanations: Vec<SearchExplanation> = Vec::new();
                explanations.push(explanation);
                hits.push(RankedHit { entity_id: id, score: 0, sources, explanations });
                proof {
                    self::lemma_gathers_new(old_hits, hits@, cands, k as int);
                }
            } else {
                let mut h = hits.remove(pos);
                assert(h == old_hits[pos as int]);
                let ghost old_h = h;
                let mut has_source = false;
                let mut j: usize = 0;
                while j < h.sources.len()
                    invariant
                        j <= h.sources@.len(),
                        has_source <==> exists|m: int| 0 <= m < j && #[trigger] h.sources@[m] == source,
                    decreases h.sources.len() - j,
                {
                    if h.sources[j] == source {
                        has_source = true;
                    }
                    j += 1;
                }
                if !has_source {
                    h.sources.push(source);
                }
                let mut has_explanation = false;
                let mut j: usize = 0;
                while j < h.explanations.len()
                    invariant
                        j <= h.explanations@.len(),
                        has_explanation <==> exists|m: int|
                            0 <= m < j && same_explanation(#[trigger] h.explanations@[m], explanation),
                    decreases h.explanations.len() - j,
                {
                    if h.explanations[j].same_as(&explanation) {
                        has_explanation = true;
                    }
                    j += 1;
                }
                if !has_explanation {
                    h.explanations.push(explanation);
                }
                hits.insert(pos, h);
                proof {
                    assert(hits@ =~= old_hits.update(pos as int, h));
                    self::lemma_gathers_extend(old_hits, pos as int, old_h, h, cands, k as int);
                }
            }
            k += 1;
        }
        hits
    }

    /// The hits ordered by score, highest first; equal scores keep their order.
    fn order(hits: Vec<RankedHit>) -> (r: Vec<RankedHit>)
        ensures
            forall|i: int| 0 <= i < r@.len() ==> #[trigger] r@[i].score == score_of(r@[i].sources@),
            forall|i: int, j: int| 0 <= i < j < r@.len() ==> #[trigger] r@[i].score >= #[trigger] r@[j].score,
            r@.len() == hits@.len(),
            exists|taken: Seq<int>| #[trigger] is_permutation(taken, hits@.len() as int) && forall|i: int|
                0 <= i < r@.len() ==> #[trigger] r@[i] == with_score(hits@[taken[i]], r@[i].score),
    {
        let ghost merged = hits@;
        let n = hits.len();
        let mut scores: Vec<u32> = Vec::new();
        let mut i: usize = 0;
        while i < n
            invariant
                n == merged.len(),
                hits@ == merged,
                i <= n,
                scores@.len() == i,
                forall|m: int| 0 <= m < i ==> #[trigger] scores@[m] == score_of(merged[m].sources@),
                forall|m: int| 0 <= m < i ==> #[trigger] scores@[m] <= 100,
            decreases n - i,
        {
            scores.push(Self::calculate_score(&hits[i].sources));
            i += 1;
        }
        let mut slots: Vec<Option<RankedHit>> = Vec::new();
        let mut rest = hits;
        while slots.len() < n
            invariant
                n == merged.len(),
                slots@.len() <= n,
                rest@ == merged.skip(slots@.len() as int),
                forall|m: int| 0 <= m < slots@.len() ==> #[trigger] slots@[m] == Some(merged[m]),
            decreases n - slots@.len(),
        {
            let ghost m = slots@.len() as int;
            let h = rest.remove(0);
            assert(merged.skip(m)[0] == merged[m]);
            slots.push(Some(h));
            assert(rest@ =~= merged.skip(m + 1));
        }
        let mut out: Vec<RankedHit> = Vec::new();
        let ghost mut taken: Seq<int> = Seq::empty();
        let mut bound: u32 = 101;
        while bound > 0
            invariant
                n == merged.len(),
                slots@.len() == n,
                scores@.len() == n,
                bound <= 101,
                forall|m: int| 0 <= m < n ==> #[trigger] scores@[m] == score_of(merged[m].sources@),
                forall|m: int| 0 <= m < n ==> #[trigger] scores@[m] <= 100,
                out@.len() == taken.len(),
                forall|i: int| 0 <= i < taken.len() ==> 0 <= #[trigger] taken[i] < n,
                taken.no_duplicates(),
                forall|m: int| 0 <= m < n ==> (#[trigger] slots@[m] is None <==> taken.contains(m)),
                forall|m: int| 0 <= m < n && slots@[m] is Some ==> #[trigger] slots@[m] == Some(merged[m]),
                forall|m: int| 0 <= m < n && slots@[m] is Some ==> #[trigger] scores@[m] < bound,
                forall|i: int| 0 <= i < out@.len() ==> #[trigger] out@[i] == with_score(
                    merged[taken[i]],
                    scores@[taken[i]],
                ),
                forall|i: int| 0 <= i < out@.len() ==> #[trigger] out@[i].score >= bound,
                forall|i: int, j: int| 0 <= i < j < out@.len() ==> #[trigger] out@[i].score >= #[trigger] out@[j].score,
            decreases bound,
        {
            let s = bound - 1;
            let mut k: usize = 0;
            while k < n
                invariant
                    n == merged.len(),
                    slots@.len() == n,
                    scores@.len() == n,
                    s + 1 == bound <= 101,
                    k <= n,
                    forall|m: int| 0 <= m < n ==> #[trigger] scores@[m] == score_of(merged[m].sources@),
                    out@.len() == taken.len(),
                    forall|i: int| 0 <= i < taken.len() ==> 0 <= #[trigger] taken[i] < n,
                    taken.no_duplicates(),
                    forall|m: int| 0 <= m < n ==> (#[trigger] slots@[m] is None <==> taken.contains(m)),
                    forall|m: int| 0 <= m < n && slots@[m] is Some ==> #[trigger] slots@[m] == Some(merged[m]),
                    forall|m: int| 0 <= m < k && slots@[m] is Some ==> #[trigger] scores@[m] < s,
                    forall|m: int| k <= m < n && slots@[m] is Some ==> #[trigger] scores@[m] < bound,
                    forall|i: int| 0 <= i < out@.len() ==> #[trigger] out@[i] == with_score(
                        merged[taken[i]],
                        scores@[taken[i]],
                    ),
                    forall|i: int| 0 <= i < out@.len() ==> #[trigger] out@[i].score >= s,
                    forall|i: int, j: int| 0 <= i < j < out@.len() ==> #[trigger] out@[i].score >= #[trigger] out@[j].score,
                decreases n - k,
            {
                let ghost old_slots = slots@;
                let ghost old_taken = taken;
                let take_it = scores[k] == s && slots[k].is_some();
                if take_it {
                    let taken_slot = slots[k].take();
                    assert(slots@ =~= old_slots.update(k as int, None));
                    let mut h = taken_slot.unwrap();
                    h.score = scores[k];
                    proof {
                        assert(!old_taken.contains(k as int));
                        taken = old_taken.push(k as int);
                        assert(taken[taken.len() - 1] == k as int);
                        assert forall|a: int, b: int| 0 <= a < b < taken.len() implies taken[a] != taken[b] by {
                            if b == taken.len() - 1 {
                                assert(old_taken[a] == taken[a]);
                                if taken[a] == k as int {
                                    assert(old_taken.contains(k as int));
                                }
                            } else {
                                assert(old_taken[a] == taken[a] && old_taken[b] == taken[b]);
                            }
                        }
                    }
                    out.push(h);
                    proof {
                        assert forall|m: int| 0 <= m < n implies (#[trigger] slots@[m] is None
                            <==> taken.contains(m)) by {
                            if m == k as int {
                                assert(taken[taken.len() - 1] == m);
                            } else {
                                assert(slots@[m] == old_slots[m]);
                                assert(old_slots[m] is None <==> old_taken.contains(m));
                                if taken.contains(m) {
                                    let w = choose|w: int| 0 <= w < taken.len() && taken[w] == m;
                                    assert(w < taken.len() - 1);
                                    assert(old_taken[w] == m);
                                }
                                if old_taken.contains(m) {
                                    let w = choose|w: int| 0 <= w < old_taken.len() && old_taken[w] == m;
                                    assert(taken[w] == m);
                                }
                            }
                        }
                    }
                }
                proof {
                    assert forall|m: int| 0 <= m < k + 1 && slots@[m] is Some implies #[trigger] scores@[m] < s by {
                        if take_it {
                            assert(slots@ == old_slots.update(k as int, None));
                        } else {
                            assert(slots@ == old_slots);
                        }
                        assert(old_slots[m] is Some);
                        if m == k as int {
                            assert(scores@[m] < bound);
                            assert(!take_it);
                        }
                    }
                }
                k += 1;
            }
            bound = s;
        }
        proof {
            assert forall|m: int| 0 <= m < n implies #[trigger] taken.contains(m) by {
                if slots@[m] is Some {
                    assert(scores@[m] < bound);
                }
            }
            lemma_permutation(taken, n as int);
        }
        out
    }
}

proof fn lemma_gathers_permuted(
    hits: Seq<RankedHit>,
    out: Seq<RankedHit>,
    taken: Seq<int>,
    cands: Seq<(EntityID, SearchSource, SearchExplanation)>,
    n: int,
)
    requires
        gathers(hits, cands, n),
        is_permutation(taken, hits.len() as int),
        out.len() == hits.len(),
        forall|i: int| 0 <= i < out.len() ==> #[trigger] out[i] == with_score(hits[taken[i]], out[i].score),
    ensures
        gathers(out, cands, n),
{
    assert forall|i: int, j: int| 0 <= i < j < out.len() implies #[trigger] out[i].entity_id != #[trigger] out[j].entity_id by {
        let a = taken[i];
        let b = taken[j];
        assert(a != b);
        assert(out[i].entity_id == hits[a].entity_id);
        assert(out[j].entity_id == hits[b].entity_id);
        if a < b {
            assert(hits[a].entity_id != hits[b].entity_id);
        } else {
            assert(hits[b].entity_id != hits[a].entity_id);
        }
    }
    assert forall|x: EntityID|
        (exists|i: int| 0 <= i < out.len() && #[trigger] out[i].entity_id == x) <==> #[trigger] names(cands, n, x) by {
        if exists|i: int| 0 <= i < out.len() && #[trigger] out[i].entity_id == x {
            let i = choose|i: int| 0 <= i < out.len() && #[trigger] out[i].entity_id == x;
            assert(hits[taken[i]].entity_id == x);
        }
        if names(cands, n, x) {
            let m = choose|m: int| 0 <= m < hits.len() && #[trigger] hits[m].entity_id == x;
            assert(taken.contains(m));
            let i = choose|i: int| 0 <= i < taken.len() && taken[i] == m;
            assert(out[i].entity_id == x);
        }
    }
    assert forall|i: int, s: SearchSource| 0 <= i < out.len() implies (#[trigger] out[i].sources@.contains(s)
        <==> has_source(cands, n, out[i].entity_id, s)) by {
        assert(hits[taken[i]].sources@.contains(s) <==> has_source(cands, n, hits[taken[i]].entity_id, s));
    }
    assert forall|i: int| 0 <= i < out.len() implies (#[trigger] out[i].sources@).no_duplicates() by {
        assert(hits[taken[i]].sources@.no_duplicates());
    }
    assert forall|i: int, e: SearchExplanation| 0 <= i < out.len() implies ((exists|j: int|
        0 <= j < out[i].explanations@.len() && same_explanation(#[trigger] out[i].explanations@[j], e))
        <==> #[trigger] has_explanation(cands, n, out[i].entity_id, e)) by {
        let h = hits[taken[i]];
        assert(out[i].explanations@ == h.explanations@);
        assert(out[i].entity_id == h.entity_id);
        assert((exists|j: int| 0 <= j < h.explanations@.len() && same_explanation(#[trigger] h.explanations@[j], e))
            <==> has_explanation(cands, n, h.entity_id, e));
        if exists|j: int| 0 <= j < out[i].explanations@.len() && same_explanation(#[trigger] out[i].explanations@[j], e) {
            let j = choose|j: int| 0 <= j < out[i].explanations@.len() && same_explanation(#[trigger] out[i].explanations@[j], e);
            assert(same_explanation(h.explanations@[j], e));
        }
        if has_explanation(cands, n, h.entity_id, e) {
            let j = choose|j: int| 0 <= j < h.explanations@.len() && same_explanation(#[trigger] h.explanations@[j], e);
            assert(same_explanation(out[i].explanations@[j], e));
        }
    }
    assert forall|i: int, j: int, m: int|
        0 <= i < out.len() && 0 <= j < m < out[i].explanations@.len() implies !same_explanation(
            #[trigger] out[i].explanations@[j],
            #[trigger] out[i].explanations@[m],
        ) by {
        let h = hits[taken[i]];
        assert(!same_explanation(h.explanations@[j], h.explanations@[m]));
    }
}

impl Default for Ranker {
    fn default() -> (r: Self)
        ensures
            r == Ranker,
    {
        Ranker
    }
}

/// A hit with its score set.
pub open spec fn with_score(h: RankedHit, score: u32) -> RankedHit {
    RankedHit { score, ..h }
}

/// `taken` lists each of `0..n` exactly once.
pub open spec fn is_permutation(taken: Seq<int>, n: int) -> bool {
    &&& taken.len() == n
    &&& taken.no_duplicates()
    &&& forall|i: int| 0 <= i < n ==> 0 <= #[trigger] taken[i] < n
    &&& forall|m: int| 0 <= m < n ==> #[trigger] taken.contains(m)
}

proof fn lemma_permutation(taken: Seq<int>, n: int)
    requires
        0 <= n,
        taken.no_duplicates(),
        forall|i: int| 0 <= i < taken.len() ==> 0 <= #[trigger] taken[i] < n,
        forall|m: int| 0 <= m < n ==> #[trigger] taken.contains(m),
    ensures
        is_permutation(taken, n),
{
    let s = taken.to_set();
    taken.unique_seq_to_set();
    assert(s =~= Set::new(|m: int| 0 <= m < n));
    vstd::set_lib::lemma_int_range(0, n);
    assert(Set::new(|m: int| 0 <= m < n) =~= vstd::set_lib::set_int_range(0, n));
}

proof fn lemma_gathers_new(
    old_hits: Seq<RankedHit>,
    hits: Seq<RankedHit>,
    cands: Seq<(EntityID, SearchSource, SearchExplanation)>,
    k: int,
)
    requires
        0 <= k < cands.len(),
        gathers(old_hits, cands, k),
        forall|j: int| 0 <= j < old_hits.len() ==> #[trigger] old_hits[j].entity_id != cands[k].0,
        hits.len() == old_hits.len() + 1,
        forall|j: int| 0 <= j < old_hits.len() ==> #[trigger] hits[j] == old_hits[j],
        hits.last().entity_id == cands[k].0,
        hits.last().sources@ == seq![cands[k].1],
        hits.last().explanations@ == seq![cands[k].2],
    ensures
        gathers(hits, cands, k + 1),
{
    let (id, src, ex) = cands[k];
    let last = hits.len() - 1;
    assert forall|x: EntityID|
        (exists|i: int| 0 <= i < hits.len() && #[trigger] hits[i].entity_id == x) <== #[trigger] names(cands, k + 1, x) by {
        if names(cands, k + 1, x) {
            let w = choose|w: int| 0 <= w < k + 1 && #[trigger] cands[w].0 == x;
            if w < k {
                assert(names(cands, k, x));
                let i = choose|i: int| 0 <= i < old_hits.len() && #[trigger] old_hits[i].entity_id == x;
                assert(hits[i].entity_id == x);
            } else {
                assert(hits[last].entity_id == x);
            }
        }
    }
    assert forall|x: EntityID|
        (exists|i: int| 0 <= i < hits.len() && #[trigger] hits[i].entity_id == x) ==> #[trigger] names(cands, k + 1, x) by {
        if exists|i: int| 0 <= i < hits.len() && #[trigger] hits[i].entity_id == x {
            let i = choose|i: int| 0 <= i < hits.len() && #[trigger] hits[i].entity_id == x;
            if i < last {
                assert(old_hits[i].entity_id == x);
                assert(names(cands, k, x));
                let w = choose|w: int| 0 <= w < k && #[trigger] cands[w].0 == x;
                assert(cands[w].0 == x);
            } else {
                assert(cands[k].0 == x);
            }
        }
    }
    assert forall|i: int, s: SearchSource| 0 <= i < hits.len() implies (#[trigger] hits[i].sources@.contains(s)
        <==> has_source(cands, k + 1, hits[i].entity_id, s)) by {
        if i < last {
            assert(old_hits[i].sources@.contains(s) <==> has_source(cands, k, old_hits[i].entity_id, s));
            if has_source(cands, k + 1, hits[i].entity_id, s) {
                let w = choose|w: int| 0 <= w < k + 1 && #[trigger] cands[w].0 == hits[i].entity_id && cands[w].1 == s;
                assert(w != k);
                assert(has_source(cands, k, old_hits[i].entity_id, s));
            }
            if has_source(cands, k, old_hits[i].entity_id, s) {
                let w = choose|w: int| 0 <= w < k && #[trigger] cands[w].0 == old_hits[i].entity_id && cands[w].1 == s;
                assert(cands[w].0 == hits[i].entity_id);
            }
        } else {
            if has_source(cands, k + 1, id, s) {
                let w = choose|w: int| 0 <= w < k + 1 && #[trigger] cands[w].0 == id && cands[w].1 == s;
                if w < k {
                    assert(names(cands, k, id));
                    assert(false);
                }
                assert(hits[i].sources@[0] == s);
            }
            if hits[i].sources@.contains(s) {
                assert(hits[i].sources@[0] == s);
                assert(cands[k].0 == id && cands[k].1 == s);
            }
        }
    }
    assert forall|i: int, e: SearchExplanation| 0 <= i < hits.len() implies ((exists|j: int|
        0 <= j < hits[i].explanations@.len() && same_explanation(#[trigger] hits[i].explanations@[j], e))
        <==> #[trigger] has_explanation(cands, k + 1, hits[i].entity_id, e)) by {
        if i < last {
            assert(hits[i] == old_hits[i]);
            assert((exists|j: int|
                0 <= j < old_hits[i].explanations@.len() && same_explanation(#[trigger] old_hits[i].explanations@[j], e))
                <==> has_explanation(cands, k, old_hits[i].entity_id, e));
            if has_explanation(cands, k + 1, hits[i].entity_id, e) {
                let w = choose|w: int| 0 <= w < k + 1 && #[trigger] cands[w].0 == hits[i].entity_id && same_explanation(cands[w].2, e);
                assert(w != k);
                assert(has_explanation(cands, k, old_hits[i].entity_id, e));
            }
            if has_explanation(cands, k, old_hits[i].entity_id, e) {
                let w = choose|w: int| 0 <= w < k && #[trigger] cands[w].0 == old_hits[i].entity_id && same_explanation(cands[w].2, e);
                assert(cands[w].0 == hits[i].entity_id);
            }
        } else {
            if has_explanation(cands, k + 1, id, e) {
                let w = choose|w: int| 0 <= w < k + 1 && #[trigger] cands[w].0 == id && same_explanation(cands[w].2, e);
                if w < k {
                    assert(names(cands, k, id));
                    assert(false);
                }
                assert(hits[i].explanations@[0] == ex);
            }
            if exists|j: int| 0 <= j < hits[i].explanations@.len() && same_explanation(#[trigger] hits[i].explanations@[j], e) {
                let j = choose|j: int| 0 <= j < hits[i].explanations@.len() && same_explanation(#[trigger] hits[i].explanations@[j], e);
                assert(j == 0);
                assert(cands[k].0 == id && same_explanation(cands[k].2, e));
            }
        }
    }
    assert forall|i: int, j: int| 0 <= i < j < hits.len() implies #[trigger] hits[i].entity_id != #[trigger] hits[j].entity_id by {
        if j == last {
            assert(old_hits[i].entity_id != cands[k].0);
        } else {
            assert(old_hits[i].entity_id != old_hits[j].entity_id);
        }
    }
    assert forall|i: int| 0 <= i < hits.len() implies (#[trigger] hits[i].sources@).no_duplicates() by {
        if i < last {
            assert(old_hits[i].sources@.no_duplicates());
        }
    }
    assert forall|i: int, j: int, m: int|
        0 <= i < hits.len() && 0 <= j < m < hits[i].explanations@.len() implies !same_explanation(
            #[trigger] hits[i].explanations@[j],
            #[trigger] hits[i].explanations@[m],
        ) by {
        if i < last {
            assert(hits[i] == old_hits[i]);
        }
    }
}

proof fn lemma_gathers_extend(
    old_hits: Seq<RankedHit>,
    pos: int,
    old_h: RankedHit,
    h: RankedHit,
    cands: Seq<(EntityID, SearchSource, SearchExplanation)>,
    k: int,
)
    requires
        0 <= k < cands.len(),
        0 <= pos < old_hits.len(),
        gathers(old_hits, cands, k),
        old_hits[pos] == old_h,
        old_h.entity_id == cands[k].0,
        h.entity_id == old_h.entity_id,
        h.sources@ == (if old_h.sources@.contains(cands[k].1) {
            old_h.sources@
        } else {
            old_h.sources@.push(cands[k].1)
        }),
        h.explanations@ == (if exists|m: int|
            0 <= m < old_h.explanations@.len() && same_explanation(
                #[trigger] old_h.explanations@[m],
                cands[k].2,
            ) {
            old_h.explanations@
        } else {
            old_h.explanations@.push(cands[k].2)
        }),
    ensures
        gathers(old_hits.update(pos, h), cands, k + 1),
{
    let hits = old_hits.update(pos, h);
    let (id, src, ex) = cands[k];
    assert forall|x: EntityID|
        (exists|i: int| 0 <= i < hits.len() && #[trigger] hits[i].entity_id == x) <== #[trigger] names(cands, k + 1, x) by {
        if names(cands, k + 1, x) {
            let w = choose|w: int| 0 <= w < k + 1 && #[trigger] cands[w].0 == x;
            if w < k {
                assert(names(cands, k, x));
                let i = choose|i: int| 0 <= i < old_hits.len() && #[trigger] old_hits[i].entity_id == x;
                assert(hits[i].entity_id == x);
            } else {
                assert(hits[pos].entity_id == x);
            }
        }
    }
    assert forall|x: EntityID|
        (exists|i: int| 0 <= i < hits.len() && #[trigger] hits[i].entity_id == x) ==> #[trigger] names(cands, k + 1, x) by {
        if exists|i: int| 0 <= i < hits.len() && #[trigger] hits[i].entity_id == x {
            let i = choose|i: int| 0 <= i < hits.len() && #[trigger] hits[i].entity_id == x;
            assert(old_hits[i].entity_id == x);
            assert(names(cands, k, x));
            let w = choose|w: int| 0 <= w < k && #[trigger] cands[w].0 == x;
            assert(cands[w].0 == x);
        }
    }
    assert forall|i: int, s: SearchSource| 0 <= i < hits.len() implies (#[trigger] hits[i].sources@.contains(s)
        <==> has_source(cands, k + 1, hits[i].entity_id, s)) by {
        assert(old_hits[i].sources@.contains(s) <==> has_source(cands, k, old_hits[i].entity_id, s));
        if has_source(cands, k + 1, hits[i].entity_id, s) {
            let w = choose|w: int| 0 <= w < k + 1 && #[trigger] cands[w].0 == hits[i].entity_id && cands[w].1 == s;
            if w < k {
                assert(cands[w].0 == old_hits[i].entity_id);
                assert(has_source(cands, k, old_hits[i].entity_id, s));
                if i == pos && !old_h.sources@.contains(src) {
                    assert(h.sources@[old_h.sources@.len() as int - 0] == src);
                    assert(old_h.sources@.push(src)[old_h.sources@.index_of(s)] == s);
                }
            } else {
                if i != pos {
                    assert(old_hits[i].entity_id != old_hits[pos].entity_id);
                }
                if !old_h.sources@.contains(src) {
                    assert(h.sources@[old_h.sources@.len() as int] == src);
                }
            }
        }
        if hits[i].sources@.contains(s) {
            if i == pos && !old_h.sources@.contains(s) {
                let j = choose|j: int| 0 <= j < h.sources@.len() && h.sources@[j] == s;
                if j < old_h.sources@.len() {
                    assert(old_h.sources@[j] == s);
                }
                assert(cands[k].0 == hits[i].entity_id && cands[k].1 == s);
            } else if i == pos {
                let w = choose|w: int| 0 <= w < k && #[trigger] cands[w].0 == old_hits[i].entity_id && cands[w].1 == s;
                assert(cands[w].0 == hits[i].entity_id);
            } else {
                let w = choose|w: int| 0 <= w < k && #[trigger] cands[w].0 == old_hits[i].entity_id && cands[w].1 == s;
                assert(cands[w].0 == hits[i].entity_id);
            }
        }
    }
    assert forall|i: int, e: SearchExplanation| 0 <= i < hits.len() implies ((exists|j: int|
        0 <= j < hits[i].explanations@.len() && same_explanation(#[trigger] hits[i].explanations@[j], e))
        <==> #[trigger] has_explanation(cands, k + 1, hits[i].entity_id, e)) by {
        assert((exists|j: int|
            0 <= j < old_hits[i].explanations@.len() && same_explanation(#[trigger] old_hits[i].explanations@[j], e))
            <==> has_explanation(cands, k, old_hits[i].entity_id, e));
        if has_explanation(cands, k + 1, hits[i].entity_id, e) {
            let w = choose|w: int| 0 <= w < k + 1 && #[trigger] cands[w].0 == hits[i].entity_id && same_explanation(cands[w].2, e);
            if w < k {
                assert(cands[w].0 == old_hits[i].entity_id);
                assert(has_explanation(cands, k, old_hits[i].entity_id, e));
                let j = choose|j: int| 0 <= j < old_hits[i].explanations@.len() && same_explanation(#[trigger] old_hits[i].explanations@[j], e);
                assert(hits[i].explanations@[j] == old_hits[i].explanations@[j]);
            } else {
                if i != pos {
                    assert(old_hits[i].entity_id != old_hits[pos].entity_id);
                }
                if exists|m: int| 0 <= m < old_h.explanations@.len() && same_explanation(#[trigger] old_h.explanations@[m], ex) {
                    let m = choose|m: int| 0 <= m < old_h.explanations@.len() && same_explanation(#[trigger] old_h.explanations@[m], ex);
                    lemma_same_explanation_equivalence(old_h.explanations@[m], ex, e);
                    assert(same_explanation(hits[i].explanations@[m], e));
                } else {
                    assert(hits[i].explanations@[old_h.explanations@.len() as int] == ex);
                }
            }
        }
        if exists|j: int| 0 <= j < hits[i].explanations@.len() && same_explanation(#[trigger] hits[i].explanations@[j], e) {
            let j = choose|j: int| 0 <= j < hits[i].explanations@.len() && same_explanation(#[trigger] hits[i].explanations@[j], e);
            if i == pos && j == old_h.explanations@.len() {
                assert(hits[i].explanations@[j] == ex);
                assert(cands[k].0 == hits[i].entity_id);
            } else {
                assert(hits[i].explanations@[j] == old_hits[i].explanations@[j]);
                let w = choose|w: int| 0 <= w < k && #[trigger] cands[w].0 == old_hits[i].entity_id && same_explanation(cands[w].2, e);
                assert(cands[w].0 == hits[i].entity_id);
            }
        }
    }
    assert forall|i: int, j: int| 0 <= i < j < hits.len() implies #[trigger] hits[i].entity_id != #[trigger] hits[j].entity_id by {
        assert(old_hits[i].entity_id != old_hits[j].entity_id);
    }
    assert forall|i: int| 0 <= i < hits.len() implies (#[trigger] hits[i].sources@).no_duplicates() by {
        assert(old_hits[i].sources@.no_duplicates());
    }
    assert forall|i: int, j: int, m: int|
        0 <= i < hits.len() && 0 <= j < m < hits[i].explanations@.len() implies !same_explanation(
            #[trigger] hits[i].explanations@[j],
            #[trigger] hits[i].explanations@[m],
        ) by {
        if i == pos && m == old_h.explanations@.len() {
            if same_explanation(hits[i].explanations@[j], hits[i].explanations@[m]) {
                assert(same_explanation(old_h.explanations@[j], ex));
            }
        } else {
            assert(hits[i].explanations@[j] == old_hits[i].explanations@[j]);
            assert(hits[i].explanations@[m] == old_hits[i].explanations@[m]);
        }
    }
}

} // verus!
