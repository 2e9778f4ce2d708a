use eir::ids::{EntityID, TagID};
use eir::search::ranker::{RankedHit, Ranker};
use eir::search::result::{SearchExplanation, SearchSource};

fn exact(alias: &str) -> SearchExplanation {
    SearchExplanation::ExactAlias { alias: alias.into() }
}

fn fuzzy(alias: &str) -> SearchExplanation {
    SearchExplanation::FuzzyAlias { alias: alias.into() }
}

fn token(token: &str) -> SearchExplanation {
    SearchExplanation::Token { token: token.into() }
}

/// The score of a hit as a fraction of a perfect match.
fn score(hit: &RankedHit) -> f32 {
    hit.score as f32 / 100.0
}

#[test]
fn exact_alias_beats_fuzzy() {
    let ranker = Ranker::new();

    let results = ranker.rank(vec![
        (EntityID::new(1), SearchSource::FuzzyAlias, fuzzy("Appl")),
        (EntityID::new(2), SearchSource::ExactAlias, exact("Apple")),
    ]);

    assert_eq!(results[0].entity_id, EntityID::new(2));
    assert_eq!(score(&results[0]), 1.0);
}

#[test]
fn multiple_signals_add_bonus() {
    let ranker = Ranker::new();

    let results = ranker.rank(vec![
        (EntityID::new(1), SearchSource::Token, token("apple")),
        (
            EntityID::new(1),
            SearchSource::Tag,
            SearchExplanation::Tag { tag: TagID::new(1) },
        ),
    ]);

    assert_eq!(results.len(), 1);
    assert!(score(&results[0]) > 0.40);
}

#[test]
fn attribute_key_value_beats_attribute_value() {
    let candidates = vec![
        (
            EntityID::new(1),
            SearchSource::AttributeValue,
            SearchExplanation::AttributeValue { term: "milk".into() },
        ),
        (
            EntityID::new(2),
            SearchSource::AttributeKeyValue,
            SearchExplanation::AttributeKeyValue { key: "brand".into(), value: "nestle".into() },
        ),
    ];

    let results = Ranker::new().rank(candidates);

    assert_eq!(results[0].entity_id, EntityID::new(2));
}

#[test]
fn weights_are_in_hundredths() {
    assert_eq!(Ranker::weight(SearchSource::ExactAlias), 100);
    assert_eq!(Ranker::weight(SearchSource::PrefixAlias), 75);
    assert_eq!(Ranker::weight(SearchSource::FuzzyAlias), 60);
    assert_eq!(Ranker::weight(SearchSource::Token), 40);
    assert_eq!(Ranker::weight(SearchSource::Relationship), 70);
    assert_eq!(Ranker::weight(SearchSource::Tag), 25);
    assert_eq!(Ranker::weight(SearchSource::AttributeKey), 20);
    assert_eq!(Ranker::weight(SearchSource::AttributeValue), 50);
    assert_eq!(Ranker::weight(SearchSource::AttributeKeyValue), 85);
    assert_eq!(Ranker::weight(SearchSource::Source), 45);
}

#[test]
fn score_is_strongest_plus_three_per_further_kind_capped() {
    assert_eq!(Ranker::calculate_score(&vec![]), 0);
    assert_eq!(Ranker::calculate_score(&vec![SearchSource::Token, SearchSource::Tag]), 43);
    assert_eq!(
        Ranker::calculate_score(&vec![SearchSource::ExactAlias, SearchSource::Tag]),
        100
    );
    assert_eq!(
        Ranker::calculate_score(&vec![
            SearchSource::AttributeKeyValue,
            SearchSource::Tag,
            SearchSource::Source,
            SearchSource::Token,
        ]),
        94
    );
}

#[test]
fn rank_merges_evidence_once_per_entity() {
    let results = Ranker::new().rank(vec![
        (EntityID::new(7), SearchSource::Token, token("apple")),
        (EntityID::new(7), SearchSource::Token, token("apple")),
        (EntityID::new(7), SearchSource::Token, token("pie")),
        (EntityID::new(8), SearchSource::Tag, SearchExplanation::Tag { tag: TagID::new(2) }),
    ]);

    assert_eq!(results.len(), 2);
    assert_eq!(results[0].entity_id, EntityID::new(7));
    assert_eq!(results[0].sources, vec![SearchSource::Token]);
    assert_eq!(results[0].explanations, vec![token("apple"), token("pie")]);
    assert_eq!(results[0].score, 40);
    assert_eq!(results[1].score, 25);
    assert!(Ranker::new().rank(vec![]).is_empty());
}

#[test]
fn explanations_compare_by_content() {
    assert!(token("a").same_as(&token("a")));
    assert!(!token("a").same_as(&token("b")));
    assert!(!token("a").same_as(&exact("a")));
}
