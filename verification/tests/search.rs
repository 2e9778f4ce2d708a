use eir::entity::{EntityDocument, Relationship, RelationshipType, Value};
use eir::ids::{AttributeKeyID, EntityID, TagID};
use eir::query::{Filter, FilterExpr, Query, QueryIntent};
use eir::resolver::Resolver;
use eir::search::context::SearchContext;
use eir::search::operators::{
    attribute, exact_alias, fuzzy_alias, prefix_alias, relationship, tag, token,
};
use eir::search::{CandidateSet, SearchExecutor, SearchPlan, SearchStage, Signal};
use eir::test_utils::{
    test_entity, test_entity_with_attribute, test_entity_with_attributes, test_entity_with_tag,
};

#[test]
fn union_contains_candidates_from_both_sets() {
    let mut left = CandidateSet::default();
    left.add_signal(EntityID::new(1), Signal::Property);

    let mut right = CandidateSet::default();
    right.add_signal(EntityID::new(2), Signal::Relationship);

    let result = left.union(right);

    assert!(result.contains(EntityID::new(1)));
    assert!(result.contains(EntityID::new(2)));
}

#[test]
fn intersection_only_contains_candidates_in_both_sets() {
    let mut left = CandidateSet::default();
    left.add_signal(EntityID::new(1), Signal::Property);
    left.add_signal(EntityID::new(2), Signal::Property);

    let mut right = CandidateSet::default();
    right.add_signal(EntityID::new(2), Signal::Relationship);
    right.add_signal(EntityID::new(3), Signal::Relationship);

    let result = left.intersection(&right);

    assert!(!result.contains(EntityID::new(1)));
    assert!(result.contains(EntityID::new(2)));
    assert!(!result.contains(EntityID::new(3)));

    let candidate = result.get(EntityID::new(2)).unwrap();

    assert!(candidate.signals.contains(&Signal::Property));
    assert!(candidate.signals.contains(&Signal::Relationship));
}

fn attribute_resolver() -> Resolver {
    let mut resolver = Resolver::default();

    let brand = AttributeKeyID::new(1);
    let price = AttributeKeyID::new(2);

    resolver.register_attribute(brand, "brand".into());
    resolver.register_attribute(price, "price".into());

    resolver.add(test_entity_with_attribute(
        EntityID::new(1),
        "Acme Product",
        brand,
        Value::String("Acme".into()),
    ));

    resolver.add(test_entity_with_attribute(
        EntityID::new(2),
        "Other Product",
        brand,
        Value::String("Other".into()),
    ));

    resolver.add(test_entity_with_attribute(
        EntityID::new(3),
        "Cheap Product",
        price,
        Value::Integer(5),
    ));

    resolver.add(test_entity_with_attribute(
        EntityID::new(4),
        "Expensive Product",
        price,
        Value::Integer(20),
    ));

    resolver
}

fn filter(query: &str) -> Filter {
    let query = Query::parse(query);

    match query.filter.as_ref().unwrap() {
        FilterExpr::Filter(filter) => filter.clone(),
        _ => panic!("expected a single filter"),
    }
}

#[test]
fn attribute_equals_adds_matching_candidate() {
    let resolver = attribute_resolver();
    let filter = filter("brand=Acme");

    let mut candidates = CandidateSet::default();

    attribute::execute(&resolver, &mut candidates, &filter);

    assert!(candidates.get(EntityID::new(1)).is_some());
    assert!(candidates.get(EntityID::new(2)).is_none());
    assert!(candidates.get(EntityID::new(3)).is_none());
    assert!(candidates.get(EntityID::new(4)).is_none());

    assert!(candidates
        .get(EntityID::new(1))
        .unwrap()
        .signals
        .contains(&Signal::Property));
}

#[test]
fn attribute_equals_does_not_match_different_value() {
    let resolver = attribute_resolver();
    let filter = filter("brand=Missing");

    let mut candidates = CandidateSet::default();

    attribute::execute(&resolver, &mut candidates, &filter);

    assert!(candidates.get(EntityID::new(1)).is_none());
    assert!(candidates.get(EntityID::new(2)).is_none());
}

#[test]
fn attribute_not_equals_excludes_matching_value() {
    let resolver = attribute_resolver();
    let filter = filter("brand!=Acme");

    let mut candidates = CandidateSet::default();

    attribute::execute(&resolver, &mut candidates, &filter);

    assert!(candidates.get(EntityID::new(1)).is_none());
    assert!(candidates.get(EntityID::new(2)).is_some());
}

#[test]
fn attribute_greater_than_matches_numeric_values() {
    let resolver = attribute_resolver();
    let filter = filter("price>10");

    let mut candidates = CandidateSet::default();

    attribute::execute(&resolver, &mut candidates, &filter);

    assert!(candidates.get(EntityID::new(3)).is_none());
    assert!(candidates.get(EntityID::new(4)).is_some());
}

#[test]
fn attribute_less_than_or_equal_matches_numeric_values() {
    let resolver = attribute_resolver();
    let filter = filter("price<=5");

    let mut candidates = CandidateSet::default();

    attribute::execute(&resolver, &mut candidates, &filter);

    assert!(candidates.get(EntityID::new(3)).is_some());
    assert!(candidates.get(EntityID::new(4)).is_none());
}

#[test]
fn attribute_filter_does_not_match_entity_without_attribute() {
    let resolver = attribute_resolver();
    let filter = filter("brand=Acme");

    let mut candidates = CandidateSet::default();

    attribute::execute(&resolver, &mut candidates, &filter);

    // Entity 3 has only price.
    assert!(candidates.get(EntityID::new(3)).is_none());
}

#[test]
fn non_attribute_filter_is_ignored() {
    let resolver = attribute_resolver();

    let filter = Filter::Tag { tag: "food".into() };

    let mut candidates = CandidateSet::default();

    attribute::execute(&resolver, &mut candidates, &filter);

    assert!(candidates.get(EntityID::new(1)).is_none());
    assert!(candidates.get(EntityID::new(2)).is_none());
    assert!(candidates.get(EntityID::new(3)).is_none());
    assert!(candidates.get(EntityID::new(4)).is_none());
}

#[test]
fn attribute_less_than_matches_numeric_values() {
    let resolver = attribute_resolver();
    let filter = filter("price<10");

    let mut candidates = CandidateSet::default();

    attribute::execute(&resolver, &mut candidates, &filter);

    assert!(candidates.get(EntityID::new(3)).is_some());
    assert!(candidates.get(EntityID::new(4)).is_none());
}

#[test]
fn attribute_greater_than_or_equal_matches_numeric_values() {
    let resolver = attribute_resolver();
    let filter = filter("price>=20");

    let mut candidates = CandidateSet::default();

    attribute::execute(&resolver, &mut candidates, &filter);

    assert!(candidates.get(EntityID::new(3)).is_none());
    assert!(candidates.get(EntityID::new(4)).is_some());
}

#[test]
fn attribute_comparison_does_not_match_incompatible_value_types() {
    let resolver = attribute_resolver();
    let filter = filter("price>abc");

    let mut candidates = CandidateSet::default();

    attribute::execute(&resolver, &mut candidates, &filter);

    assert!(candidates.get(EntityID::new(3)).is_none());
    assert!(candidates.get(EntityID::new(4)).is_none());
}

#[test]
fn exact_alias_adds_candidate() {
    let mut resolver = Resolver::default();

    resolver.add(test_entity(EntityID::new(1), "FizzBerry Spark"));

    let query = Query::parse("fizzberry spark");

    let mut ctx = SearchContext {
        database: None,
        resolver,
        query: &query,
        candidates: CandidateSet::default(),
    };

    exact_alias::execute(&mut ctx);

    let candidate = ctx.candidates.get(EntityID::new(1)).unwrap();

    assert!(candidate.signals.contains(&Signal::ExactAlias));
}

#[test]
fn fuzzy_alias_adds_candidate() {
    let entity_id = EntityID::new(1);

    let mut resolver = Resolver::default();

    resolver.add(test_entity(entity_id, "FizzBerry"));

    let query = Query::parse("FizBerry");

    let mut ctx = SearchContext {
        database: None,
        resolver,
        query: &query,
        candidates: CandidateSet::default(),
    };

    fuzzy_alias::execute(&mut ctx, 1);

    let candidate = ctx.candidates.get(entity_id).unwrap();

    assert!(candidate.signals.contains(&Signal::FuzzyAlias));
}

#[test]
fn prefix_alias_adds_candidate() {
    let mut resolver = Resolver::default();

    let entity_id = EntityID::new(1);

    resolver.add(test_entity(entity_id, "FizzBerry Spark"));

    let query = Query::parse("Fizz");

    let mut ctx = SearchContext {
        database: None,
        resolver,
        query: &query,
        candidates: CandidateSet::default(),
    };

    prefix_alias::execute(&mut ctx);

    let candidate = ctx.candidates.get(entity_id).unwrap();

    assert!(candidate.signals.contains(&Signal::PrefixAlias));
}

#[test]
fn relationship_adds_candidate() {
    let mut resolver = Resolver::default();

    let entity_id_1 = EntityID::new(1);
    let entity_id_2 = EntityID::new(10);

    let manufacturer_type = resolver.register_relationship_type("manufacturer");

    resolver.add(test_entity(entity_id_2, "Nestle"));

    let product = EntityDocument {
        id: entity_id_1,
        aliases: vec!["Chocolate Bar".into()],
        relationships: vec![Relationship {
            kind: RelationshipType::Custom(manufacturer_type),
            target: entity_id_2,
        }],
        attributes: Vec::new(),
        sources: Vec::new(),
        tags: Vec::new(),
    };

    resolver.add(product);

    let filter = Filter::Relationship {
        kind: "manufacturer".into(),
        target: "nestle".into(),
    };

    let mut candidates = CandidateSet::default();

    relationship::execute(&resolver, &mut candidates, &filter);

    let candidate = candidates.get(entity_id_1).unwrap();

    assert!(candidate.signals.contains(&Signal::Relationship));
}

#[test]
fn relationship_does_not_match_unknown_target() {
    let mut resolver = Resolver::default();

    let entity_id = EntityID::new(1);
    let target_id = EntityID::new(10);

    let kind = resolver.register_relationship_type("manufacturer");

    resolver.add(test_entity(target_id, "Nestle"));

    resolver.add(EntityDocument {
        id: entity_id,
        aliases: vec!["Chocolate Bar".into()],
        relationships: vec![Relationship {
            kind: RelationshipType::Custom(kind),
            target: target_id,
        }],
        attributes: Vec::new(),
        sources: Vec::new(),
        tags: Vec::new(),
    });

    let filter = Filter::Relationship {
        kind: "manufacturer".into(),
        target: "Unknown".into(),
    };

    let mut candidates = CandidateSet::default();

    relationship::execute(&resolver, &mut candidates, &filter);

    assert!(candidates.get(entity_id).is_none());
}

#[test]
fn relationship_does_not_match_wrong_kind() {
    let mut resolver = Resolver::default();

    let entity_id = EntityID::new(1);
    let target_id = EntityID::new(10);

    let manufacturer = resolver.register_relationship_type("manufacturer");

    resolver.register_relationship_type("owner");

    resolver.add(test_entity(target_id, "Nestle"));

    resolver.add(EntityDocument {
        id: entity_id,
        aliases: vec!["Chocolate Bar".into()],
        relationships: vec![Relationship {
            kind: RelationshipType::Custom(manufacturer),
            target: target_id,
        }],
        attributes: Vec::new(),
        sources: Vec::new(),
        tags: Vec::new(),
    });

    let filter = Filter::Relationship {
        kind: "owner".into(),
        target: "nestle".into(),
    };

    let mut candidates = CandidateSet::default();

    relationship::execute(&resolver, &mut candidates, &filter);

    assert!(candidates.get(entity_id).is_none());
}

#[test]
fn tag_adds_candidate() {
    let mut resolver = Resolver::default();

    let tag_id = TagID::new(1);
    let entity_id = EntityID::new(1);

    resolver.register_tag(tag_id, "drink".into());

    resolver.add(test_entity_with_tag(entity_id, "FizzBerry Spark", tag_id));

    let query = Query::parse("drink");

    let mut ctx = SearchContext {
        database: None,
        resolver,
        query: &query,
        candidates: CandidateSet::default(),
    };

    tag::execute(&mut ctx);

    assert!(ctx
        .candidates
        .get(entity_id)
        .unwrap()
        .signals
        .contains(&Signal::Tag));
}

#[test]
fn token_adds_candidate() {
    let mut resolver = Resolver::default();

    resolver.add(test_entity(EntityID::new(1), "FizzBerry Spark"));

    let query = Query::parse("spark");

    let mut ctx = SearchContext {
        database: None,
        resolver,
        query: &query,
        candidates: CandidateSet::default(),
    };

    token::execute(&mut ctx);

    assert!(ctx
        .candidates
        .get(EntityID::new(1))
        .unwrap()
        .signals
        .contains(&Signal::Token));
}

#[test]
fn lookup_creates_lookup_plan() {
    let query = Query {
        original: "FizzBerry".into(),
        normalized: "fizzberry".into(),
        tokens: vec!["fizzberry".into()],
        intent: QueryIntent::Lookup,
        filter: None,
    };

    let plan = SearchPlan::from_query(&query);

    assert!(plan.stages.contains(&SearchStage::Token));
    assert!(plan.stages.contains(&SearchStage::ExactAlias));
}

#[test]
fn attribute_filter_creates_property_plan() {
    let query = Query::parse("price>=10");

    let plan = SearchPlan::from_query(&query);

    assert!(plan.stages.contains(&SearchStage::Attribute));
}

#[test]
fn lookup_does_not_create_property_plan() {
    let query = Query::parse("FizzBerry");

    let plan = SearchPlan::from_query(&query);

    assert!(!plan.stages.contains(&SearchStage::Attribute));
}

fn search_fixture() -> Resolver {
    let mut resolver = Resolver::default();

    let brand = AttributeKeyID::new(1);
    let price = AttributeKeyID::new(2);

    resolver.register_attribute(brand, "brand".into());
    resolver.register_attribute(price, "price".into());

    // 1: Acme, cheap ($5)
    resolver.add(test_entity_with_attributes(
        EntityID::new(1),
        "Acme Cheap Product",
        vec![
            (brand, Value::String("acme".into())),
            (price, Value::Integer(5)),
        ],
    ));

    // 2: Other, expensive ($20)
    resolver.add(test_entity_with_attributes(
        EntityID::new(2),
        "Other Expensive Product",
        vec![
            (brand, Value::String("other".into())),
            (price, Value::Integer(20)),
        ],
    ));

    // 3: Other, cheap ($5)
    resolver.add(test_entity_with_attributes(
        EntityID::new(3),
        "Other Cheap Product",
        vec![
            (brand, Value::String("other".into())),
            (price, Value::Integer(5)),
        ],
    ));

    // 4: Acme, expensive ($20)
    resolver.add(test_entity_with_attributes(
        EntityID::new(4),
        "Acme Expensive Product",
        vec![
            (brand, Value::String("acme".into())),
            (price, Value::Integer(20)),
        ],
    ));

    // 5: no attributes
    resolver.add(test_entity(EntityID::new(5), "No Attributes Product"));

    resolver
}

fn run_search(text: &str) -> CandidateSet {
    let resolver = search_fixture();
    let query = Query::parse(text);

    let mut ctx = SearchContext {
        database: None,
        resolver,
        query: &query,
        candidates: CandidateSet::default(),
    };

    let plan = SearchPlan::from_query(&query);
    SearchExecutor::execute(&plan, &mut ctx);

    ctx.candidates
}

#[test]
fn search_attribute_equality_end_to_end() {
    let candidates = run_search("brand=Acme");

    assert!(candidates.get(EntityID::new(1)).is_some());
    assert!(candidates.get(EntityID::new(4)).is_some());

    assert!(candidates.get(EntityID::new(2)).is_none());
    assert!(candidates.get(EntityID::new(3)).is_none());
    assert!(candidates.get(EntityID::new(5)).is_none());
}

#[test]
fn search_numeric_attribute_comparison_end_to_end() {
    let candidates = run_search("price>=10");

    assert!(candidates.get(EntityID::new(2)).is_some());
    assert!(candidates.get(EntityID::new(4)).is_some());

    assert!(candidates.get(EntityID::new(1)).is_none());
    assert!(candidates.get(EntityID::new(3)).is_none());
    assert!(candidates.get(EntityID::new(5)).is_none());
}

#[test]
fn search_and_requires_both_filters() {
    let candidates = run_search("brand=Acme & price>=10");

    // Acme + price >= 10
    assert!(candidates.get(EntityID::new(4)).is_some());

    // Acme, but too cheap.
    assert!(candidates.get(EntityID::new(1)).is_none());

    // Expensive, but not Acme.
    assert!(candidates.get(EntityID::new(2)).is_none());

    // Neither.
    assert!(candidates.get(EntityID::new(3)).is_none());

    // Missing attributes.
    assert!(candidates.get(EntityID::new(5)).is_none());
}

#[test]
fn search_or_matches_either_filter() {
    let candidates = run_search("brand=Acme | brand=Other");

    assert!(candidates.get(EntityID::new(1)).is_some());
    assert!(candidates.get(EntityID::new(2)).is_some());
    assert!(candidates.get(EntityID::new(3)).is_some());
    assert!(candidates.get(EntityID::new(4)).is_some());

    assert!(candidates.get(EntityID::new(5)).is_none());
}

#[test]
fn search_multiple_and_filters_require_all() {
    let candidates = run_search("brand=Acme & price>=10 & price<=30");

    // Acme and 10 <= price <= 30.
    assert!(candidates.get(EntityID::new(4)).is_some());

    assert!(candidates.get(EntityID::new(1)).is_none());
    assert!(candidates.get(EntityID::new(2)).is_none());
    assert!(candidates.get(EntityID::new(3)).is_none());
}

#[test]
fn search_mixed_and_or_preserves_boolean_semantics() {
    let candidates = run_search("brand=Acme & price>=10 | brand=Other");

    assert!(candidates.get(EntityID::new(4)).is_some());
    assert!(candidates.get(EntityID::new(2)).is_some());
    assert!(candidates.get(EntityID::new(3)).is_some());

    // Entity 1 is Acme but price is only 5.
    assert!(candidates.get(EntityID::new(1)).is_none());

    assert!(candidates.get(EntityID::new(5)).is_none());
}

#[test]
fn search_parentheses_change_boolean_grouping() {
    let candidates = run_search("brand=Acme & (price>=10 | price<=5)");

    // Acme AND (price >= 10 OR price <= 5)
    assert!(candidates.get(EntityID::new(1)).is_some());
    assert!(candidates.get(EntityID::new(4)).is_some());

    assert!(candidates.get(EntityID::new(2)).is_none());
    assert!(candidates.get(EntityID::new(3)).is_none());
}

#[test]
fn search_numeric_attribute_less_than_or_equal() {
    let candidates = run_search("price<=5");

    assert!(candidates.get(EntityID::new(1)).is_some());
    assert!(candidates.get(EntityID::new(3)).is_some());

    assert!(candidates.get(EntityID::new(2)).is_none());
    assert!(candidates.get(EntityID::new(4)).is_none());
}

#[test]
fn search_numeric_attribute_greater_than() {
    let candidates = run_search("price>5");

    assert!(candidates.get(EntityID::new(2)).is_some());
    assert!(candidates.get(EntityID::new(4)).is_some());

    assert!(candidates.get(EntityID::new(1)).is_none());
    assert!(candidates.get(EntityID::new(3)).is_none());
}

#[test]
fn candidate_count_is_distinct_entities() {
    let mut s = CandidateSet::default();
    assert!(s.is_empty());
    s.add_signal(EntityID::new(1), Signal::Property);
    s.add_signal(EntityID::new(1), Signal::Tag);
    s.add_signal(EntityID::new(2), Signal::Tag);
    assert_eq!(s.len(), 2);
    assert!(!s.is_empty());
    let c = s.get(EntityID::new(1)).unwrap();
    assert_eq!(c.signals, vec![Signal::Property, Signal::Tag]);
    assert!(s.iter().iter().any(|c| c.entity == EntityID::new(2)));
    assert_eq!(s.iter().len(), s.len());
}
