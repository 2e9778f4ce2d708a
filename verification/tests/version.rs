use eir::engine::Database;
use eir::entity::{Attribute, EntityDocument, Relationship, RelationshipType, Value};
use eir::ids::EntityID;
use eir::storage::registry::Registry;
use eir::version::merge::{entity_to_input, merge_databases};
use eir::version::validate::validate_merge_paths;
use eir::version::{Error, MergeReport};

fn empty_database() -> Database {
    Database {
        entities: vec![],
        tags: Registry::default(),
        sources: Registry::default(),
        attribute_keys: Registry::default(),
        relationship_types: Registry::default(),
    }
}

fn create_database(id: usize, alias: &str) -> Database {
    let mut database = empty_database();
    database.entities.push(EntityDocument {
        id: EntityID::new(id),
        aliases: vec![alias.into()],
        attributes: vec![],
        relationships: vec![],
        sources: vec![],
        tags: vec![],
    });
    database
}

fn create_database_with_metadata(id: usize, alias: &str, tags: Vec<&str>, sources: Vec<&str>) -> Database {
    let mut database = create_database(id, alias);
    let tags = tags.into_iter().map(|t| database.tags.intern(t)).collect();
    let sources = sources.into_iter().map(|s| database.sources.intern(s)).collect();
    database.entities[0].tags = tags;
    database.entities[0].sources = sources;
    database
}

fn create_database_with_attributes_and_relationships(
    id: usize,
    alias: &str,
    attribute_key: &str,
    attribute_value: &str,
    relationship_kind: &str,
    relationship_target: usize,
) -> Database {
    let mut database = create_database(id, alias);
    let key = database.attribute_keys.intern(attribute_key);
    let kind = database.relationship_types.intern(relationship_kind);
    database.entities[0].attributes = vec![Attribute {
        key,
        value: Value::String(attribute_value.into()),
    }];
    database.entities[0].relationships = vec![Relationship {
        kind: RelationshipType::Custom(kind),
        target: EntityID::new(relationship_target),
    }];
    database
}

#[test]
fn merge_combines_two_databases() {
    let left = create_database(1000, "Left Entity");
    let right = create_database(2000, "Right Entity");

    let (report, inputs) = merge_databases(&left, &right);

    assert_eq!(report.entities_added, 2);
    assert_eq!(report.entities_skipped, 0);

    assert!(inputs.iter().any(|input| input.id == EntityID::new(1000)));
    assert!(inputs.iter().any(|input| input.id == EntityID::new(2000)));
}

#[test]
fn merge_skips_duplicate_entity_ids() {
    let left = create_database(1000, "Left Entity");
    let right = create_database(1000, "Right Entity");

    let (report, inputs) = merge_databases(&left, &right);

    assert_eq!(report.entities_added, 1);
    assert_eq!(report.entities_skipped, 1);

    assert_eq!(inputs[0].aliases, vec![String::from("Left Entity")]);
}

#[test]
fn merge_remaps_tags_and_sources() {
    let left = create_database_with_metadata(1000, "Left Entity", vec!["Food"], vec!["Open Food Facts"]);
    let right = create_database_with_metadata(
        2000,
        "Right Entity",
        vec!["Food", "Manufacturer"],
        vec!["Manufacturer Registry"],
    );

    let (report, inputs) = merge_databases(&left, &right);

    assert_eq!(report.entities_added, 2);
    assert_eq!(report.entities_skipped, 0);

    assert_eq!(inputs[0].tags, vec![String::from("food")]);
    assert_eq!(inputs[1].tags, vec![String::from("food"), String::from("manufacturer")]);

    let left_sources: Vec<_> = inputs[0].sources.iter().map(|s| s.provider.clone()).collect();
    let right_sources: Vec<_> = inputs[1].sources.iter().map(|s| s.provider.clone()).collect();

    assert_eq!(left_sources, vec![String::from("open food facts")]);
    assert_eq!(right_sources, vec![String::from("manufacturer registry")]);
    assert!(inputs[0].sources.iter().all(|s| !s.verified && s.created.is_none() && s.updated.is_none()));
}

#[test]
fn merge_remaps_attribute_keys_and_relationship_types() {
    let left = create_database_with_attributes_and_relationships(
        1000, "Left Entity", "brand", "Acme", "manufacturer", 9000,
    );
    let right = create_database_with_attributes_and_relationships(
        2000, "Right Entity", "country", "Denmark", "origin", 9001,
    );

    let (report, inputs) = merge_databases(&left, &right);

    assert_eq!(report.entities_added, 2);
    assert_eq!(report.entities_skipped, 0);

    let left_keys: Vec<_> = inputs[0].attributes.iter().map(|a| a.key.clone()).collect();
    let right_keys: Vec<_> = inputs[1].attributes.iter().map(|a| a.key.clone()).collect();
    assert_eq!(left_keys, vec![String::from("brand")]);
    assert_eq!(right_keys, vec![String::from("country")]);
    assert_eq!(inputs[0].attributes[0].value, "Acme");

    let left_kinds: Vec<_> = inputs[0].relationships.iter().map(|r| r.kind.clone()).collect();
    let right_kinds: Vec<_> = inputs[1].relationships.iter().map(|r| r.kind.clone()).collect();
    assert_eq!(left_kinds, vec![String::from("manufacturer")]);
    assert_eq!(right_kinds, vec![String::from("origin")]);
    assert_eq!(inputs[1].relationships[0].target, EntityID::new(9001));
}

#[test]
fn entity_to_input_leaves_out_built_in_relationships_and_unnamed_ids() {
    let mut database = create_database(1, "Apple");
    let made_by = database.relationship_types.intern("made_by");
    database.entities[0].relationships = vec![
        Relationship { kind: RelationshipType::MadeBy, target: EntityID::new(5) },
        Relationship { kind: RelationshipType::Custom(made_by), target: EntityID::new(6) },
    ];
    database.entities[0].tags = vec![eir::ids::TagID::new(3)];
    database.entities[0].attributes = vec![Attribute {
        key: eir::ids::AttributeKeyID::new(0),
        value: Value::Integer(-42),
    }];
    let key = database.attribute_keys.intern("weight");
    assert_eq!(key, eir::ids::AttributeKeyID::new(0));

    let input = entity_to_input(&database, &database.entities[0]);

    assert_eq!(input.relationships.len(), 1);
    assert_eq!(input.relationships[0].kind, "made_by");
    assert_eq!(input.relationships[0].target, EntityID::new(6));
    assert!(input.tags.is_empty());
    assert_eq!(input.attributes[0].value, "-42");
}

#[test]
fn merge_report_starts_empty() {
    assert_eq!(MergeReport::default(), MergeReport { entities_added: 0, entities_skipped: 0 });
}

#[test]
fn validate_merge_paths_checks_in_order() {
    assert!(matches!(
        validate_merge_paths("a.eir", "a.eir", "out.eir", true, true, false),
        Err(Error::InvalidInput(_))
    ));
    assert!(matches!(
        validate_merge_paths("a.eir", "b.eir", "b.eir", true, true, false),
        Err(Error::OutputInputCollision)
    ));
    assert!(matches!(
        validate_merge_paths("a.eir", "b.eir", "out.eir", false, true, false),
        Err(Error::LeftDatabaseMissing(p)) if p == "a.eir"
    ));
    assert!(matches!(
        validate_merge_paths("a.eir", "b.eir", "out.eir", true, false, false),
        Err(Error::RightDatabaseMissing(p)) if p == "b.eir"
    ));
    assert!(matches!(
        validate_merge_paths("a.eir", "b.eir", "out.eir", true, true, true),
        Err(Error::OutputExists(p)) if p == "out.eir"
    ));
    assert!(validate_merge_paths("a.eir", "b.eir", "out.eir", true, true, false).is_ok());
    assert!(matches!(
        validate_merge_paths("dir/a.eir", "dir//a.eir", "out.eir", true, true, false),
        Err(Error::InvalidInput(_))
    ));
}
