use eir::entity::RelationshipType;
use eir::generator::mapper::{map_entity_type, map_relationship};
use eir::generator::registry::Registry;

#[test]
fn registry_numbers_tags_by_first_use_from_one() {
    let mut registry = Registry::new();
    assert_eq!(registry.tag("fruit"), 1);
    assert_eq!(registry.tag("vegetable"), 2);
    assert_eq!(registry.tag("fruit"), 1);
    assert_eq!(registry.property("colour"), 1);
    assert_eq!(registry.property("weight"), 2);
    assert_eq!(registry.property("colour"), 1);
    assert_eq!(registry.tag("grain"), 3);

    assert_eq!(
        registry.export_tags(),
        vec![(1, String::from("fruit")), (2, String::from("vegetable")), (3, String::from("grain"))]
    );
    assert_eq!(
        registry.export_properties(),
        vec![(1, String::from("colour")), (2, String::from("weight"))]
    );
}

#[test]
fn registry_default_is_empty() {
    let registry = Registry::default();
    assert!(registry.export_tags().is_empty());
    assert!(registry.export_properties().is_empty());
}

#[test]
fn relationships_map_by_name() {
    assert_eq!(map_relationship("made_by"), RelationshipType::MadeBy);
    assert_eq!(map_relationship("is_a"), RelationshipType::IsA);
    assert_eq!(map_relationship("located_in"), RelationshipType::LocatedIn);
    assert_eq!(map_relationship("part_of"), RelationshipType::PartOf);
    assert_eq!(map_relationship("rival_of"), RelationshipType::SimilarTo);
}

#[test]
fn entity_types_map_by_name() {
    assert_eq!(map_entity_type("food"), *b"FOOD");
    assert_eq!(map_entity_type("company"), *b"COMP");
    assert_eq!(map_entity_type("category"), *b"CATG");
    assert_eq!(map_entity_type("country"), *b"CTRY");
    assert_eq!(map_entity_type("planet"), *b"UNKN");
}
