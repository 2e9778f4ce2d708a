//! Mapping the kind names of fixture data onto the database's kinds.
use vstd::prelude::*;

use crate::entity::{EntityType, RelationshipType};
use crate::text::str_eq;

verus! {

/// The relationship kind a fixture name stands for; any name not known
/// stands for `SimilarTo`.
pub open spec fn relationship_named(value: Seq<char>) -> RelationshipType {
    if value == "made_by"@ {
        RelationshipType::MadeBy
    } else if value == "is_a"@ {
        RelationshipType::IsA
    } else if value == "located_in"@ {
        RelationshipType::LocatedIn
    } else if value == "part_of"@ {
        RelationshipType::PartOf
    } else {
        RelationshipType::SimilarTo
    }
}

/// The four-byte entity type code a fixture name stands for; any name not
/// known stands for `UNKN`.
pub open spec fn entity_type_named(value: Seq<char>) -> Seq<u8> {
    if value == "food"@ {
        seq![70u8, 79u8, 79u8, 68u8]
    } else if value == "company"@ {
        seq![67u8, 79u8, 77u8, 80u8]
    } else if value == "category"@ {
        seq![67u8, 65u8, 84u8, 71u8]
    } else if value == "country"@ {
        seq![67u8, 84u8, 82u8, 89u8]
    } else {
        seq![85u8, 78u8, 75u8, 78u8]
    }
}

/// The relationship kind a fixture name stands for.
pub fn map_relationship(value: &str) -> (r: RelationshipType)
    ensures
        r == relationship_named(value@),
{
    if str_eq(value, "made_by") {
        RelationshipType::MadeBy
    } else if str_eq(value, "is_a") {
        RelationshipType::IsA
    } else if str_eq(value, "located_in") {
        RelationshipType::LocatedIn
    } else if str_eq(value, "part_of") {
        RelationshipType::PartOf
    } else {
        RelationshipType::SimilarTo
    }
}

/// The entity type code a fixture name stands for.
pub fn map_entity_type(value: &str) -> (r: EntityType)
    ensures
        r@ == entity_type_named(value@),
{
    let r: EntityType = if str_eq(value, "food") {
        [70u8, 79u8, 79u8, 68u8]
    } else if str_eq(value, "company") {
        [67u8, 79u8, 77u8, 80u8]
    } else if str_eq(value, "category") {
        [67u8, 65u8, 84u8, 71u8]
    } else if str_eq(value, "country") {
        [67u8, 84u8, 82u8, 89u8]
    } else {
        [85u8, 78u8, 75u8, 78u8]
    };
    assert(r@ =~= entity_type_named(value@));
    r
}

} // verus!
