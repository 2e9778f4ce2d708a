//! Entities and databases for examples and tests.
use vstd::prelude::*;

use crate::entity::{Attribute, EntityDocument, Value};
use crate::ids::{AttributeKeyID, EntityID, SourceID, TagID};
use crate::storage::database::{ArchivedPostingList, Database};

verus! {

/// An entity with one alias and nothing else.
pub fn test_entity(id: EntityID, alias: &str) -> (e: EntityDocument)
    ensures
        e.id == id,
        e.aliases@.len() == 1,
        e.aliases@[0]@ == alias@,
        e.attributes@.len() == 0,
        e.relationships@.len() == 0,
        e.sources@.len() == 0,
        e.tags@.len() == 0,
{
    EntityDocument {
        id,
        aliases: vec![alias.to_owned()],
        attributes: Vec::new(),
        relationships: Vec::new(),
        sources: Vec::new(),
        tags: Vec::new(),
    }
}

/// An entity with one alias and one tag.
pub fn test_entity_with_tag(id: EntityID, alias: &str, tag: TagID) -> (e: EntityDocument)
    ensures
        e.id == id,
        e.aliases@.len() == 1,
        e.aliases@[0]@ == alias@,
        e.attributes@.len() == 0,
        e.relationships@.len() == 0,
        e.sources@.len() == 0,
        e.tags@ == seq![tag],
{
    EntityDocument {
        id,
        aliases: vec![alias.to_owned()],
        attributes: Vec::new(),
        relationships: Vec::new(),
        sources: Vec::new(),
        tags: vec![tag],
    }
}

/// An entity with one alias and one attribute.
pub fn test_entity_with_attribute(id: EntityID, name: &str, key: AttributeKeyID, value: Value) -> (e:
    EntityDocument)
    ensures
        e.id == id,
        e.aliases@.len() == 1,
        e.aliases@[0]@ == name@,
        e.attributes@.len() == 1,
        e.attributes@[0].key == key,
        e.attributes@[0].value == value,
        e.relationships@.len() == 0,
        e.sources@.len() == 0,
        e.tags@.len() == 0,
{
    EntityDocument {
        id,
        aliases: vec![name.to_owned()],
        tags: Vec::new(),
        attributes: vec![Attribute { key, value }],
        relationships: Vec::new(),
        sources: Vec::new(),
    }
}

/// An entity with one alias and the given attributes, in order.
pub fn test_entity_with_attributes(id: EntityID, alias: &str, attributes: Vec<(AttributeKeyID, Value)>) -> (e:
    EntityDocument)
    ensures
        e.id == id,
        e.aliases@.len() == 1,
        e.aliases@[0]@ == alias@,
        e.attributes@.len() == attributes@.len(),
        forall|i: int|
            0 <= i < attributes@.len() ==> (#[trigger] e.attributes@[i]).key == attributes@[i].0
                && e.attributes@[i].value == attributes@[i].1,
        e.relationships@.len() == 0,
        e.sources@.len() == 0,
        e.tags@.len() == 0,
{
    let ghost all = attributes@;
    let n = attributes.len();
    let mut rest = attributes;
    let mut rev: Vec<(AttributeKeyID, Value)> = Vec::new();
    while 0 < rest.len()
        invariant
            all.len() == n,
            rest@.len() + rev@.len() == n,
            forall|i: int| 0 <= i < rest@.len() ==> rest@[i] == all[i],
            forall|j: int| 0 <= j < rev@.len() ==> rev@[j] == all[n - 1 - j],
        decreases rest.len(),
    {
        let x = rest.pop().unwrap();
        rev.push(x);
    }
    let mut list: Vec<Attribute> = Vec::new();
    while 0 < rev.len()
        invariant
            all.len() == n,
            list@.len() + rev@.len() == n,
            forall|i: int|
                0 <= i < list@.len() ==> (#[trigger] list@[i]).key == all[i].0 && list@[i].value
                    == all[i].1,
            forall|j: int| 0 <= j < rev@.len() ==> rev@[j] == all[n - 1 - j],
        decreases rev.len(),
    {
        let (key, value) = rev.pop().unwrap();
        list.push(Attribute { key, value });
    }
    EntityDocument {
        id,
        aliases: vec![alias.to_owned()],
        tags: Vec::new(),
        attributes: list,
        relationships: Vec::new(),
        sources: Vec::new(),
    }
}

/// A database with one entity, `Nestle`, carrying tag 1 and source 1.
pub fn fixture_database() -> (d: Database)
    ensures
        d.entities@.len() == 1,
        d.entities@[0].id == (EntityID { index: 1 }),
        d.entities@[0].aliases@.len() == 1,
        d.entities@[0].aliases@[0]@ == "Nestle"@,
        d.entities@[0].tags@ == seq![(TagID { index: 1 })],
        d.entities@[0].sources@ == seq![(SourceID { index: 1 })],
        d.entities@[0].attributes@.len() == 0,
        d.entities@[0].relationships@.len() == 0,
        d.tags.keys@.len() == 0,
        d.tags.values@.len() == 0,
        d.sources.keys@.len() == 0,
        d.sources.values@.len() == 0,
{
    let mut database = Database {
        entities: Vec::new(),
        tags: ArchivedPostingList { keys: Vec::new(), values: Vec::new() },
        sources: ArchivedPostingList { keys: Vec::new(), values: Vec::new() },
    };
    database.entities.push(
        EntityDocument {
            id: EntityID::new(1),
            aliases: vec!["Nestle".to_owned()],
            tags: vec![TagID::new(1)],
            attributes: Vec::new(),
            relationships: Vec::new(),
            sources: vec![SourceID::new(1)],
        },
    );
    database
}

} // verus!
