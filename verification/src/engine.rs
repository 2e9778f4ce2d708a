//! The logical database: entity documents and the registries that name the
//! tags, sources, attribute keys and relationship types they refer to.
use vstd::prelude::*;

use crate::entity::EntityDocument;
use crate::ids::{AttributeKeyID, EntityID, RelationshipTypeID, SourceID, TagID};
use crate::storage::registry::Registry;

verus! {

/// Entity documents with the registries of the names they refer to.
#[derive(Debug, Clone)]
pub struct Database {
    pub entities: Vec<EntityDocument>,
    pub tags: Registry<TagID>,
    pub sources: Registry<SourceID>,
    pub attribute_keys: Registry<AttributeKeyID>,
    pub relationship_types: Registry<RelationshipTypeID>,
}

impl Database {
    /// The first entity with the given id, if there is one.
    pub fn entity(&self, id: EntityID) -> (r: Option<&EntityDocument>)
        ensures
            match r {
                Some(e) => exists|i: int|
                    0 <= i < self.entities@.len() && #[trigger] self.entities@[i] == *e && e.id == id
                        && forall|j: int| 0 <= j < i ==> (#[trigger] self.entities@[j]).id != id,
                None => forall|i: int| 0 <= i < self.entities@.len() ==> (#[trigger] self.entities@[i]).id != id,
            },
    {
        let mut i: usize = 0;
        while i < self.entities.len()
            invariant
                i <= self.entities@.len(),
                forall|j: int| 0 <= j < i ==> (#[trigger] self.entities@[j]).id != id,
            decreases self.entities.len() - i,
        {
            if self.entities[i].id.index == id.index {
                return Some(&self.entities[i]);
            }
            i += 1;
        }
        None
    }
}

} // verus!
