//! The archived form of a database: entities and flattened posting lists.
use vstd::prelude::*;

use crate::entity::EntityDocument;
use crate::ids::{EntityID, SourceID, TagID};

verus! {

/// A posting list flattened into parallel vectors: `values[i]` holds the
/// entities filed under `keys[i]`.
#[derive(Debug, Clone)]
pub struct ArchivedPostingList<K> {
    pub keys: Vec<K>,
    pub values: Vec<Vec<EntityID>>,
}

/// A database: its entities with the tag and source posting lists.
#[derive(Debug, Clone)]
pub struct Database {
    pub entities: Vec<EntityDocument>,
    pub tags: ArchivedPostingList<TagID>,
    pub sources: ArchivedPostingList<SourceID>,
}

} // verus!
