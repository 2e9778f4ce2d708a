//! A store: entity documents with their tag and source posting lists, kept
//! in one segment file.
use vstd::prelude::*;

use crate::entity::EntityDocument;
use crate::ids::{SourceID, TagID};
use crate::storage::posting_list::PostingListRecord;

verus! {

/// What a store saves to its segment.
#[derive(Debug, Clone)]
pub struct StoreRecord {
    pub entities: Vec<EntityDocument>,
    pub tags: PostingListRecord<TagID>,
    pub sources: PostingListRecord<SourceID>,
}

/// Entity documents with their tag and source posting lists, and the path
/// of the segment they are saved to.
#[derive(Debug, Clone)]
pub struct Store {
    pub path: String,
    pub entities: Vec<EntityDocument>,
    pub tags: PostingListRecord<TagID>,
    pub sources: PostingListRecord<SourceID>,
}

impl Store {
    /// An empty store saved to `path`.
    pub fn new(path: String) -> (r: Self)
        ensures
            r.path@ == path@,
            r.entities@.len() == 0,
            r.tags.index@.len() == 0,
            r.sources.index@.len() == 0,
    {
        Store {
            path,
            entities: Vec::new(),
            tags: PostingListRecord::default(),
            sources: PostingListRecord::default(),
        }
    }

    /// The path of the segment this store is saved to.
    pub fn path(&self) -> (r: &str)
        ensures
            r@ == self.path@,
    {
        self.path.as_str()
    }

    /// What this store saves.
    pub fn into_record(self) -> (r: StoreRecord)
        ensures
            r.entities == self.entities,
            r.tags == self.tags,
            r.sources == self.sources,
    {
        StoreRecord { entities: self.entities, tags: self.tags, sources: self.sources }
    }

    /// The store saved to `path` that holds what `record` holds.
    pub fn from_record(path: String, record: StoreRecord) -> (r: Self)
        ensures
            r.path@ == path@,
            r.entities == record.entities,
            r.tags == record.tags,
            r.sources == record.sources,
    {
        Store { path, entities: record.entities, tags: record.tags, sources: record.sources }
    }
}

} // verus!
