//! The state a search works on.
use vstd::prelude::*;

use crate::query::Query;
use crate::resolver::Resolver;
use crate::search::candidate::CandidateSet;
use crate::storage::database::Database;

verus! {

/// A search in progress: what it searches, what it asks, and what it has found.
pub struct SearchContext<'a> {
    pub database: Option<&'a Database>,
    pub resolver: Resolver,
    pub query: &'a Query,
    pub candidates: CandidateSet,
}

impl<'a> SearchContext<'a> {
    /// The resolver's registries and the candidate set are well formed.
    pub open spec fn wf(&self) -> bool {
        self.resolver.wf() && self.candidates.wf()
    }
}

} // verus!
