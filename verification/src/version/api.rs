//! What a merge reports.
use vstd::prelude::*;

verus! {

/// How many entities a merge added, and how many it skipped because an
/// entity with the same id was already there.
#[derive(Debug, Clone, Copy, PartialEq, Eq, Structural)]
pub struct MergeReport {
    pub entities_added: usize,
    pub entities_skipped: usize,
}

impl Default for MergeReport {
    fn default() -> (r: Self)
        ensures
            r.entities_added == 0,
            r.entities_skipped == 0,
    {
        MergeReport { entities_added: 0, entities_skipped: 0 }
    }
}

} // verus!
