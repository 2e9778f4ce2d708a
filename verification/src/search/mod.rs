pub mod candidate;
pub mod signal;

pub use candidate::CandidateSet;
pub use signal::{Signal, SignalSet};
pub mod context;
pub mod operators;
pub mod planner;

pub use planner::{SearchPlan, SearchStage};
pub mod executor;
pub mod ranker;
pub mod result;

pub use executor::SearchExecutor;
pub use ranker::{RankedHit, Ranker};
pub use result::{SearchExplanation, SearchSource};
