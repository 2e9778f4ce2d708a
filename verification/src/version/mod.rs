pub mod api;
pub mod error;
pub mod merge;
pub mod validate;

pub use api::MergeReport;
pub use error::{Error, Result};
