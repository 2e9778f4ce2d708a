pub mod backend;
pub mod database;
pub mod deir;
pub mod indexes;
pub mod posting_list;
pub mod registry;
pub mod segment;
pub mod segment_manager;
pub mod store;
pub mod text_index;
pub mod wal;

pub use backend::Backend;
pub use indexes::{ArchivedIndexes, IndexBuilder, Indexes};
pub use posting_list::{PostingList, PostingListRecord};
pub use registry::{Registry, RegistryRecord};
pub use segment::Segment;
pub use store::{Store, StoreRecord};
