//! EIR, the entity identifier resolver: entity documents with interned
//! names, posting-list indexes, a query language, staged search with
//! ranking, and the DEIR file format for snapshots and the write-ahead log.
//!
//! Every function here states what it does in its contract, and Verus
//! proves it. File and directory access, the byte encoding of records and
//! floating-point scores live in the companion crate under `app/`.
pub mod ids;
pub mod text;
pub mod engine;
pub mod entity;
pub mod generator;
pub mod error;
pub mod query;
pub mod storage;
pub mod resolver;
pub mod search;
pub mod test_utils;
pub mod version;
