//! An in-memory columnar analytics engine.
//!
//! The crate answers SQL-like `SELECT .. WHERE .. ORDER BY .. LIMIT` queries
//! over partitions of typed column data.  Queries are first normalized into
//! one or two aggregate-free passes, then evaluated per partition and merged.
//! Tables hold immutable sealed partitions plus a row-oriented ingest buffer
//! that seals into a new partition whenever it reaches the table's batch size;
//! resident column data is tracked by an LRU structure so that a memory limit
//! can be enforced by eviction.

pub mod codec;
pub mod db;
pub mod dispatch;
pub mod encoding;
pub mod error;
pub mod eval;
pub mod expr;
pub mod group;
pub mod inner;
pub mod query;
pub mod run;
pub mod scratchpad;
pub mod sort;
pub mod store;
pub mod strutil;
pub mod table;
pub mod type_conversion;
pub mod val;

pub use error::QueryError;
pub use val::RawVal;
