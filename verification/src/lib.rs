//! Read-only catalog of precomputed reputation datasets.
//!
//! The library holds, per platform category, an immutable mapping from
//! dataset name to a dataset record (a seed list and an ordered score
//! list), builds those mappings from best-effort load attempts, and
//! answers lookup and pagination queries over them.

pub mod catalog;
pub mod data;
pub mod store;
