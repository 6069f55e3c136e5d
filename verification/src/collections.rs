//! Archived collections that are more than a sequence.

pub mod index_map;
pub mod table;
