//! The archive protocol for collections of other crates. Each is archived
//! as the sequence or the map that it holds.

pub mod array_vec;
pub mod index_map;
pub mod small_vec;
