//! A zero-copy binary archival format.
//!
//! A value is archived into a flat byte buffer in two phases: first what its
//! record will point at is written, then the record itself, with relative
//! pointers to what came before. The buffer is read in place, without a
//! parsing pass, wherever its bytes are copied to.
//!
//! - `traits` states the protocol that every archivable type follows, and
//!   `util` holds the entry points and the laws that relate them.
//! - `rel_ptr`, `endian` and `ser` are what records are made with: relative
//!   pointers, byte order, and the writer and allocator of a serialization.
//! - `primitive`, `tuple`, `string`, `vec` and `collections` are the types
//!   that can be archived; `impls` adds collections of other crates.
//! - `attributes` is the front end of the derive macros: it reads what the
//!   attributes of a type ask for, with `syntax` as its way into `syn`.

pub mod attributes;
pub mod collections;
pub mod endian;
pub mod error;
pub mod hash;
pub mod impls;
pub mod primitive;
pub mod rel_ptr;
pub mod ser;
pub mod string;
pub mod syntax;
pub mod traits;
pub mod tuple;
pub mod util;
pub mod vec;
