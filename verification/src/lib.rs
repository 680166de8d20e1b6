//! Decoding of self-describing trace events.
//!
//! An event record carries raw payload bytes and a reference to a schema. The
//! schema comes as one block of bytes, the event information, whose property
//! table may nest structs. The library flattens that table into a list of leaf
//! properties, keeps the lists in a cache, and lays each payload out as fields
//! with absolute offsets.

pub mod cache;
pub mod decoder;
pub mod error;
pub mod event;
pub mod extract;
pub mod flatten;
pub mod info;
pub mod intype;
pub mod layout;
pub mod nesting;
pub mod query;
pub mod record;
pub mod scan;
pub mod schema;
