//! A small todo-list library: an ordered list of records (description plus
//! completion flag), the four operations on it (add, remove, complete, list),
//! and the JSON text format in which the list is stored on disk.

pub mod json;
pub mod ops;
pub mod record;
pub mod render;
pub mod roundtrip;
pub mod text;
