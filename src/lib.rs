//! A small entity-component store: entities are dense integer ids, components
//! live in one column per component kind, and every column holds one optional
//! slot per entity, so that columns can be joined by position.

pub mod column;
pub mod laws;
pub mod query;
pub mod world;

pub use column::ColumnHandle;
pub use query::join_rows;
pub use world::{AccessError, World};
