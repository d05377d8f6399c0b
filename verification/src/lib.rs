//! An in-memory, schema-driven record store.
//!
//! The store holds a fixed set of typed tables, created once from a schema,
//! and answers single-record insert, update, get and delete requests against
//! them. Every mutating operation enforces column-type correctness,
//! foreign-key referential integrity and optimistic-concurrency version
//! checks; deleting a row cascades to every row that references it.

pub mod database;
pub mod ops;
pub mod cascade;
pub mod dispatch;
pub mod laws;
