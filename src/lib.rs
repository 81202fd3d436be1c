//! A semantic index over extracted crate documentation: a catalog of
//! documented items, a store of per-project indexes with their embedding
//! vectors, and ranking of query results by similarity score.
pub mod catalog;
pub mod embedding;
pub mod project;
pub mod store;
pub mod ranking;
pub mod tools;
