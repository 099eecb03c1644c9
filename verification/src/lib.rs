//! Constraint-aware neighbour generation for key-assignment search.
//!
//! A [`constraints::Constraints`] model is built once from declarative
//! clauses and a naming cache; its two operators produce legal neighbouring
//! candidates for a local-search driver.

mod builder;
pub mod config;
pub mod constraints;
pub mod laws;
pub mod model;
pub mod names;
pub mod random;
