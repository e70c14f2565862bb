//! A query-time resolution engine for a schema-typed entity store with
//! interface polymorphism: selection planning with fragment merging,
//! interface fan-out with globally ordered results, and relation
//! resolution against an in-memory store.

pub mod value;
pub mod schema;
pub mod store;
pub mod errors;
pub mod query;
pub mod plan;
pub mod exec;
pub mod object_or_interface;
pub mod resolver;
pub mod laws;
