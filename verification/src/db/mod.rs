//! Stored data and the logic around the database queries.
pub mod query;
pub mod query_types;
