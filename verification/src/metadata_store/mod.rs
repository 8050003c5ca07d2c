//! The bounded metric metadata store: limits, accounting, batched updates, queries and the
//! durable form of its records.

pub mod accounting;
pub mod accounts;
pub mod codes;
pub mod config;
pub mod documents;
pub mod encode;
pub mod laws;
pub mod load;
pub mod outcomes;
pub mod query;
pub mod record;
pub mod store;
