//! A per-user note index: the tokenizer pipeline, the query builder, the
//! identifier allocator, hit selection and the session cache.

pub mod auth;
pub mod cache;
pub mod tokenizer;
pub mod query;
pub mod notes;
