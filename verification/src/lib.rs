//! A verified note repository: a single-collection document store model,
//! identifier translation, and the create/list/delete/update/search
//! operations with exact error semantics.

pub mod errors;
pub mod ids;
pub mod laws;
pub mod note;
pub mod repo;
pub mod store;
