//! A personal catalog of PDF documents: each record holds a name, a
//! canonical file path, and an optional section label. The store enforces
//! name uniqueness and a path-validation gate on insertion, and offers
//! filtering and first-seen-order grouping by section.

pub mod book;
pub mod errors;
pub mod query;
pub mod store;
mod text;
pub mod validate;
