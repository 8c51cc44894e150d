//! Building and merging OpenAPI documents.
//!
//! The crate keeps a registry of named schemas with idempotent,
//! conflict-checked registration, turns externally described type shapes
//! into registered schema definitions (breaking recursive shapes with
//! references), folds endpoint descriptors into a single document, and
//! merges the documents of several mount points into one document under a
//! common base path.

pub mod collect;
pub mod document;
pub mod error;
pub mod gen;
pub mod merge;
pub mod registry;
pub mod schema;
