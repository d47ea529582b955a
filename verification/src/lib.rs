//! Semantic layer of a filesystem stored as structured records: inodes,
//! directory entries and content blocks, with the translation protocol that
//! turns each kernel-facing operation into operations on that schema.

pub mod content;
pub mod driver;
pub mod errors;
pub mod flags;
pub mod handle;
pub mod laws;
pub mod store;
pub mod types;
