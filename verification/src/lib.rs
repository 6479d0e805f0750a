//! A file-indexing library: it catalogs the regular files of a directory
//! tree into a persistent store keyed by absolute path, and answers two
//! queries over that store: which files are likely duplicates (same name
//! and size) and which files are the largest.

pub mod fs_tree;
pub mod index;
pub mod query;
pub mod record;
mod sql;
pub mod store;
