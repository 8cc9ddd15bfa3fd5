//! The state that overlays ask for, as a list of entries in the file system.

pub mod entry;
pub mod order;
pub mod tree;
