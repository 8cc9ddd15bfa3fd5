//! What is done to bring a target in line with its overlays.

pub mod fs;
pub mod git;
pub mod install;
pub mod partial;
pub mod symlink;
