//! Overlay management for configuration files: the decisions that an overlay
//! manager takes, apart from the file system, the terminal and git itself.

pub mod actions;
pub mod blocks;
pub mod cli;
pub mod commit;
pub mod desired;
pub mod exec;
pub mod glob;
pub mod overlays;
pub mod path;
pub mod sidecar;
pub mod table;
pub mod template;
pub mod text;
pub mod uses;
