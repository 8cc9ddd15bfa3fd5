//! Applications that go with an overlay.

pub mod collect;
pub mod command;
pub mod config;
pub mod package;
pub mod plan;
