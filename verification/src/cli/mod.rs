//! The commands of the program.

pub mod add;
pub mod apply;
pub mod commit;
pub mod common;
pub mod diff;
pub mod doctor;
pub mod git_over;
pub mod lint;
pub mod list;
pub mod log;
pub mod new;
pub mod report;
pub mod select;
pub mod show;
pub mod status;
pub mod sync;
pub mod unapply;

use crate::path;
use crate::path::join_path;
use vstd::prelude::*;

verus! {

/// The command line.
#[derive(Debug, PartialEq, Eq)]
pub struct CLI {
    /// The directory of the overlays.
    pub home: Option<String>,
    pub debug: bool,
    pub verbose: bool,
    pub cmd: Option<Commands>,
}

/// The commands.
#[derive(Debug, PartialEq, Eq)]
pub enum Commands {
    Add(add::Params),
    New(new::Params),
    List(list::Params),
    Show(show::Params),
    Apply(apply::Params),
    Lint(lint::Params),
    Status,
}

impl CLI {
    /// The directory of the overlays: the given one, or else `.over` in the
    /// user's home directory.
    pub fn resolve_home(&self, home_dir: &Option<String>) -> (r: Result<String, String>)
        ensures
            match (self.home, *home_dir, r) {
                (Some(h), _, Ok(p)) => p@ == h@,
                (None, Some(u), Ok(p)) => p@ == path::joined(u@, ".over"@),
                (None, None, Err(e)) => e@ == "could not determine home directory"@,
                _ => false,
            },
    {
        if let Some(home) = &self.home {
            return Ok(home.clone());
        }
        match home_dir {
            Some(user) => Ok(join_path(user.as_str(), ".over")),
            None => Err("could not determine home directory".to_owned()),
        }
    }
}

} // verus!
