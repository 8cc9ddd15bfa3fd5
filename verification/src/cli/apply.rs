//! The command that applies an overlay.

use vstd::prelude::*;

verus! {

/// The arguments of the command.
#[derive(Debug, PartialEq, Eq)]
pub struct Params {
    pub name: Option<String>,
    pub root: Option<String>,
    pub dry_run: bool,
    pub force: bool,
    pub no_prompt: bool,
    pub no_uses: bool,
    pub install: bool,
}

} // verus!
