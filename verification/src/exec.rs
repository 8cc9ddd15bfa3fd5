//! What a run of a command carries around.

use vstd::prelude::*;

verus! {

/// Where an overlay lies and what it covers.
#[derive(Debug, PartialEq, Eq)]
pub struct OverlayPlace {
    pub name: String,
    /// The directory that holds the overlay.
    pub root: String,
    /// The directory that the overlay covers, where it could be told.
    pub target: Option<String>,
}

/// The switches of a run, and the overlay that it is about.
#[derive(Debug, PartialEq, Eq)]
pub struct Context {
    pub dry_run: bool,
    pub debug: bool,
    pub verbose: bool,
    pub force: bool,
    pub no_prompt: bool,
    pub no_uses: bool,
    pub overlay: Option<OverlayPlace>,
}

impl Clone for OverlayPlace {
    fn clone(&self) -> (r: Self)
        ensures
            r == *self,
    {
        OverlayPlace {
            name: self.name.clone(),
            root: self.root.clone(),
            target: self.target.clone(),
        }
    }
}

impl Clone for Context {
    fn clone(&self) -> (r: Self)
        ensures
            r == *self,
    {
        Context {
            dry_run: self.dry_run,
            debug: self.debug,
            verbose: self.verbose,
            force: self.force,
            no_prompt: self.no_prompt,
            no_uses: self.no_uses,
            overlay: match &self.overlay {
                Some(o) => Some(o.clone()),
                None => None,
            },
        }
    }
}

} // verus!
