//! The command that takes an overlay back.

use vstd::prelude::*;

verus! {

/// The arguments of the command.
#[derive(Debug, PartialEq, Eq)]
pub struct Params {
    pub name: Option<String>,
    pub root: Option<String>,
    pub dry_run: bool,
}

/// What came of an entry.
#[derive(Debug, Clone, Copy, PartialEq, Eq, Structural)]
pub enum Outcome {
    /// There was nothing.
    AlreadyAbsent,
    /// It was taken back.
    Removed,
    /// It was left as it is.
    Skipped,
}

impl Outcome {
    /// Whether it is shown.
    pub fn is_shown(&self, verbose: bool) -> (r: bool)
        ensures
            r == (verbose || !(self is AlreadyAbsent)),
    {
        match self {
            Outcome::AlreadyAbsent => verbose,
            _ => true,
        }
    }
}

/// The error of the command: that an entry was left as it is.
pub fn failure(outcomes: &Vec<Outcome>) -> (r: Option<String>)
    ensures
        match r {
            Some(e) => (exists|i: int| 0 <= i < outcomes@.len() && #[trigger] outcomes@[i] is Skipped)
                && e@
                == "one or more entries were left untouched \u{2014} see `skip:` lines above"@,
            None => forall|i: int|
                0 <= i < outcomes@.len() ==> !(#[trigger] outcomes@[i] is Skipped),
        },
{
    let mut i: usize = 0;
    while i < outcomes.len()
        invariant
            i <= outcomes@.len(),
            forall|k: int| 0 <= k < i ==> !(#[trigger] outcomes@[k] is Skipped),
        decreases outcomes@.len() - i,
    {
        if outcomes[i] == Outcome::Skipped {
            assert(outcomes@[i as int] is Skipped);
            return Some(
                "one or more entries were left untouched \u{2014} see `skip:` lines above".to_owned(),
            );
        }
        i = i + 1;
    }
    None
}

} // verus!
