//! The command that checks descriptors.

use crate::cli::doctor;
use crate::cli::doctor::{count_findings, failure, summary, Finding, Severity};
use crate::text;
use vstd::prelude::*;

verus! {

/// The arguments of the command: there are none.
#[derive(Debug, Clone, Copy, PartialEq, Eq, Structural)]
pub struct Params {}

/// What the command says and how it ends.
#[derive(Debug, PartialEq, Eq)]
pub struct Outcome {
    /// The lines behind the diagnostics.
    pub summary: String,
    /// The error of the command.
    pub failure: Option<String>,
}

/// What the command says behind the diagnostics: how many errors and warnings
/// there are, or that there is nothing; it fails where there are errors.
pub fn lint_outcome(diagnostics: &Vec<Finding>) -> (r: Outcome)
    ensures
        ({
            let errors = doctor::count(diagnostics@, Severity::Error, diagnostics@.len());
            let warnings = doctor::count(diagnostics@, Severity::Warning, diagnostics@.len());
            &&& r.summary@ == doctor::summary_text(errors, warnings)
            &&& match r.failure {
                Some(e) => errors > 0 && e@ == "lint"@ + " found "@ + text::counted(errors, "error"@),
                None => errors == 0,
            }
        }),
{
    let errors: usize = count_findings(diagnostics, Severity::Error);
    let warnings: usize = count_findings(diagnostics, Severity::Warning);
    Outcome { summary: summary(errors, warnings), failure: failure("lint", errors) }
}

} // verus!
