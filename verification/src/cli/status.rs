//! The command that shows the state of overlays.

use crate::cli::report;
use crate::cli::report::{report_lines, ReportEntry};
use crate::text;
use vstd::prelude::*;

verus! {

/// The arguments of the command.
#[derive(Debug, PartialEq, Eq)]
pub struct Params {
    pub name: Option<String>,
    pub root: Option<String>,
    pub no_uses: bool,
}

/// What is printed of the overlay `name`, whose target is written as `target`, with
/// the counts of its entries.
pub fn overlay_lines(
    name: &str,
    target: &str,
    counts: String,
    entries: &Vec<ReportEntry>,
    verbose: bool,
) -> (r: Vec<String>)
    ensures
        text::texts(r@) == report::report(
            name@,
            target@,
            Some(counts@),
            report::entry_views(entries@),
            verbose,
        ),
{
    report_lines(name, target, &Some(counts), entries, verbose)
}

} // verus!
