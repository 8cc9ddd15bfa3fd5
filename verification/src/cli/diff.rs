//! The command that shows differences.

use crate::cli::report;
use crate::cli::report::{report_lines, ReportEntry};
use crate::text;
use vstd::prelude::*;

verus! {

/// The arguments of the command.
#[derive(Debug, PartialEq, Eq)]
pub struct Params {
    pub name: Option<String>,
    pub root: Option<String>,
    pub no_uses: bool,
    pub all: bool,
}

/// Whether an entry differs from what is desired.
pub open spec fn any_difference(entries: Seq<ReportEntry>) -> bool {
    exists|i: int| 0 <= i < entries.len() && (#[trigger] entries[i]).notable
}

/// What is printed of the overlay `name`, whose target is written as `target`:
/// that there are no differences, where no entry is notable.
pub fn overlay_lines(name: &str, target: &str, entries: &Vec<ReportEntry>, verbose: bool) -> (r:
    Vec<String>)
    ensures
        text::texts(r@) == report::report(
            name@,
            target@,
            if any_difference(entries@) {
                None
            } else {
                Some("no differences"@)
            },
            report::entry_views(entries@),
            verbose,
        ),
{
    let mut i: usize = 0;
    while i < entries.len()
        invariant
            i <= entries@.len(),
            forall|k: int| 0 <= k < i ==> !(#[trigger] entries@[k]).notable,
        decreases entries@.len() - i,
    {
        if entries[i].notable {
            assert(any_difference(entries@));
            return report_lines(name, target, &None, entries, verbose);
        }
        i = i + 1;
    }
    report_lines(name, target, &Some("no differences".to_owned()), entries, verbose)
}

/// There is a difference where an entry is notable, and nowhere else.
pub proof fn notable_entries_are_differences(entries: Seq<ReportEntry>)
    ensures
        any_difference(entries) <==> entries.filter(|e: ReportEntry| e.notable).len() > 0,
{
    lemma_differences(entries, entries.len());
    assert(entries.take(entries.len() as int) =~= entries);
}

proof fn lemma_differences(entries: Seq<ReportEntry>, n: nat)
    requires
        n <= entries.len(),
    ensures
        entries.take(n as int).filter(|e: ReportEntry| e.notable).len() > 0 <==> exists|i: int|
            0 <= i < n && (#[trigger] entries[i]).notable,
    decreases n,
{
    reveal(Seq::filter);
    if n > 0 {
        lemma_differences(entries, (n - 1) as nat);
        assert(entries.take(n as int).drop_last() =~= entries.take(n - 1));
        assert(entries.take(n as int).last() == entries[n - 1]);
    }
}

} // verus!
