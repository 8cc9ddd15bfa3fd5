//! What is printed of one overlay.

use crate::text;
use crate::text::{concat2, concat3};
use vstd::prelude::*;

verus! {

/// Something that is told of an overlay.
#[derive(Debug, PartialEq, Eq)]
pub struct ReportEntry {
    pub text: String,
    /// Whether it is told without being asked for.
    pub notable: bool,
}

/// Entries over text: what is told, and whether it is notable.
pub open spec fn entry_views(entries: Seq<ReportEntry>) -> Seq<(Seq<char>, bool)> {
    entries.map_values(|e: ReportEntry| (e.text@, e.notable))
}

/// The first line of what is printed of an overlay.
pub open spec fn heading(name: Seq<char>, target: Seq<char>) -> Seq<char> {
    "Overlay "@ + name + " -> "@ + target
}

/// The lines of those of the first `n` entries that are told.
pub open spec fn told(entries: Seq<(Seq<char>, bool)>, verbose: bool, n: nat) -> Seq<Seq<char>>
    decreases n,
{
    if n == 0 {
        Seq::empty()
    } else {
        let before = told(entries, verbose, (n - 1) as nat);
        if verbose || entries[n - 1].1 {
            before.push("  "@ + entries[n - 1].0)
        } else {
            before
        }
    }
}

/// What is printed of an overlay: its heading, a remark, what is told of it, and
/// an empty line.
pub open spec fn report(
    name: Seq<char>,
    target: Seq<char>,
    remark: Option<Seq<char>>,
    entries: Seq<(Seq<char>, bool)>,
    verbose: bool,
) -> Seq<Seq<char>> {
    seq![heading(name, target)] + (match remark {
        Some(t) => seq!["  "@ + t],
        None => Seq::empty(),
    }) + told(entries, verbose, entries.len()) + seq![""@]
}

fn push_line(r: &mut Vec<String>, line: String)
    ensures
        text::texts(final(r)@) == text::texts(old(r)@).push(line@),
{
    r.push(line);
    assert(text::texts(r@) =~= text::texts(old(r)@).push(line@));
}

/// What is printed of the overlay `name`, whose target is written as `target`.
pub fn report_lines(
    name: &str,
    target: &str,
    remark: &Option<String>,
    entries: &Vec<ReportEntry>,
    verbose: bool,
) -> (r: Vec<String>)
    ensures
        text::texts(r@) == report(
            name@,
            target@,
            text::opt_text(*remark),
            entry_views(entries@),
            verbose,
        ),
{
    let mut r: Vec<String> = Vec::new();
    assert(text::texts(r@) =~= Seq::<Seq<char>>::empty());
    push_line(&mut r, concat2(concat3("Overlay ", name, " -> ").as_str(), target));
    if let Some(t) = remark {
        push_line(&mut r, concat2("  ", t.as_str()));
    }
    let ghost start = text::texts(r@);
    assert(start =~= seq![heading(name@, target@)] + (match text::opt_text(*remark) {
        Some(t) => seq!["  "@ + t],
        None => Seq::empty(),
    }));
    let ghost all = entry_views(entries@);
    let mut i: usize = 0;
    assert(start =~= start + told(all, verbose, 0));
    while i < entries.len()
        invariant
            i <= entries@.len(),
            all == entry_views(entries@),
            text::texts(r@) == start + told(all, verbose, i as nat),
        decreases entries@.len() - i,
    {
        let ghost before = told(all, verbose, i as nat);
        assert(all[i as int] == (entries@[i as int].text@, entries@[i as int].notable));
        if verbose || entries[i].notable {
            push_line(&mut r, concat2("  ", entries[i].text.as_str()));
            assert(text::texts(r@) =~= start + before.push("  "@ + entries@[i as int].text@));
        }
        i = i + 1;
    }
    let ghost body = text::texts(r@);
    push_line(&mut r, "".to_owned());
    assert(text::texts(r@) =~= body + seq![""@]);
    r
}

/// A report opens with the overlay and where it goes, tells what there is to say of it
/// as a whole, then tells what is notable, or everything where it is asked to, each on
/// a line of its own, and ends with an empty line.
pub proof fn reports_tell_what_is_notable(
    name: Seq<char>,
    target: Seq<char>,
    remark: Option<Seq<char>>,
    entries: Seq<(Seq<char>, bool)>,
    verbose: bool,
)
    ensures
        ({
            let lines = report(name, target, remark, entries, verbose);
            let told = if verbose {
                entries
            } else {
                entries.filter(|e: (Seq<char>, bool)| e.1)
            };
            let start: int = if remark is Some {
                2
            } else {
                1
            };
            &&& lines.len() == start + told.len() + 1
            &&& lines[0] == "Overlay "@ + name + " -> "@ + target
            &&& remark is Some ==> lines[1] == "  "@ + remark->0
            &&& forall|k: int| 0 <= k < told.len() ==> #[trigger] lines[start + k] == "  "@ + told[k].0
            &&& lines.last() == ""@
        }),
{
    lemma_told(entries, verbose, entries.len());
    assert(entries.take(entries.len() as int) =~= entries);
}

proof fn lemma_told(entries: Seq<(Seq<char>, bool)>, verbose: bool, n: nat)
    requires
        n <= entries.len(),
    ensures
        told(entries, verbose, n) == (if verbose {
            entries.take(n as int)
        } else {
            entries.take(n as int).filter(|e: (Seq<char>, bool)| e.1)
        }).map_values(|e: (Seq<char>, bool)| "  "@ + e.0),
    decreases n,
{
    reveal(Seq::filter);
    if n > 0 {
        lemma_told(entries, verbose, (n - 1) as nat);
        assert(entries.take(n as int).drop_last() =~= entries.take(n - 1));
        assert(entries.take(n as int).last() == entries[n - 1]);
    }
    assert(told(entries, verbose, n) =~= (if verbose {
        entries.take(n as int)
    } else {
        entries.take(n as int).filter(|e: (Seq<char>, bool)| e.1)
    }).map_values(|e: (Seq<char>, bool)| "  "@ + e.0));
}

} // verus!
