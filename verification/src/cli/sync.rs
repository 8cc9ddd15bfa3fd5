//! The command that brings checkouts and their sources level.

use crate::cli::report;
use crate::cli::report::{report_lines, ReportEntry};
use crate::text;
use crate::text::{concat3, decimal_text, join_texts};
use vstd::prelude::*;

verus! {

/// The arguments of the command.
#[derive(Debug, PartialEq, Eq)]
pub struct Params {
    pub name: Option<String>,
    pub root: Option<String>,
    pub no_uses: bool,
    pub pull_only: bool,
    pub push_only: bool,
    pub continue_: bool,
    pub abort: bool,
    pub dry_run: bool,
}

/// What is done with each checkout.
#[derive(Debug, Clone, Copy, PartialEq, Eq, Structural)]
pub struct SyncOptions {
    pub pull: bool,
    pub push: bool,
    pub abort: bool,
    pub dry_run: bool,
}

impl Params {
    /// What is done with each checkout: both directions, unless one is asked for
    /// alone. To continue is to do the same again.
    pub fn options(&self) -> (r: SyncOptions)
        ensures
            r == (SyncOptions {
                pull: !self.push_only,
                push: !self.pull_only,
                abort: self.abort,
                dry_run: self.dry_run,
            }),
    {
        SyncOptions {
            pull: !self.push_only,
            push: !self.pull_only,
            abort: self.abort,
            dry_run: self.dry_run,
        }
    }
}

/// What came of a checkout.
#[derive(Debug, PartialEq, Eq)]
pub enum SyncOutcome {
    UpToDate { path: String },
    FastForwarded { path: String },
    Merged { path: String },
    Pushed { path: String },
    Conflict { path: String },
    Blocked { path: String },
    Aborted { path: String },
}

/// The place of an outcome in the summary.
pub open spec fn outcome_rank(o: SyncOutcome) -> nat {
    match o {
        SyncOutcome::UpToDate { path } => 0,
        SyncOutcome::FastForwarded { path } => 1,
        SyncOutcome::Merged { path } => 2,
        SyncOutcome::Pushed { path } => 3,
        SyncOutcome::Conflict { path } => 4,
        SyncOutcome::Blocked { path } => 5,
        SyncOutcome::Aborted { path } => 6,
    }
}

/// The words of the summary by their place.
pub open spec fn rank_label(k: nat) -> Seq<char> {
    if k == 0 {
        "up to date"@
    } else if k == 1 {
        "fast-forwarded"@
    } else if k == 2 {
        "merged"@
    } else if k == 3 {
        "pushed"@
    } else if k == 4 {
        "conflict(s)"@
    } else if k == 5 {
        "blocked"@
    } else {
        "aborted"@
    }
}

/// How many of the first `n` outcomes have the place `k`.
pub open spec fn count(outcomes: Seq<SyncOutcome>, k: nat, n: nat) -> nat
    decreases n,
{
    if n == 0 {
        0
    } else if outcome_rank(outcomes[n - 1]) == k {
        count(outcomes, k, (n - 1) as nat) + 1
    } else {
        count(outcomes, k, (n - 1) as nat)
    }
}

/// The parts of the summary for the first `k` places: those that count anything.
pub open spec fn summary_parts(outcomes: Seq<SyncOutcome>, k: nat) -> Seq<Seq<char>>
    decreases k,
{
    if k == 0 {
        Seq::empty()
    } else {
        let before = summary_parts(outcomes, (k - 1) as nat);
        let c = count(outcomes, (k - 1) as nat, outcomes.len());
        if c > 0 {
            before.push(text::decimal(c) + " "@ + rank_label((k - 1) as nat))
        } else {
            before
        }
    }
}

impl SyncOutcome {
    fn rank(&self) -> (r: u8)
        ensures
            r == outcome_rank(*self),
            r < 7,
    {
        match self {
            SyncOutcome::UpToDate { .. } => 0,
            SyncOutcome::FastForwarded { .. } => 1,
            SyncOutcome::Merged { .. } => 2,
            SyncOutcome::Pushed { .. } => 3,
            SyncOutcome::Conflict { .. } => 4,
            SyncOutcome::Blocked { .. } => 5,
            SyncOutcome::Aborted { .. } => 6,
        }
    }

    /// Whether the user has to do something.
    pub fn needs_attention(&self) -> (r: bool)
        ensures
            r == (self is Conflict || self is Blocked),
    {
        matches!(self, SyncOutcome::Conflict { .. } | SyncOutcome::Blocked { .. })
    }

    /// Whether it is shown on a line of its own.
    pub fn is_shown(&self, verbose: bool) -> (r: bool)
        ensures
            r == (verbose || !(self is UpToDate)),
    {
        verbose || !matches!(self, SyncOutcome::UpToDate { .. })
    }
}

fn label_of(k: u8) -> (r: String)
    ensures
        r@ == rank_label(k as nat),
{
    if k == 0 {
        "up to date".to_owned()
    } else if k == 1 {
        "fast-forwarded".to_owned()
    } else if k == 2 {
        "merged".to_owned()
    } else if k == 3 {
        "pushed".to_owned()
    } else if k == 4 {
        "conflict(s)".to_owned()
    } else if k == 5 {
        "blocked".to_owned()
    } else {
        "aborted".to_owned()
    }
}

fn count_rank(outcomes: &Vec<SyncOutcome>, k: u8) -> (r: usize)
    ensures
        r == count(outcomes@, k as nat, outcomes@.len()),
{
    let mut r: usize = 0;
    let mut i: usize = 0;
    while i < outcomes.len()
        invariant
            i <= outcomes@.len(),
            r <= i,
            r == count(outcomes@, k as nat, i as nat),
        decreases outcomes@.len() - i,
    {
        if outcomes[i].rank() == k {
            r = r + 1;
        }
        i = i + 1;
    }
    r
}

/// The outcomes in one line: how many of each there are, of those that there are.
pub fn summarize(outcomes: &Vec<SyncOutcome>) -> (r: String)
    ensures
        r@ == text::join(summary_parts(outcomes@, 7), ", "@),
{
    let mut parts: Vec<String> = Vec::new();
    let mut k: u8 = 0;
    assert(text::texts(parts@) =~= Seq::<Seq<char>>::empty());
    while k < 7
        invariant
            k <= 7,
            text::texts(parts@) == summary_parts(outcomes@, k as nat),
        decreases 7 - k,
    {
        let ghost before = parts@;
        let c: usize = count_rank(outcomes, k);
        if c > 0 {
            parts.push(concat3(decimal_text(c as u64).as_str(), " ", label_of(k).as_str()));
            assert(text::texts(parts@) =~= text::texts(before).push(parts@.last()@));
        }
        k = k + 1;
    }
    join_texts(&parts, ", ")
}

/// The outcomes as what is told of an overlay: all that are not up to date are
/// notable.
pub open spec fn outcome_entries(outcomes: Seq<SyncOutcome>, texts: Seq<Seq<char>>) -> Seq<
    (Seq<char>, bool),
> {
    Seq::new(outcomes.len(), |i: int| (texts[i], !(outcomes[i] is UpToDate)))
}

/// What is printed of the overlay `name`, whose target is written as `target`, and
/// whose outcomes are written as `texts`.
pub fn overlay_lines(
    name: &str,
    target: &str,
    outcomes: &Vec<SyncOutcome>,
    texts: &Vec<String>,
    verbose: bool,
) -> (r: Vec<String>)
    requires
        texts@.len() == outcomes@.len(),
    ensures
        if outcomes@.len() > 0 {
            text::texts(r@) == report::report(
                name@,
                target@,
                Some(text::join(summary_parts(outcomes@, 7), ", "@)),
                outcome_entries(outcomes@, text::texts(texts@)),
                verbose,
            )
        } else if verbose {
            text::texts(r@) == seq![
                "Overlay "@ + name@ + " has no checkout-materialized root entry"@,
            ]
        } else {
            r@.len() == 0
        },
{
    if outcomes.len() == 0 {
        let mut r: Vec<String> = Vec::new();
        if verbose {
            r.push(concat3("Overlay ", name, " has no checkout-materialized root entry"));
            assert(text::texts(r@) =~= seq![
                "Overlay "@ + name@ + " has no checkout-materialized root entry"@,
            ]);
        }
        return r;
    }
    let mut entries: Vec<ReportEntry> = Vec::new();
    let mut i: usize = 0;
    while i < outcomes.len()
        invariant
            i <= outcomes@.len(),
            texts@.len() == outcomes@.len(),
            entries@.len() == i,
            forall|k: int|
                0 <= k < i ==> (#[trigger] entries@[k]).text@ == texts@[k]@ && entries@[k].notable
                    == !(outcomes@[k] is UpToDate),
        decreases outcomes@.len() - i,
    {
        entries.push(
            ReportEntry { text: texts[i].clone(), notable: outcomes[i].is_shown(false) },
        );
        i = i + 1;
    }
    assert(report::entry_views(entries@) =~= outcome_entries(outcomes@, text::texts(texts@)));
    report_lines(name, target, &Some(summarize(outcomes)), &entries, verbose)
}

/// The counts of a summary add up to the number of outcomes.
pub proof fn summary_counts_everything(outcomes: Seq<SyncOutcome>, n: nat)
    requires
        n <= outcomes.len(),
    ensures
        count(outcomes, 0, n) + count(outcomes, 1, n) + count(outcomes, 2, n) + count(
            outcomes,
            3,
            n,
        ) + count(outcomes, 4, n) + count(outcomes, 5, n) + count(outcomes, 6, n) == n,
    decreases n,
{
    if n > 0 {
        summary_counts_everything(outcomes, (n - 1) as nat);
    }
}

/// Whether an outcome needs the user.
pub open spec fn any_attention(outcomes: Seq<SyncOutcome>) -> bool {
    exists|i: int|
        0 <= i < outcomes.len() && (#[trigger] outcomes[i] is Conflict || outcomes[i] is Blocked)
}

/// The error of the command: that a checkout needs the user.
pub fn failure(outcomes: &Vec<SyncOutcome>) -> (r: Option<String>)
    ensures
        match r {
            Some(e) => any_attention(outcomes@) && e@
                == "one or more checkouts need attention \u{2014} see `conflict`/`blocked` entries above"@,
            None => !any_attention(outcomes@),
        },
{
    let mut i: usize = 0;
    while i < outcomes.len()
        invariant
            i <= outcomes@.len(),
            forall|k: int|
                0 <= k < i ==> !(#[trigger] outcomes@[k] is Conflict || outcomes@[k] is Blocked),
        decreases outcomes@.len() - i,
    {
        if outcomes[i].needs_attention() {
            assert(outcomes@[i as int] is Conflict || outcomes@[i as int] is Blocked);
            return Some(
                "one or more checkouts need attention \u{2014} see `conflict`/`blocked` entries above".to_owned(),
            );
        }
        i = i + 1;
    }
    None
}

/// A summary tells how often each outcome came about, and nothing of those that did
/// not.
pub proof fn summaries_tell_every_outcome(outcomes: Seq<SyncOutcome>)
    ensures
        ({
            let parts = summary_parts(outcomes, 7);
            let fresh = outcomes.filter(|o: SyncOutcome| o is UpToDate).len();
            let forwarded = outcomes.filter(|o: SyncOutcome| o is FastForwarded).len();
            let merged = outcomes.filter(|o: SyncOutcome| o is Merged).len();
            let pushed = outcomes.filter(|o: SyncOutcome| o is Pushed).len();
            let conflicts = outcomes.filter(|o: SyncOutcome| o is Conflict).len();
            let blocked = outcomes.filter(|o: SyncOutcome| o is Blocked).len();
            let aborted = outcomes.filter(|o: SyncOutcome| o is Aborted).len();
            parts == part(fresh, "up to date"@) + part(forwarded, "fast-forwarded"@) + part(
                merged,
                "merged"@,
            ) + part(pushed, "pushed"@) + part(conflicts, "conflict(s)"@) + part(
                blocked,
                "blocked"@,
            ) + part(aborted, "aborted"@)
        }),
{
    reveal_with_fuel(summary_parts, 8);
    let n = outcomes.len();
    assert(outcomes.take(n as int) =~= outcomes);
    lemma_counted(outcomes, n);
    assert(summary_parts(outcomes, 7) =~= part(count(outcomes, 0, n), "up to date"@) + part(
        count(outcomes, 1, n),
        "fast-forwarded"@,
    ) + part(count(outcomes, 2, n), "merged"@) + part(count(outcomes, 3, n), "pushed"@) + part(
        count(outcomes, 4, n),
        "conflict(s)"@,
    ) + part(count(outcomes, 5, n), "blocked"@) + part(count(outcomes, 6, n), "aborted"@));
}

/// What a summary says of an outcome that came about `n` times.
pub open spec fn part(n: nat, label: Seq<char>) -> Seq<Seq<char>> {
    if n > 0 {
        seq![text::decimal(n) + " "@ + label]
    } else {
        Seq::empty()
    }
}

proof fn lemma_counted(outcomes: Seq<SyncOutcome>, n: nat)
    requires
        n <= outcomes.len(),
    ensures
        count(outcomes, 0, n) == outcomes.take(n as int).filter(
            |o: SyncOutcome| o is UpToDate,
        ).len(),
        count(outcomes, 1, n) == outcomes.take(n as int).filter(
            |o: SyncOutcome| o is FastForwarded,
        ).len(),
        count(outcomes, 2, n) == outcomes.take(n as int).filter(|o: SyncOutcome| o is Merged).len(),
        count(outcomes, 3, n) == outcomes.take(n as int).filter(|o: SyncOutcome| o is Pushed).len(),
        count(outcomes, 4, n) == outcomes.take(n as int).filter(
            |o: SyncOutcome| o is Conflict,
        ).len(),
        count(outcomes, 5, n) == outcomes.take(n as int).filter(|o: SyncOutcome| o is Blocked).len(),
        count(outcomes, 6, n) == outcomes.take(n as int).filter(|o: SyncOutcome| o is Aborted).len(),
    decreases n,
{
    reveal(Seq::filter);
    if n > 0 {
        lemma_counted(outcomes, (n - 1) as nat);
        assert(outcomes.take(n as int).drop_last() =~= outcomes.take(n - 1));
        assert(outcomes.take(n as int).last() == outcomes[n - 1]);
    }
}

/// What was brought up to date is no news, and everything else is, each under its own
/// text.
pub proof fn everything_but_up_to_date_is_news(
    outcomes: Seq<SyncOutcome>,
    texts: Seq<Seq<char>>,
    i: int,
)
    requires
        0 <= i < outcomes.len(),
    ensures
        outcome_entries(outcomes, texts).len() == outcomes.len(),
        outcome_entries(outcomes, texts)[i].0 == texts[i],
        outcome_entries(outcomes, texts)[i].1 <==> outcomes[i] is FastForwarded
            || outcomes[i] is Merged || outcomes[i] is Pushed || outcomes[i] is Conflict
            || outcomes[i] is Blocked || outcomes[i] is Aborted,
{
}

/// Syncing fails where an outcome needs attention, whatever became of the others.
pub proof fn one_conflict_fails(outcomes: Seq<SyncOutcome>, i: int)
    requires
        0 <= i < outcomes.len(),
    ensures
        outcomes[i] is Conflict || outcomes[i] is Blocked ==> any_attention(outcomes),
        (forall|k: int|
            0 <= k < outcomes.len() && k != i ==> !(#[trigger] outcomes[k] is Conflict) && !(
            outcomes[k] is Blocked)) ==> any_attention(outcomes) == (outcomes[i] is Conflict
            || outcomes[i] is Blocked),
{
}

} // verus!
