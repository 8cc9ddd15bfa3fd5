//! How a checkout takes in the changes of its upstream and sends its own.

use crate::text;
use crate::text::{concat2, concat3};
use vstd::prelude::*;

verus! {

/// How the changes of the upstream were taken in.
#[derive(Debug, Clone, Copy, PartialEq, Eq, Structural)]
pub enum PullOutcome {
    /// There is no branch, or no upstream to compare it with.
    NoUpstream,
    /// There is nothing to take in.
    UpToDate,
    /// The branch was moved forward.
    FastForwarded,
    /// A merge was committed.
    Merged,
    /// The merge left conflicts, which the user resolves.
    Conflict,
}

/// The head of a repository.
#[derive(Debug, PartialEq, Eq)]
pub struct Head {
    pub is_branch: bool,
    /// Its short name, where it is text.
    pub shorthand: Option<String>,
    pub upstream: Upstream,
}

/// The upstream of a branch.
#[derive(Debug, PartialEq, Eq)]
pub enum Upstream {
    Missing,
    /// A reference whose name is not text.
    Unnamed,
    Reference(String),
}

/// What a merge would have to do.
#[derive(Debug, Clone, Copy, PartialEq, Eq, Structural)]
pub struct Analysis {
    pub up_to_date: bool,
    pub fast_forward: bool,
    pub normal: bool,
}

/// How far a pull has come.
#[derive(Debug, PartialEq, Eq)]
pub enum Pull {
    /// The upstream is to be fetched, and then compared with the branch.
    Fetch { branch: String, upstream: String },
    /// The branch is to be moved to the upstream, with this note.
    FastForward { reference: String, note: String },
    /// The upstream is to be merged into the working tree.
    Merge { upstream: String },
    /// The merge is to be committed, with this message.
    Commit { message: String },
    Done(PullOutcome),
    Failed(String),
}

/// [`Pull`] over text.
#[allow(inconsistent_fields)]
pub enum PullView {
    Fetch { branch: Seq<char>, upstream: Seq<char> },
    FastForward { reference: Seq<char>, note: Seq<char> },
    Merge { upstream: Seq<char> },
    Commit { message: Seq<char> },
    Done(PullOutcome),
    Failed(Seq<char>),
}

impl View for Pull {
    type V = PullView;

    open spec fn view(&self) -> PullView {
        match *self {
            Pull::Fetch { branch, upstream } => PullView::Fetch {
                branch: branch@,
                upstream: upstream@,
            },
            Pull::FastForward { reference, note } => PullView::FastForward {
                reference: reference@,
                note: note@,
            },
            Pull::Merge { upstream } => PullView::Merge { upstream: upstream@ },
            Pull::Commit { message } => PullView::Commit { message: message@ },
            Pull::Done(o) => PullView::Done(o),
            Pull::Failed(e) => PullView::Failed(e@),
        }
    }
}

/// What happened to the repository.
#[derive(Debug, Clone, Copy, PartialEq, Eq, Structural)]
pub enum PullEvent {
    /// The upstream was fetched and compared.
    Analyzed(Analysis),
    /// The branch was moved.
    Moved,
    /// The upstream was merged, with conflicts or not.
    Merged { conflicts: bool },
    /// The merge was committed.
    Committed,
}

/// The first step of a pull.
pub open spec fn opening(head: Head) -> PullView {
    if !head.is_branch {
        PullView::Done(PullOutcome::NoUpstream)
    } else {
        match (text::opt_text(head.shorthand), head.upstream) {
            (None, _) => PullView::Failed("current branch name is not valid UTF-8"@),
            (Some(_), Upstream::Missing) => PullView::Done(PullOutcome::NoUpstream),
            (Some(_), Upstream::Unnamed) => PullView::Failed(
                "upstream ref name is not valid UTF-8"@,
            ),
            (Some(branch), Upstream::Reference(upstream)) => PullView::Fetch {
                branch,
                upstream: upstream@,
            },
        }
    }
}

/// The step after an event; an event that does not belong to the state of the
/// pull leaves it as it is.
pub open spec fn following(state: PullView, event: PullEvent) -> PullView {
    match (state, event) {
        (PullView::Fetch { branch, upstream }, PullEvent::Analyzed(a)) => if a.up_to_date {
            PullView::Done(PullOutcome::UpToDate)
        } else if a.fast_forward {
            PullView::FastForward {
                reference: "refs/heads/"@ + branch,
                note: "over sync: fast-forward"@,
            }
        } else if a.normal {
            PullView::Merge { upstream }
        } else {
            PullView::Done(PullOutcome::UpToDate)
        },
        (PullView::FastForward { reference, note }, PullEvent::Moved) => PullView::Done(
            PullOutcome::FastForwarded,
        ),
        (PullView::Merge { upstream }, PullEvent::Merged { conflicts }) => if conflicts {
            PullView::Done(PullOutcome::Conflict)
        } else {
            PullView::Commit { message: "Merge '"@ + upstream + "' via `over sync`"@ }
        },
        (PullView::Commit { message }, PullEvent::Committed) => PullView::Done(
            PullOutcome::Merged,
        ),
        _ => state,
    }
}

impl Pull {
    /// The first step of a pull into the branch of `head`.
    pub fn start(head: Head) -> (r: Self)
        ensures
            r@ == opening(head),
    {
        if !head.is_branch {
            return Pull::Done(PullOutcome::NoUpstream);
        }
        let branch = match head.shorthand {
            Some(b) => b,
            None => return Pull::Failed("current branch name is not valid UTF-8".to_owned()),
        };
        match head.upstream {
            Upstream::Missing => Pull::Done(PullOutcome::NoUpstream),
            Upstream::Unnamed => Pull::Failed("upstream ref name is not valid UTF-8".to_owned()),
            Upstream::Reference(upstream) => Pull::Fetch { branch, upstream },
        }
    }

    /// The step after an event.
    pub fn next(self, event: PullEvent) -> (r: Self)
        ensures
            r@ == following(self@, event),
    {
        match (self, event) {
            (Pull::Fetch { branch, upstream }, PullEvent::Analyzed(a)) => {
                if a.up_to_date {
                    Pull::Done(PullOutcome::UpToDate)
                } else if a.fast_forward {
                    Pull::FastForward {
                        reference: concat2("refs/heads/", branch.as_str()),
                        note: "over sync: fast-forward".to_owned(),
                    }
                } else if a.normal {
                    Pull::Merge { upstream }
                } else {
                    Pull::Done(PullOutcome::UpToDate)
                }
            },
            (Pull::FastForward { reference, note }, PullEvent::Moved) => Pull::Done(
                PullOutcome::FastForwarded,
            ),
            (Pull::Merge { upstream }, PullEvent::Merged { conflicts }) => {
                if conflicts {
                    Pull::Done(PullOutcome::Conflict)
                } else {
                    Pull::Commit {
                        message: concat3("Merge '", upstream.as_str(), "' via `over sync`"),
                    }
                }
            },
            (Pull::Commit { message }, PullEvent::Committed) => Pull::Done(PullOutcome::Merged),
            (state, _) => state,
        }
    }
}

/// The step after the first `n` events.
pub open spec fn reached(head: Head, events: Seq<PullEvent>, n: nat) -> PullView
    decreases n,
{
    if n == 0 {
        opening(head)
    } else {
        following(reached(head, events, (n - 1) as nat), events[n - 1])
    }
}

/// A pull ends with a conflict only after a merge that left conflicts, and it
/// never commits such a merge: once there, it stays there.
pub proof fn conflicts_end_a_pull(head: Head, events: Seq<PullEvent>, n: nat, m: nat)
    requires
        n <= m <= events.len(),
    ensures
        reached(head, events, n) == PullView::Done(PullOutcome::Conflict) ==> reached(
            head,
            events,
            m,
        ) == PullView::Done(PullOutcome::Conflict) && exists|k: int|
            0 <= k < n && #[trigger] events[k] == (PullEvent::Merged { conflicts: true }),
    decreases m,
{
    if n < m {
        conflicts_end_a_pull(head, events, n, (m - 1) as nat);
    } else if n > 0 {
        let before = reached(head, events, (n - 1) as nat);
        if before == PullView::Done(PullOutcome::Conflict) {
            conflicts_end_a_pull(head, events, (n - 1) as nat, (m - 1) as nat);
        }
    }
}

/// A pull that is over stays as it is, whatever happens.
pub proof fn a_finished_pull_stays(head: Head, events: Seq<PullEvent>, n: nat, m: nat)
    requires
        n <= m <= events.len(),
        reached(head, events, n) is Done || reached(head, events, n) is Failed,
    ensures
        reached(head, events, m) == reached(head, events, n),
    decreases m,
{
    if n < m {
        a_finished_pull_stays(head, events, n, (m - 1) as nat);
    }
}

/// The refspec that sends a branch to the same name at `origin`.
pub fn push_branch(branch: &str) -> (r: String)
    ensures
        r@ == "refs/heads/"@ + branch@ + ":refs/heads/"@ + branch@,
{
    let mut r = concat3("refs/heads/", branch, ":refs/heads/");
    r.append(branch);
    r
}

/// The author of a merge: who is configured, or else the tool itself.
pub fn signature(configured: Option<(String, String)>) -> (r: (String, String))
    ensures
        match configured {
            Some(who) => r == who,
            None => r.0@ == "over"@ && r.1@ == "over@localhost"@,
        },
{
    match configured {
        Some(who) => who,
        None => ("over".to_owned(), "over@localhost".to_owned()),
    }
}

/// Nothing is pulled off a branch or where the branch follows none; else what the
/// branch follows is fetched.
pub proof fn pulls_follow_the_upstream(head: Head)
    ensures
        !head.is_branch ==> opening(head) == PullView::Done(PullOutcome::NoUpstream),
        head.is_branch && head.shorthand is Some && head.upstream is Missing ==> opening(head)
            == PullView::Done(PullOutcome::NoUpstream),
        head.is_branch && head.shorthand is Some ==> (head.upstream matches Upstream::Reference(
            u,
        ) ==> opening(head) == (PullView::Fetch { branch: head.shorthand->0@, upstream: u@ })),
        head.is_branch && (head.shorthand is None || head.upstream is Unnamed) ==> opening(
            head,
        ) is Failed,
{
}

/// Once fetched, a branch that has everything stays, one that can be moved is moved,
/// and only one that cannot is merged; a merge without conflicts is committed, and
/// one with conflicts ends the pull.
pub proof fn pulls_merge_only_where_they_must(
    branch: Seq<char>,
    upstream: Seq<char>,
    a: Analysis,
    conflicts: bool,
    text: Seq<char>,
)
    ensures
        ({
            let next = following(PullView::Fetch { branch, upstream }, PullEvent::Analyzed(a));
            &&& a.up_to_date ==> next == PullView::Done(PullOutcome::UpToDate)
            &&& !a.up_to_date && a.fast_forward ==> next is FastForward && next->reference
                == "refs/heads/"@ + branch
            &&& !a.up_to_date && !a.fast_forward && a.normal ==> next == (PullView::Merge { upstream })
            &&& !a.up_to_date && !a.fast_forward && !a.normal ==> next == PullView::Done(
                PullOutcome::UpToDate,
            )
        }),
        following(PullView::FastForward { reference: branch, note: text }, PullEvent::Moved)
            == PullView::Done(PullOutcome::FastForwarded),
        following(PullView::Merge { upstream }, PullEvent::Merged { conflicts: true })
            == PullView::Done(PullOutcome::Conflict),
        following(PullView::Merge { upstream }, PullEvent::Merged { conflicts: false }) == (
        PullView::Commit { message: "Merge '"@ + upstream + "' via `over sync`"@ }),
        following(PullView::Commit { message: text }, PullEvent::Committed) == PullView::Done(
            PullOutcome::Merged,
        ),
{
}

} // verus!
