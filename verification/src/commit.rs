//! Recording the changes of a virtual checkout in the repository that its files
//! come from.

use crate::desired::entry::{DesiredEntry, MaterializationIntent, Provenance};
use crate::text;
use crate::text::{concat3, counted_text, cut, join_texts};
use vstd::prelude::*;

verus! {

/// How a virtual checkout is to be committed.
#[derive(Debug, PartialEq, Eq)]
pub struct CommitOptions {
    /// The message; without one it says how many files changed.
    pub message: Option<String>,
}

/// What came of a commit.
#[derive(Debug, PartialEq, Eq)]
pub enum CommitOutcome {
    /// The entry is no virtual checkout.
    NotVirtualCheckout,
    /// Nothing changed since the last commit.
    NothingToCommit,
    /// Files changed both in the checkout and in the repository.
    Blocked { conflicting_files: Vec<String> },
    /// A commit was made.
    Committed { oid: String, files: usize },
}

/// The first `n` characters of a text, or all of it.
pub open spec fn shortened(s: Seq<char>, n: int) -> Seq<char> {
    if s.len() <= n {
        s
    } else {
        s.take(n)
    }
}

impl CommitOutcome {
    /// Whether the user has to do something.
    pub fn needs_attention(&self) -> (r: bool)
        ensures
            r == (self is Blocked),
    {
        matches!(self, CommitOutcome::Blocked { .. })
    }

    /// What is said of it.
    pub open spec fn text(&self) -> Seq<char> {
        match *self {
            CommitOutcome::NotVirtualCheckout => "not checkout-materialized"@,
            CommitOutcome::NothingToCommit => "nothing to commit"@,
            CommitOutcome::Blocked { conflicting_files } => "blocked: conflicting files ("@ + text::join(
                text::texts(conflicting_files@),
                ", "@,
            ) + ")"@,
            CommitOutcome::Committed { oid, files } => "committed "@ + text::counted(
                files as nat,
                "file"@,
            ) + " ("@ + shortened(oid@, 10) + ")"@,
        }
    }

    /// What is said of it.
    pub fn describe(&self) -> (r: String)
        ensures
            r@ == self.text(),
    {
        match self {
            CommitOutcome::NotVirtualCheckout => "not checkout-materialized".to_owned(),
            CommitOutcome::NothingToCommit => "nothing to commit".to_owned(),
            CommitOutcome::Blocked { conflicting_files } => {
                let files = join_texts(conflicting_files, ", ");
                concat3("blocked: conflicting files (", files.as_str(), ")")
            },
            CommitOutcome::Committed { oid, files } => {
                let n: usize = oid.as_str().unicode_len();
                let short = if n <= 10 {
                    oid.clone()
                } else {
                    cut(oid.as_str(), 0, 10)
                };
                let mut r = concat3("committed ", counted_text(*files, "file").as_str(), " (");
                r.append(short.as_str());
                r.append(")");
                r
            },
        }
    }
}

/// What is known of a virtual checkout before it is committed.
#[derive(Debug, PartialEq, Eq)]
pub struct CheckoutState {
    /// The files that changed on both sides.
    pub conflicting_files: Vec<String>,
    /// How many files changed in the checkout.
    pub changed_files: usize,
    /// Whether it is known where the checkout came from.
    pub recorded: bool,
}

/// The next step of a commit.
#[derive(Debug, PartialEq, Eq)]
pub enum CommitStep {
    Done(CommitOutcome),
    /// Commit the changed files with this message, in the repository that holds
    /// `source`.
    Commit { source: String, message: String },
}

/// The message of a commit without one of its own.
pub open spec fn default_text(files: nat) -> Seq<char> {
    "over commit: "@ + text::counted(files, "file"@) + " changed"@
}

/// The message of a commit without one of its own.
pub fn default_message(files: usize) -> (r: String)
    ensures
        r@ == default_text(files as nat),
{
    concat3("over commit: ", counted_text(files, "file").as_str(), " changed")
}

/// The directory of an overlay that an entry comes from.
pub open spec fn overlay_source(p: Provenance) -> Option<Seq<char>> {
    match p {
        Provenance::Overlay { overlay, source } => Some(source@),
        _ => None,
    }
}

/// The next step of the commit of an entry: it is refused for anything but a
/// virtual checkout, blocked by any conflict, and nothing without changes.
pub fn commit(entry: &DesiredEntry, state: &CheckoutState, opts: &CommitOptions) -> (r: Result<
    CommitStep,
    String,
>)
    requires
        entry.intent is VirtualCheckout ==> entry.provenance is Overlay,
    ensures
        match r {
            Ok(CommitStep::Done(CommitOutcome::NotVirtualCheckout)) => !(
            entry.intent is VirtualCheckout),
            Ok(CommitStep::Done(CommitOutcome::Blocked { conflicting_files })) =>
                entry.intent is VirtualCheckout && conflicting_files@.len() > 0
                && conflicting_files@ == state.conflicting_files@,
            Ok(CommitStep::Done(CommitOutcome::NothingToCommit)) => entry.intent is VirtualCheckout
                && state.conflicting_files@.len() == 0 && state.changed_files == 0,
            Ok(CommitStep::Done(CommitOutcome::Committed { .. })) => false,
            Ok(CommitStep::Commit { source, message }) => entry.intent is VirtualCheckout
                && state.conflicting_files@.len() == 0 && state.changed_files > 0
                && state.recorded && overlay_source(entry.provenance) == Some(source@)
                && message@ == match opts.message {
                Some(m) => m@,
                None => default_text(state.changed_files as nat),
            },
            Err(e) => entry.intent is VirtualCheckout && state.conflicting_files@.len() == 0
                && state.changed_files > 0 && !state.recorded && e@
                == "no virtual checkout association recorded for '"@ + entry.target@
                + "' \u{2014} was it materialized by `over apply`?"@,
        },
{
    match &entry.intent {
        MaterializationIntent::VirtualCheckout => {},
        _ => return Ok(CommitStep::Done(CommitOutcome::NotVirtualCheckout)),
    }
    if state.conflicting_files.len() > 0 {
        return Ok(
            CommitStep::Done(
                CommitOutcome::Blocked { conflicting_files: state.conflicting_files.clone() },
            ),
        );
    }
    if state.changed_files == 0 {
        return Ok(CommitStep::Done(CommitOutcome::NothingToCommit));
    }
    if !state.recorded {
        return Err(
            concat3(
                "no virtual checkout association recorded for '",
                entry.target.as_str(),
                "' \u{2014} was it materialized by `over apply`?",
            ),
        );
    }
    let source = match &entry.provenance {
        Provenance::Overlay { overlay, source } => source.clone(),
        _ => String::new(),
    };
    let message = match &opts.message {
        Some(m) => m.clone(),
        None => default_message(state.changed_files),
    };
    Ok(CommitStep::Commit { source, message })
}

/// Where a virtual checkout came from and what it was last level with.
#[derive(Debug, PartialEq, Eq)]
pub struct VirtualCheckoutRecord {
    pub overlay: String,
    /// The path of its files within the repository.
    pub managed_path: String,
    /// The commit that it is level with.
    pub base_oid: String,
    pub created_at: u64,
    pub last_commit_at: Option<u64>,
}

impl VirtualCheckoutRecord {
    /// Notes a commit: the checkout is level with it.
    pub fn committed(&mut self, oid: String, now: u64)
        ensures
            *final(self) == (VirtualCheckoutRecord {
                base_oid: oid,
                last_commit_at: Some(now),
                ..*old(self)
            }),
    {
        self.base_oid = oid;
        self.last_commit_at = Some(now);
    }
}

/// What came of a commit once it is made, under this name.
pub fn concluded(state: &CheckoutState, oid: String) -> (r: CommitOutcome)
    ensures
        r == (CommitOutcome::Committed { oid, files: state.changed_files }),
{
    CommitOutcome::Committed { oid, files: state.changed_files }
}

/// What came of a commit, and the record to keep of the checkout, with its
/// directory: one comes with a commit that was made, and only with that.
#[derive(Debug, PartialEq, Eq)]
pub struct Conclusion {
    pub outcome: CommitOutcome,
    pub record: Option<(String, VirtualCheckoutRecord)>,
}

impl Conclusion {
    /// Whether there is a record to keep if and only if a commit was made.
    pub open spec fn well_formed(self) -> bool {
        self.record is Some <==> self.outcome is Committed
    }

    /// Without a commit.
    pub fn without_commit(outcome: CommitOutcome) -> (r: Self)
        requires
            !(outcome is Committed),
        ensures
            r.outcome == outcome,
            r.record is None,
            r.well_formed(),
    {
        Conclusion { outcome, record: None }
    }

    /// With the commit `oid` of an entry, made at the time `now`: the checkout is
    /// level with it.
    pub fn with_commit(
        entry: &DesiredEntry,
        state: &CheckoutState,
        record: VirtualCheckoutRecord,
        oid: String,
        now: u64,
    ) -> (r: Self)
        ensures
            r.outcome == (CommitOutcome::Committed { oid, files: state.changed_files }),
            match r.record {
                Some((target, kept)) => target@ == entry.target@ && kept.base_oid@ == oid@ && kept
                    == (VirtualCheckoutRecord {
                    base_oid: kept.base_oid,
                    last_commit_at: Some(now),
                    ..record
                }),
                None => false,
            },
            r.well_formed(),
    {
        let mut record = record;
        record.committed(oid.clone(), now);
        Conclusion {
            outcome: concluded(state, oid),
            record: Some((entry.target.clone(), record)),
        }
    }
}

/// A commit is told by the first ten characters of its hash, or all of a shorter one,
/// and by how many files it holds.
pub proof fn commits_are_told_by_their_hash(oid: String, files: usize)
    ensures
        ({
            let t = (CommitOutcome::Committed { oid, files }).text();
            &&& oid@.len() >= 10 ==> t == "committed "@ + text::counted(files as nat, "file"@)
                + " ("@ + oid@.subrange(0, 10) + ")"@
            &&& oid@.len() < 10 ==> t == "committed "@ + text::counted(files as nat, "file"@)
                + " ("@ + oid@ + ")"@
        }),
{
    if oid@.len() == 10 {
        assert(oid@.subrange(0, 10) =~= oid@);
    }
}

/// What holds a commit up is told with every file that does.
pub proof fn conflicting_files_are_named(files: Vec<String>)
    ensures
        (CommitOutcome::Blocked { conflicting_files: files }).text()
            == "blocked: conflicting files ("@ + text::join(text::texts(files@), ", "@) + ")"@,
        CommitOutcome::NothingToCommit.text() == "nothing to commit"@,
        CommitOutcome::NotVirtualCheckout.text() == "not checkout-materialized"@,
{
}

/// A message that nobody wrote tells how many files changed.
pub proof fn default_messages_tell_the_files(files: nat)
    ensures
        default_text(1) == "over commit: "@ + text::decimal(1) + " file changed"@,
        files != 1 ==> default_text(files) == "over commit: "@ + text::decimal(files)
            + " files changed"@,
{
    reveal_strlit("");
    reveal_strlit("s");
    reveal_strlit(" ");
    reveal_strlit("file");
    reveal_strlit(" changed");
    reveal_strlit(" file changed");
    reveal_strlit(" files changed");
    assert(" "@ + "file"@ + ""@ + " changed"@ =~= " file changed"@);
    assert(" "@ + "file"@ + "s"@ + " changed"@ =~= " files changed"@);
    assert(default_text(1) =~= "over commit: "@ + text::decimal(1) + (" "@ + "file"@ + ""@
        + " changed"@));
    if files != 1 {
        assert(default_text(files) =~= "over commit: "@ + text::decimal(files) + (" "@ + "file"@
            + "s"@ + " changed"@));
    }
}

/// A checkout is committed to where its overlay lies.
pub proof fn checkouts_are_committed_to_their_overlay(overlay: String, source: String)
    ensures
        overlay_source(Provenance::Overlay { overlay, source }) == Some(source@),
{
}

} // verus!
