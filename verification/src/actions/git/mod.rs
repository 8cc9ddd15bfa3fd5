//! The git repositories of an overlay.

pub mod config;
pub mod progress;
pub mod remotes;
pub mod setup;
pub mod sync;

use crate::actions::git::config::{GitRepoConfig, RepoView};
use crate::path;
use crate::path::join_path;
use crate::text;
use crate::text::{concat2, concat3, decimal_text, join_texts, same, split_at_char, trim_endings};
use vstd::prelude::*;

verus! {

/// Where the repository that is declared under `path` goes, for an overlay that
/// covers `to`.
pub open spec fn repository_target(path: Seq<char>, to: Seq<char>) -> Seq<char> {
    if path == config::root_path() {
        to
    } else {
        path::joined(to, path)
    }
}

/// The clones of repositories of the overlay `name`, in their order.
pub open spec fn clones(
    repos: Seq<(String, GitRepoConfig)>,
    name: Seq<char>,
    to: Seq<char>,
) -> Seq<EnsureView> {
    repos.map_values(
        |p: (String, GitRepoConfig)|
            EnsureView { path: repository_target(p.0@, to), config: p.1@, overlay_name: name },
    )
}

/// The clones over text.
pub open spec fn ensure_views(v: Seq<EnsureGitRepository>) -> Seq<EnsureView> {
    v.map_values(|e: EnsureGitRepository| e@)
}

/// The clones of the repositories of the overlay `name`, which covers `to`.
pub fn clone_repositories(
    repos: &Vec<(String, GitRepoConfig)>,
    overlay_name: &str,
    to: &str,
) -> (r: Vec<EnsureGitRepository>)
    ensures
        ensure_views(r@) == clones(repos@, overlay_name@, to@),
{
    let mut r: Vec<EnsureGitRepository> = Vec::new();
    let ghost all = clones(repos@, overlay_name@, to@);
    let mut i: usize = 0;
    assert(ensure_views(r@) =~= all.take(0));
    while i < repos.len()
        invariant
            i <= repos@.len(),
            all == clones(repos@, overlay_name@, to@),
            ensure_views(r@) == all.take(i as int),
        decreases repos@.len() - i,
    {
        let target = if same(repos[i].0.as_str(), ".") {
            to.to_owned()
        } else {
            join_path(to, repos[i].0.as_str())
        };
        let ghost before = r@;
        let e = EnsureGitRepository::new(target, repos[i].1.clone(), overlay_name.to_owned());
        r.push(e);
        assert(ensure_views(r@) =~= ensure_views(before).push(all[i as int]));
        assert(ensure_views(r@) =~= all.take(i + 1));
        i = i + 1;
    }
    assert(all.take(repos@.len() as int) =~= all);
    r
}

/// How a clone ended.
#[derive(Debug, PartialEq, Eq)]
pub enum CloneResult {
    Done,
    Failed(String),
    /// The task that ran it broke off.
    Panicked(String),
}

/// What is to say of a clone.
pub open spec fn complaint(r: CloneResult) -> Seq<Seq<char>> {
    match r {
        CloneResult::Done => Seq::empty(),
        CloneResult::Failed(e) => seq![e@],
        CloneResult::Panicked(e) => seq!["clone task panicked: "@ + e@],
    }
}

/// What is to say of the first `n` clones.
pub open spec fn complaints(r: Seq<CloneResult>, n: nat) -> Seq<Seq<char>>
    decreases n,
{
    if n == 0 {
        Seq::empty()
    } else {
        complaints(r, (n - 1) as nat) + complaint(r[n - 1])
    }
}

/// The error of a set of clones: all that failed, and nothing where none did.
pub fn clone_failure(results: &Vec<CloneResult>) -> (r: Option<String>)
    ensures
        ({
            let all = complaints(results@, results@.len());
            match r {
                None => all.len() == 0,
                Some(m) => all.len() > 0 && m@ == "Failed to clone "@ + text::decimal(all.len())
                    + " repositories:\n  "@ + text::join(all, "\n  "@),
            }
        }),
{
    let mut errors: Vec<String> = Vec::new();
    let mut i: usize = 0;
    assert(text::texts(errors@) =~= Seq::<Seq<char>>::empty());
    while i < results.len()
        invariant
            i <= results@.len(),
            text::texts(errors@) == complaints(results@, i as nat),
        decreases results@.len() - i,
    {
        let ghost before = errors@;
        match &results[i] {
            CloneResult::Done => {
                assert(text::texts(errors@) =~= text::texts(before) + complaint(results@[i as int]));
            },
            CloneResult::Failed(e) => {
                errors.push(e.clone());
                assert(text::texts(errors@) =~= text::texts(before) + complaint(results@[i as int]));
            },
            CloneResult::Panicked(e) => {
                errors.push(concat2("clone task panicked: ", e.as_str()));
                assert(text::texts(errors@) =~= text::texts(before) + complaint(results@[i as int]));
            },
        }
        i = i + 1;
    }
    assert(text::texts(errors@).len() == errors@.len());
    if errors.len() == 0 {
        return None;
    }
    let mut m = concat2("Failed to clone ", decimal_text(errors.len() as u64).as_str());
    m.append(" repositories:\n  ");
    m.append(join_texts(&errors, "\n  ").as_str());
    Some(m)
}

/// Makes sure that a repository is there and is set up as declared.
#[derive(Debug, PartialEq, Eq)]
pub struct EnsureGitRepository {
    /// Where it goes.
    pub path: String,
    pub config: GitRepoConfig,
    /// The overlay that declares it.
    pub overlay_name: String,
}

/// [`EnsureGitRepository`] over text.
pub struct EnsureView {
    pub path: Seq<char>,
    pub config: RepoView,
    pub overlay_name: Seq<char>,
}

impl View for EnsureGitRepository {
    type V = EnsureView;

    open spec fn view(&self) -> EnsureView {
        EnsureView {
            path: self.path@,
            config: self.config@,
            overlay_name: self.overlay_name@,
        }
    }
}

/// A clone that is to be made.
#[derive(Debug, PartialEq, Eq)]
pub struct CloneRequest {
    pub url: String,
    pub into: String,
    pub branch: Option<String>,
    pub bare: bool,
    pub recurse_submodules: bool,
}

/// One thing to do with a repository that is there.
#[derive(Debug, PartialEq, Eq, Clone, Copy, Structural)]
pub enum SetupStep {
    /// Check out the declared tag or revision.
    Checkout,
    /// Add and correct the declared remotes.
    Remotes,
    /// Add the declared worktrees.
    Worktrees,
    /// Write the declared configuration.
    Config,
    /// Write the configuration that worktrees need.
    PerWorktreeConfig,
    /// Note the overlay in the configuration of the repository.
    Associate,
}

/// Whether a repository is cloned bare, with worktrees beside it.
pub open spec fn bare(config: RepoView) -> bool {
    config.worktree || config.worktrees is Some
}

/// What is done with a repository that is there, in order.
pub open spec fn setup_steps(config: RepoView) -> Seq<SetupStep> {
    (if bare(config) {
        Seq::<SetupStep>::empty()
    } else {
        seq![SetupStep::Checkout]
    }) + (if config.remotes is Some {
        seq![SetupStep::Remotes]
    } else {
        Seq::empty()
    }) + (if bare(config) {
        seq![SetupStep::Worktrees]
    } else {
        Seq::empty()
    }) + (if config.config is Some {
        seq![SetupStep::Config]
    } else {
        Seq::empty()
    }) + seq![SetupStep::PerWorktreeConfig, SetupStep::Associate]
}

/// The name of a repository: the last part of its URL, without `.git`.
pub open spec fn short_name(url: Seq<char>) -> Seq<char> {
    text::without_endings(text::split(url, '/').last(), ".git"@)
}

impl EnsureGitRepository {
    pub fn new(path: String, config: GitRepoConfig, overlay_name: String) -> (r: Self)
        ensures
            r == (EnsureGitRepository { path, config, overlay_name }),
    {
        EnsureGitRepository { path, config, overlay_name }
    }

    /// The name of the repository: the last part of its URL, without `.git`.
    pub fn short_name(&self) -> (r: String)
        ensures
            r@ == short_name(self.config.url@),
    {
        let parts = split_at_char(self.config.url.as_str(), '/');
        proof {
            text::lemma_split_from_len(self.config.url@, '/', 0);
            assert(text::texts(parts@).len() == parts@.len());
            assert(text::texts(parts@).last() == parts@.last()@);
        }
        trim_endings(parts[parts.len() - 1].as_str(), ".git")
    }

    /// The action as it is shown.
    pub fn label(&self) -> (r: String)
        ensures
            r@ == self.path@ + " -> "@ + self.config.url@,
    {
        concat3(self.path.as_str(), " -> ", self.config.url.as_str())
    }

    /// Whether the repository is cloned bare.
    pub fn is_bare(&self) -> (r: bool)
        ensures
            r == bare(self.config@),
    {
        self.config.worktree || self.config.worktrees.is_some()
    }

    /// The directory of the repository.
    pub open spec fn repository(&self) -> Seq<char> {
        if bare(self.config@) {
            path::joined(self.path@, ".git"@)
        } else {
            self.path@
        }
    }

    /// The directory of the repository: `.git` below its path where it is bare.
    pub fn repository_path(&self) -> (r: String)
        ensures
            r@ == self.repository(),
    {
        if self.is_bare() {
            join_path(self.path.as_str(), ".git")
        } else {
            self.path.clone()
        }
    }

    /// What must exist for the repository to be there: `.git` below its path, so
    /// that an empty directory does not pass for a repository.
    pub fn probe_path(&self) -> (r: String)
        ensures
            r@ == path::joined(self.path@, ".git"@),
    {
        join_path(self.path.as_str(), ".git")
    }

    /// The clone to make, for a repository that is `found` or not.
    pub fn clone_step(&self, found: bool, dry_run: bool) -> (r: Option<CloneRequest>)
        ensures
            r is Some == (!found && !dry_run),
            match r {
                Some(c) => c.url@ == self.config.url@ && c.into@ == self.repository() && text::opt_text(
                    c.branch,
                ) == text::opt_text(self.config.branch) && c.bare == bare(self.config@)
                    && c.recurse_submodules == (self.config.recurse_submodules && !c.bare),
                None => true,
            },
    {
        if found || dry_run {
            return None;
        }
        let is_bare = self.is_bare();
        Some(
            CloneRequest {
                url: self.config.url.clone(),
                into: self.repository_path(),
                branch: self.config.branch.clone(),
                bare: is_bare,
                recurse_submodules: self.config.recurse_submodules && !is_bare,
            },
        )
    }

    /// What is shown in place of a finished clone.
    pub fn finish_message(&self, found: bool, dry_run: bool, verbose: bool) -> (r: Option<String>)
        ensures
            match r {
                Some(m) => found && !dry_run && verbose && m@ == "Repository exists"@,
                None => !found || dry_run || !verbose,
            },
    {
        if found && !dry_run && verbose {
            Some("Repository exists".to_owned())
        } else {
            None
        }
    }

    /// What is done with the repository once it is `present`.
    pub fn setup(&self, present: bool, dry_run: bool) -> (r: Vec<SetupStep>)
        ensures
            r@ == if present && !dry_run {
                setup_steps(self.config@)
            } else {
                Seq::empty()
            },
            !present || dry_run ==> r@.len() == 0,
            present && !dry_run ==> {
                let worktrees = self.config.worktree || self.config.worktrees is Some;
                &&& r@.no_duplicates()
                &&& r@.contains(SetupStep::Checkout) <==> !worktrees
                &&& r@.contains(SetupStep::Remotes) <==> self.config.remotes is Some
                &&& r@.contains(SetupStep::Worktrees) <==> worktrees
                &&& r@.contains(SetupStep::Config) <==> self.config.config is Some
                &&& r@.contains(SetupStep::PerWorktreeConfig)
                &&& r@.contains(SetupStep::Associate)
            },
    {
        let mut r: Vec<SetupStep> = Vec::new();
        if !present || dry_run {
            return r;
        }
        let is_bare = self.is_bare();
        if !is_bare {
            r.push(SetupStep::Checkout);
        }
        if self.config.remotes.is_some() {
            r.push(SetupStep::Remotes);
        }
        if is_bare {
            r.push(SetupStep::Worktrees);
        }
        if self.config.config.is_some() {
            r.push(SetupStep::Config);
        }
        r.push(SetupStep::PerWorktreeConfig);
        r.push(SetupStep::Associate);
        assert(r@ =~= setup_steps(self.config@));
        proof {
            repositories_are_set_up_as_declared(self.config@);
        }
        r
    }
}

/// A repository that is there is set up with all that is declared of it, bare or
/// not: its remotes where there are any, its configuration where there is one, the
/// checkout where it has no worktrees and else the worktrees, and always what
/// worktrees need and the name of the overlay. Nothing is done twice.
pub proof fn repositories_are_set_up_as_declared(config: RepoView)
    ensures
        ({
            let steps = setup_steps(config);
            let worktrees = config.worktree || config.worktrees is Some;
            &&& steps.no_duplicates()
            &&& steps.contains(SetupStep::Checkout) <==> !worktrees
            &&& steps.contains(SetupStep::Remotes) <==> config.remotes is Some
            &&& steps.contains(SetupStep::Worktrees) <==> worktrees
            &&& steps.contains(SetupStep::Config) <==> config.config is Some
            &&& steps.contains(SetupStep::PerWorktreeConfig)
            &&& steps.contains(SetupStep::Associate)
        }),
{
    let steps = setup_steps(config);
    let worktrees = config.worktree || config.worktrees is Some;
    let a: int = if worktrees {
        0
    } else {
        1
    };
    let b: int = a + if config.remotes is Some {
        1int
    } else {
        0
    };
    let c: int = b + if worktrees {
        1int
    } else {
        0
    };
    let d: int = c + if config.config is Some {
        1int
    } else {
        0
    };
    assert(steps.len() == d + 2);
    assert(!worktrees ==> steps[0] == SetupStep::Checkout);
    assert(config.remotes is Some ==> steps[a] == SetupStep::Remotes);
    assert(worktrees ==> steps[b] == SetupStep::Worktrees);
    assert(config.config is Some ==> steps[c] == SetupStep::Config);
    assert(steps[d] == SetupStep::PerWorktreeConfig);
    assert(steps[d + 1] == SetupStep::Associate);
}

/// A repository is set up in a fixed order: the checkout comes first, the remotes
/// are there before the worktrees, both before the configuration, and the overlay
/// is noted last.
pub proof fn repositories_are_set_up_in_order(config: RepoView, i: int, j: int)
    requires
        0 <= i < j < setup_steps(config).len(),
    ensures
        ({
            let first = setup_steps(config)[i];
            let second = setup_steps(config)[j];
            &&& second != SetupStep::Checkout
            &&& first != SetupStep::Associate
            &&& second == SetupStep::Remotes ==> first == SetupStep::Checkout
            &&& first == SetupStep::Worktrees ==> second != SetupStep::Remotes
            &&& first == SetupStep::Config ==> second == SetupStep::PerWorktreeConfig || second
                == SetupStep::Associate
            &&& first == SetupStep::PerWorktreeConfig ==> second == SetupStep::Associate
        }),
{
}

/// A repository that has worktrees is cloned bare, into `.git` below its path;
/// every other one is cloned into its path itself.
pub proof fn repositories_with_worktrees_are_bare(e: EnsureGitRepository)
    ensures
        bare(e.config@) <==> (e.config.worktree || e.config.worktrees is Some),
        !e.config.worktree && e.config.worktrees is None ==> e.repository() == e.path@,
        e.config.worktree || e.config.worktrees is Some ==> path::components(e.repository())
            == path::components(e.path@).push(".git"@),
{
    reveal_strlit(".git");
    let name = ".git"@;
    text::lemma_find_char_is(name, '/', 0, 4);
    assert(!path::opens_with_dot(name));
    path::joining_appends_components(e.path@, name);
    assert(path::spans_from(name, 0) =~= seq![(0int, 4int)]);
    assert(name.subrange(0, 4) =~= name);
    assert(path::components(name) =~= seq![name]);
    assert(path::components(e.path@) + seq![name] =~= path::components(e.path@).push(name));
}

/// Every repository that is declared is cloned once, for its overlay and as it is
/// declared: in the directory that the overlay covers for the path `.`, and else
/// below it, at the whole path.
pub proof fn every_repository_is_cloned(
    repos: Seq<(String, GitRepoConfig)>,
    name: Seq<char>,
    to: Seq<char>,
    k: int,
)
    requires
        0 <= k < repos.len(),
    ensures
        clones(repos, name, to).len() == repos.len(),
        ({
            let c = clones(repos, name, to)[k];
            let p = repos[k].0@;
            &&& c.config == repos[k].1@
            &&& c.overlay_name == name
            &&& p == "."@ ==> c.path == to
            &&& p != "."@ && !path::is_absolute(p) && !path::opens_with_dot(p) ==> path::components(
                c.path,
            ) == path::components(to) + path::components(p)
        }),
{
    let p = repos[k].0@;
    if !path::is_absolute(p) && !path::opens_with_dot(p) {
        path::joining_appends_components(to, p);
    }
}

/// Nothing is to say where every clone went well, and every clone that did not is
/// told of.
pub proof fn every_failed_clone_is_told_of(r: Seq<CloneResult>, k: int)
    requires
        0 <= k < r.len(),
    ensures
        complaints(r, r.len()).len() == r.filter(|c: CloneResult| !(c is Done)).len(),
        r[k] matches CloneResult::Failed(e) ==> complaints(r, r.len()).contains(e@),
        r[k] matches CloneResult::Panicked(e) ==> complaints(r, r.len()).contains(
            "clone task panicked: "@ + e@,
        ),
{
    lemma_complaints_len(r, r.len());
    assert(r.take(r.len() as int) =~= r);
    lemma_complaints_hold(r, r.len(), k);
}

proof fn lemma_complaints_len(r: Seq<CloneResult>, n: nat)
    requires
        n <= r.len(),
    ensures
        complaints(r, n).len() == r.take(n as int).filter(|c: CloneResult| !(c is Done)).len(),
    decreases n,
{
    reveal(Seq::filter);
    if n > 0 {
        lemma_complaints_len(r, (n - 1) as nat);
        assert(r.take(n as int).drop_last() =~= r.take(n - 1));
    }
}

proof fn lemma_complaints_hold(r: Seq<CloneResult>, n: nat, k: int)
    requires
        0 <= k < n <= r.len(),
    ensures
        r[k] matches CloneResult::Failed(e) ==> complaints(r, n).contains(e@),
        r[k] matches CloneResult::Panicked(e) ==> complaints(r, n).contains(
            "clone task panicked: "@ + e@,
        ),
    decreases n,
{
    let before = complaints(r, (n - 1) as nat);
    let all = complaints(r, n);
    if k == n - 1 {
        if complaint(r[k]).len() > 0 {
            assert(all[before.len() as int] == complaint(r[k])[0]);
        }
    } else {
        lemma_complaints_hold(r, (n - 1) as nat, k);
        assert forall|t: Seq<char>| before.contains(t) implies all.contains(t) by {
            let m = choose|m: int| 0 <= m < before.len() && before[m] == t;
            assert(all[m] == t);
        }
    }
}

/// A repository is named by what follows the last slash of its URL, with or without
/// `.git` behind it.
pub proof fn repositories_are_named_by_their_urls(base: Seq<char>, name: Seq<char>)
    requires
        !name.contains('/'),
        !".git"@.is_suffix_of(name),
    ensures
        short_name(base + "/"@ + name) == name,
        short_name(base + "/"@ + name + ".git"@) == name,
{
    reveal_strlit("/");
    reveal_strlit(".git");
    let full = name + ".git"@;
    assert(base + "/"@ + name =~= base.push('/') + name);
    assert(base + "/"@ + name + ".git"@ =~= base.push('/') + full);
    assert(!full.contains('/')) by {
        if full.contains('/') {
            let i = choose|i: int| 0 <= i < full.len() && full[i] == '/';
            if i < name.len() {
                assert(name[i] == '/');
            } else {
                assert(full[i] == ".git"@[i - name.len()]);
            }
        }
    }
    text::the_last_piece_follows_the_last_cut(base, name, '/');
    text::the_last_piece_follows_the_last_cut(base, full, '/');
    assert(full.take(full.len() - 4) =~= name);
    assert(full.subrange(full.len() - 4, full.len() as int) =~= ".git"@);
    reveal_with_fuel(text::without_endings, 3);
}

} // verus!
