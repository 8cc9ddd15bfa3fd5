//! What an overlay declares about a git repository.

use crate::table;
use crate::table::{copy_pairs, put_entry};
use crate::text;
use crate::text::same;
use vstd::prelude::*;

verus! {

/// The path of a repository that is cloned to the root of its overlay.
pub open spec fn root_path() -> Seq<char> {
    "."@
}

/// Entries of a git configuration, by dotted key.
#[derive(Debug, PartialEq, Eq)]
pub struct GitConfig {
    pub entries: Vec<(String, String)>,
}

/// A remote beside `origin`.
#[derive(Debug, PartialEq, Eq)]
pub struct RemoteConfig {
    pub url: String,
    /// The refspec that is fetched.
    pub fetch: Option<String>,
    /// The refspec that is pushed.
    pub push: Option<String>,
    /// Which tags are fetched, such as `--no-tags`.
    pub tagopt: Option<String>,
    /// Any other key of the remote's section.
    pub extras: Vec<(String, String)>,
}

/// A worktree that is kept beside the bare repository.
#[derive(Debug, PartialEq, Eq)]
pub struct WorktreeEntry {
    pub branch: String,
    /// Configuration of this worktree alone.
    pub config: Option<GitConfig>,
}

/// A git repository of an overlay.
#[derive(Debug, PartialEq, Eq)]
pub struct GitRepoConfig {
    pub url: String,
    pub branch: Option<String>,
    pub tag: Option<String>,
    pub rev: Option<String>,
    pub recurse_submodules: bool,
    /// Cloned bare, with the default branch in a worktree.
    pub worktree: bool,
    /// Whether worktrees have configuration of their own.
    pub per_worktree_config: bool,
    /// Further worktrees by name.
    pub worktrees: Option<Vec<(String, WorktreeEntry)>>,
    /// Further remotes by name.
    pub remotes: Option<Vec<(String, RemoteConfig)>>,
    pub config: Option<GitConfig>,
    /// Configuration of the worktree setup itself.
    pub worktree_config: Option<GitConfig>,
}

/// The entries of a git configuration, over text.
pub type Pairs = Seq<(Seq<char>, Seq<char>)>;

/// [`RemoteConfig`] over text.
pub struct RemoteView {
    pub url: Seq<char>,
    pub fetch: Option<Seq<char>>,
    pub push: Option<Seq<char>>,
    pub tagopt: Option<Seq<char>>,
    pub extras: Pairs,
}

/// [`WorktreeEntry`] over text.
pub struct WorktreeView {
    pub branch: Seq<char>,
    pub config: Option<Pairs>,
}

/// [`GitRepoConfig`] over text.
pub struct RepoView {
    pub url: Seq<char>,
    pub branch: Option<Seq<char>>,
    pub tag: Option<Seq<char>>,
    pub rev: Option<Seq<char>>,
    pub recurse_submodules: bool,
    pub worktree: bool,
    pub per_worktree_config: bool,
    pub worktrees: Option<Seq<(Seq<char>, WorktreeView)>>,
    pub remotes: Option<Seq<(Seq<char>, RemoteView)>>,
    pub config: Option<Pairs>,
    pub worktree_config: Option<Pairs>,
}

impl View for GitConfig {
    type V = Pairs;

    open spec fn view(&self) -> Pairs {
        table::pairs(self.entries@)
    }
}

impl View for RemoteConfig {
    type V = RemoteView;

    open spec fn view(&self) -> RemoteView {
        RemoteView {
            url: self.url@,
            fetch: text::opt_text(self.fetch),
            push: text::opt_text(self.push),
            tagopt: text::opt_text(self.tagopt),
            extras: table::pairs(self.extras@),
        }
    }
}

/// A configuration that may be missing, over text.
pub open spec fn opt_pairs(c: Option<GitConfig>) -> Option<Pairs> {
    match c {
        Some(c) => Some(c@),
        None => None,
    }
}

impl View for WorktreeEntry {
    type V = WorktreeView;

    open spec fn view(&self) -> WorktreeView {
        WorktreeView { branch: self.branch@, config: opt_pairs(self.config) }
    }
}

/// Worktrees by name, over text.
pub open spec fn worktrees_view(m: Seq<(String, WorktreeEntry)>) -> Seq<
    (Seq<char>, WorktreeView),
> {
    m.map_values(|p: (String, WorktreeEntry)| (p.0@, p.1@))
}

/// Remotes by name, over text.
pub open spec fn remotes_view(m: Seq<(String, RemoteConfig)>) -> Seq<(Seq<char>, RemoteView)> {
    m.map_values(|p: (String, RemoteConfig)| (p.0@, p.1@))
}

impl View for GitRepoConfig {
    type V = RepoView;

    open spec fn view(&self) -> RepoView {
        RepoView {
            url: self.url@,
            branch: text::opt_text(self.branch),
            tag: text::opt_text(self.tag),
            rev: text::opt_text(self.rev),
            recurse_submodules: self.recurse_submodules,
            worktree: self.worktree,
            per_worktree_config: self.per_worktree_config,
            worktrees: match self.worktrees {
                Some(w) => Some(worktrees_view(w@)),
                None => None,
            },
            remotes: match self.remotes {
                Some(r) => Some(remotes_view(r@)),
                None => None,
            },
            config: opt_pairs(self.config),
            worktree_config: opt_pairs(self.worktree_config),
        }
    }
}

impl Clone for GitConfig {
    fn clone(&self) -> (r: Self)
        ensures
            r@ == self@,
    {
        GitConfig { entries: copy_pairs(&self.entries) }
    }
}

fn copy_config(c: &Option<GitConfig>) -> (r: Option<GitConfig>)
    ensures
        opt_pairs(r) == opt_pairs(*c),
{
    match c {
        Some(c) => Some(c.clone()),
        None => None,
    }
}

impl Clone for RemoteConfig {
    fn clone(&self) -> (r: Self)
        ensures
            r@ == self@,
    {
        RemoteConfig {
            url: self.url.clone(),
            fetch: self.fetch.clone(),
            push: self.push.clone(),
            tagopt: self.tagopt.clone(),
            extras: copy_pairs(&self.extras),
        }
    }
}

impl Clone for WorktreeEntry {
    fn clone(&self) -> (r: Self)
        ensures
            r@ == self@,
    {
        WorktreeEntry { branch: self.branch.clone(), config: copy_config(&self.config) }
    }
}

/// A copy of worktrees by name.
pub fn copy_worktrees(m: &Vec<(String, WorktreeEntry)>) -> (r: Vec<(String, WorktreeEntry)>)
    ensures
        worktrees_view(r@) == worktrees_view(m@),
{
    let mut r: Vec<(String, WorktreeEntry)> = Vec::new();
    let mut i: usize = 0;
    while i < m.len()
        invariant
            i <= m@.len(),
            worktrees_view(r@) == worktrees_view(m@).take(i as int),
        decreases m@.len() - i,
    {
        let ghost before = r@;
        r.push((m[i].0.clone(), m[i].1.clone()));
        assert(worktrees_view(r@) =~= worktrees_view(before).push(
            worktrees_view(m@)[i as int],
        ));
        assert(worktrees_view(r@) =~= worktrees_view(m@).take(i + 1));
        i = i + 1;
    }
    assert(worktrees_view(m@).take(m@.len() as int) =~= worktrees_view(m@));
    r
}

fn copy_remotes(m: &Vec<(String, RemoteConfig)>) -> (r: Vec<(String, RemoteConfig)>)
    ensures
        remotes_view(r@) == remotes_view(m@),
{
    let mut r: Vec<(String, RemoteConfig)> = Vec::new();
    let mut i: usize = 0;
    while i < m.len()
        invariant
            i <= m@.len(),
            remotes_view(r@) == remotes_view(m@).take(i as int),
        decreases m@.len() - i,
    {
        let ghost before = r@;
        r.push((m[i].0.clone(), m[i].1.clone()));
        assert(remotes_view(r@) =~= remotes_view(before).push(remotes_view(m@)[i as int]));
        assert(remotes_view(r@) =~= remotes_view(m@).take(i + 1));
        i = i + 1;
    }
    assert(remotes_view(m@).take(m@.len() as int) =~= remotes_view(m@));
    r
}

impl Clone for GitRepoConfig {
    fn clone(&self) -> (r: Self)
        ensures
            r@ == self@,
    {
        GitRepoConfig {
            url: self.url.clone(),
            branch: self.branch.clone(),
            tag: self.tag.clone(),
            rev: self.rev.clone(),
            recurse_submodules: self.recurse_submodules,
            worktree: self.worktree,
            per_worktree_config: self.per_worktree_config,
            worktrees: match &self.worktrees {
                Some(w) => Some(copy_worktrees(w)),
                None => None,
            },
            remotes: match &self.remotes {
                Some(r) => Some(copy_remotes(r)),
                None => None,
            },
            config: copy_config(&self.config),
            worktree_config: copy_config(&self.worktree_config),
        }
    }
}

/// The ways in which a repository is written down.
#[derive(Debug)]
pub enum AllGitRepoForms {
    /// Its URL alone.
    Simple(String),
    /// Its URL with further fields.
    Detailed {
        url: String,
        branch: Option<String>,
        tag: Option<String>,
        rev: Option<String>,
        recurse_submodules: Option<bool>,
        worktree: Option<bool>,
        per_worktree_config: Option<bool>,
        worktrees: Option<Vec<(String, WorktreeEntry)>>,
        remotes: Option<Vec<(String, RemoteConfig)>>,
        config: Option<Box<GitConfig>>,
        worktree_config: Option<Box<GitConfig>>,
    },
}

/// A flag with its default.
pub open spec fn flag(b: Option<bool>, default: bool) -> bool {
    match b {
        Some(x) => x,
        None => default,
    }
}

/// A boxed configuration that may be missing, unboxed.
pub open spec fn unboxed(c: Option<Box<GitConfig>>) -> Option<GitConfig> {
    match c {
        Some(b) => Some(*b),
        None => None,
    }
}

fn unbox(c: Option<Box<GitConfig>>) -> (r: Option<GitConfig>)
    ensures
        r == unboxed(c),
{
    match c {
        Some(b) => Some(*b),
        None => None,
    }
}

impl vstd::std_specs::convert::FromSpecImpl<AllGitRepoForms> for GitRepoConfig {
    open spec fn obeys_from_spec() -> bool {
        true
    }

    open spec fn from_spec(f: AllGitRepoForms) -> Self {
        match f {
            AllGitRepoForms::Simple(url) => GitRepoConfig {
                url,
                branch: None,
                tag: None,
                rev: None,
                recurse_submodules: false,
                worktree: false,
                per_worktree_config: false,
                worktrees: None,
                remotes: None,
                config: None,
                worktree_config: None,
            },
            AllGitRepoForms::Detailed {
                url,
                branch,
                tag,
                rev,
                recurse_submodules,
                worktree,
                per_worktree_config,
                worktrees,
                remotes,
                config,
                worktree_config,
            } => {
                let in_worktrees = flag(worktree, worktrees is Some);
                GitRepoConfig {
                    url,
                    branch,
                    tag,
                    rev,
                    recurse_submodules: flag(recurse_submodules, false),
                    worktree: in_worktrees,
                    per_worktree_config: flag(per_worktree_config, in_worktrees),
                    worktrees,
                    remotes,
                    config: unboxed(config),
                    worktree_config: unboxed(worktree_config),
                }
            },
        }
    }
}

impl From<AllGitRepoForms> for GitRepoConfig {
    fn from(f: AllGitRepoForms) -> (r: Self) {
        match f {
            AllGitRepoForms::Simple(url) => GitRepoConfig {
                url,
                branch: None,
                tag: None,
                rev: None,
                recurse_submodules: false,
                worktree: false,
                per_worktree_config: false,
                worktrees: None,
                remotes: None,
                config: None,
                worktree_config: None,
            },
            AllGitRepoForms::Detailed {
                url,
                branch,
                tag,
                rev,
                recurse_submodules,
                worktree,
                per_worktree_config,
                worktrees,
                remotes,
                config,
                worktree_config,
            } => {
                let in_worktrees = worktree.unwrap_or(worktrees.is_some());
                GitRepoConfig {
                    url,
                    branch,
                    tag,
                    rev,
                    recurse_submodules: recurse_submodules.unwrap_or(false),
                    worktree: in_worktrees,
                    per_worktree_config: per_worktree_config.unwrap_or(in_worktrees),
                    worktrees,
                    remotes,
                    config: unbox(config),
                    worktree_config: unbox(worktree_config),
                }
            },
        }
    }
}

/// The ways in which the repositories of an overlay are written down.
#[derive(Debug)]
pub enum AllGitForms {
    /// One repository, cloned to the root of the overlay.
    Single(GitRepoConfig),
    /// Repositories by their path.
    ByPath(Vec<(String, GitRepoConfig)>),
}

/// Whether this is a field of a repository.
pub open spec fn is_repo_field(key: Seq<char>) -> bool {
    key == "url"@ || key == "branch"@ || key == "tag"@ || key == "rev"@
        || key == "recurse_submodules"@ || key == "worktree"@ || key == "per_worktree_config"@
        || key == "worktrees"@ || key == "remotes"@ || key == "config"@
        || key == "worktree_config"@
}

fn names_repo_field(key: &str) -> (r: bool)
    ensures
        r == is_repo_field(key@),
{
    same(key, "url") || same(key, "branch") || same(key, "tag") || same(key, "rev")
        || same(key, "recurse_submodules") || same(key, "worktree")
        || same(key, "per_worktree_config") || same(key, "worktrees") || same(key, "remotes")
        || same(key, "config") || same(key, "worktree_config")
}

/// Whether all keys are fields of a repository.
pub open spec fn only_repo_fields(keys: Seq<String>) -> bool {
    forall|i: int| 0 <= i < keys.len() ==> is_repo_field((#[trigger] keys[i])@)
}

fn names_only_repo_fields(keys: &Vec<String>) -> (r: bool)
    ensures
        r == only_repo_fields(keys@),
{
    let mut i: usize = 0;
    while i < keys.len()
        invariant
            i <= keys@.len(),
            forall|k: int| 0 <= k < i ==> is_repo_field((#[trigger] keys@[k])@),
        decreases keys@.len() - i,
    {
        if !names_repo_field(keys[i].as_str()) {
            assert(!is_repo_field(keys@[i as int]@));
            return false;
        }
        i = i + 1;
    }
    true
}

impl AllGitForms {
    /// How repositories are written down that may read as one or by their path:
    /// as one, unless a further key names the path of another, as it does where
    /// they also read by path.
    pub fn from_readings(
        keys: &Vec<String>,
        single: Option<GitRepoConfig>,
        by_path: Option<Vec<(String, GitRepoConfig)>>,
    ) -> (r: Option<Self>)
        ensures
            match r {
                Some(AllGitForms::Single(c)) => single == Some(c) && (only_repo_fields(keys@)
                    || by_path is None),
                Some(AllGitForms::ByPath(m)) => by_path == Some(m) && (single is None
                    || !only_repo_fields(keys@)),
                None => single is None && by_path is None,
            },
    {
        let fields = names_only_repo_fields(keys);
        match (single, by_path) {
            (Some(c), None) => Some(AllGitForms::Single(c)),
            (Some(c), Some(m)) => if fields {
                Some(AllGitForms::Single(c))
            } else {
                Some(AllGitForms::ByPath(m))
            },
            (None, Some(m)) => Some(AllGitForms::ByPath(m)),
            (None, None) => None,
        }
    }

    /// The repositories by their path.
    pub fn into_repos(self) -> (r: Vec<(String, GitRepoConfig)>)
        ensures
            match self {
                AllGitForms::Single(c) => table::named(r@) == seq![(root_path(), c)],
                AllGitForms::ByPath(m) => r == m,
            },
    {
        match self {
            AllGitForms::Single(c) => {
                let mut r: Vec<(String, GitRepoConfig)> = Vec::new();
                r.push((".".to_owned(), c));
                assert(table::named(r@) =~= seq![(root_path(), c)]);
                r
            },
            AllGitForms::ByPath(m) => m,
        }
    }
}

/// A value in a git configuration: a scalar, or a section of values.
#[derive(Debug)]
pub enum GitConfigValue {
    Scalar(String),
    Section(Vec<(String, GitConfigValue)>),
}

/// A configuration that is nested deeper than three levels.
#[derive(Debug, Clone, Copy, PartialEq, Eq, Structural)]
pub struct NestingTooDeep;

impl NestingTooDeep {
    /// What to tell the user.
    pub fn message(&self) -> (r: String)
        ensures
            r@ == "git config nesting too deep (max 3 levels)"@,
    {
        "git config nesting too deep (max 3 levels)".to_owned()
    }
}

/// `key` inside the section `prefix`, which may be none.
pub open spec fn dotted(prefix: Option<Seq<char>>, key: Seq<char>) -> Seq<char> {
    match prefix {
        None => key,
        Some(p) => p + "."@ + key,
    }
}

/// Whether none of the first `n` values of `m` holds a section more than `depth`
/// levels down.
pub open spec fn within_depth(m: Seq<(String, GitConfigValue)>, depth: nat, n: nat) -> bool
    decreases depth, n,
{
    n == 0 || (within_depth(m, depth, (n - 1) as nat) && match m[n - 1].1 {
        GitConfigValue::Scalar(_) => true,
        GitConfigValue::Section(s) => depth > 0 && within_depth(
            s@,
            (depth - 1) as nat,
            s@.len(),
        ),
    })
}

/// `onto` with the first `n` values of `m` put into it, each under its dotted
/// key, down to `depth` levels of sections.
pub open spec fn flattened(
    onto: Seq<(Seq<char>, String)>,
    m: Seq<(String, GitConfigValue)>,
    prefix: Option<Seq<char>>,
    depth: nat,
    n: nat,
) -> Seq<(Seq<char>, String)>
    decreases depth, n,
{
    if n == 0 {
        onto
    } else {
        let before = flattened(onto, m, prefix, depth, (n - 1) as nat);
        let key = dotted(prefix, m[n - 1].0@);
        match m[n - 1].1 {
            GitConfigValue::Scalar(v) => table::put(before, key, v),
            GitConfigValue::Section(s) => if depth == 0 {
                before
            } else {
                flattened(before, s@, Some(key), (depth - 1) as nat, s@.len())
            },
        }
    }
}

/// The text of a prefix that may be missing.
pub open spec fn prefix_text(prefix: Option<&str>) -> Option<Seq<char>> {
    match prefix {
        Some(p) => Some(p@),
        None => None,
    }
}

fn dot(prefix: Option<&str>, key: &str) -> (r: String)
    ensures
        r@ == dotted(prefix_text(prefix), key@),
{
    match prefix {
        None => key.to_owned(),
        Some(p) => {
            let mut r = p.to_owned();
            r.append(".");
            r.append(key);
            r
        },
    }
}

fn flatten_into(
    entries: &mut Vec<(String, String)>,
    m: &Vec<(String, GitConfigValue)>,
    prefix: Option<&str>,
    depth: u8,
) -> (r: bool)
    ensures
        r == within_depth(m@, depth as nat, m@.len()),
        r ==> table::named(final(entries)@) == flattened(
            table::named(old(entries)@),
            m@,
            prefix_text(prefix),
            depth as nat,
            m@.len(),
        ),
    decreases depth,
{
    let ghost start = table::named(entries@);
    let mut i: usize = 0;
    while i < m.len()
        invariant
            i <= m@.len(),
            table::named(entries@) == flattened(start, m@, prefix_text(prefix), depth as nat, i as nat),
            within_depth(m@, depth as nat, i as nat),
        decreases m@.len() - i,
    {
        let key = dot(prefix, m[i].0.as_str());
        match &m[i].1 {
            GitConfigValue::Scalar(v) => {
                put_entry(entries, key, v.clone());
            },
            GitConfigValue::Section(s) => {
                if depth == 0 || !flatten_into(entries, s, Some(key.as_str()), depth - 1) {
                    proof {
                        lemma_depth_grows(m@, depth as nat, (i + 1) as nat, m@.len());
                    }
                    return false;
                }
            },
        }
        i = i + 1;
    }
    true
}

proof fn lemma_depth_grows(m: Seq<(String, GitConfigValue)>, depth: nat, a: nat, b: nat)
    requires
        a <= b,
        !within_depth(m, depth, a),
    ensures
        !within_depth(m, depth, b),
    decreases b - a,
{
    if a < b {
        lemma_depth_grows(m, depth, a, (b - 1) as nat);
    }
}

impl GitConfig {
    /// The configuration that nested sections stand for: each value under the
    /// keys that lead to it, joined by dots, a later value in the place of an
    /// earlier one of the same key. Fails where a section lies more than two
    /// levels down.
    pub fn from_sections(m: &Vec<(String, GitConfigValue)>) -> (r: Result<
        GitConfig,
        NestingTooDeep,
    >)
        ensures
            r is Ok == within_depth(m@, 2, m@.len()),
            r matches Ok(c) ==> table::named(c.entries@) == flattened(
                Seq::empty(),
                m@,
                None,
                2,
                m@.len(),
            ),
    {
        let mut entries: Vec<(String, String)> = Vec::new();
        assert(table::named(entries@) =~= Seq::<(Seq<char>, String)>::empty());
        if flatten_into(&mut entries, m, None, 2) {
            Ok(GitConfig { entries })
        } else {
            Err(NestingTooDeep)
        }
    }
}

/// A URL alone declares a repository with nothing else; the full form declares what
/// it says, with worktrees where some are named and settings of their own where
/// there are worktrees, unless it says otherwise.
pub proof fn repositories_are_declared_by_their_forms(
    url: String,
    c: GitRepoConfig,
    recurse: Option<bool>,
    worktree: Option<bool>,
    own: Option<bool>,
    config: Option<Box<GitConfig>>,
    worktree_config: Option<Box<GitConfig>>,
)
    ensures
        ({
            let r = <GitRepoConfig as vstd::std_specs::convert::FromSpec<AllGitRepoForms>>::from_spec(
                AllGitRepoForms::Simple(url),
            );
            r.url == url && r.branch is None && r.tag is None && r.rev is None
                && !r.recurse_submodules && !r.worktree && !r.per_worktree_config && r.worktrees is None
                && r.remotes is None && r.config is None && r.worktree_config is None
        }),
        ({
            let r = <GitRepoConfig as vstd::std_specs::convert::FromSpec<AllGitRepoForms>>::from_spec(
                AllGitRepoForms::Detailed {
                    url,
                    branch: c.branch,
                    tag: c.tag,
                    rev: c.rev,
                    recurse_submodules: recurse,
                    worktree,
                    per_worktree_config: own,
                    worktrees: c.worktrees,
                    remotes: c.remotes,
                    config,
                    worktree_config,
                },
            );
            &&& r.url == url && r.branch == c.branch && r.tag == c.tag && r.rev == c.rev
            &&& r.worktrees == c.worktrees && r.remotes == c.remotes
            &&& r.recurse_submodules <==> recurse == Some(true)
            &&& worktree is Some ==> r.worktree == worktree->0
            &&& worktree is None ==> r.worktree == (c.worktrees is Some)
            &&& own is Some ==> r.per_worktree_config == own->0
            &&& own is None ==> r.per_worktree_config == r.worktree
            &&& config is Some ==> r.config == Some(*config->0)
            &&& config is None ==> r.config is None
            &&& worktree_config is Some ==> r.worktree_config == Some(*worktree_config->0)
            &&& worktree_config is None ==> r.worktree_config is None
        }),
{
}

/// What a repository holds is all there over text.
pub proof fn views_hold_every_field(c: GitRepoConfig, r: RemoteConfig, w: WorktreeEntry)
    ensures
        c@.url == c.url@,
        c@.branch == text::opt_text(c.branch) && c@.tag == text::opt_text(c.tag) && c@.rev
            == text::opt_text(c.rev),
        c@.recurse_submodules == c.recurse_submodules && c@.worktree == c.worktree
            && c@.per_worktree_config == c.per_worktree_config,
        c@.worktrees is Some <==> c.worktrees is Some,
        c@.remotes is Some <==> c.remotes is Some,
        c@.config is Some <==> c.config is Some,
        c@.worktree_config is Some <==> c.worktree_config is Some,
        c.config is Some ==> c@.config->0.len() == c.config->0.entries@.len(),
        c.worktrees is Some ==> c@.worktrees->0.len() == c.worktrees->0@.len(),
        c.remotes is Some ==> c@.remotes->0.len() == c.remotes->0@.len(),
        r@.url == r.url@ && r@.fetch == text::opt_text(r.fetch) && r@.push == text::opt_text(r.push)
            && r@.tagopt == text::opt_text(r.tagopt) && r@.extras.len() == r.extras@.len(),
        w@.branch == w.branch@ && (w@.config is Some <==> w.config is Some),
{
}

/// A setting of a section has the name of the section and a dot before its own; one
/// that stands behind another of the same name wins, and no other is touched.
pub proof fn sections_are_flattened(
    onto: Seq<(Seq<char>, String)>,
    m: Seq<(String, GitConfigValue)>,
    prefix: Option<Seq<char>>,
    depth: nat,
    n: nat,
    other: Seq<char>,
)
    requires
        0 < n <= m.len(),
    ensures
        ({
            let key = match prefix {
                None => m[n - 1].0@,
                Some(p) => p + "."@ + m[n - 1].0@,
            };
            let before = flattened(onto, m, prefix, depth, (n - 1) as nat);
            let after = flattened(onto, m, prefix, depth, n);
            &&& m[n - 1].1 matches GitConfigValue::Scalar(v) ==> table::lookup(after, key) == Some(v)
                && (other != key ==> table::lookup(after, other) == table::lookup(before, other))
            &&& m[n - 1].1 matches GitConfigValue::Section(s) ==> (depth > 0 ==> after == flattened(
                before,
                s@,
                Some(key),
                (depth - 1) as nat,
                s@.len(),
            ))
        }),
        flattened(onto, m, prefix, depth, 0) == onto,
{
    let before = flattened(onto, m, prefix, depth, (n - 1) as nat);
    if let GitConfigValue::Scalar(v) = m[n - 1].1 {
        table::putting_sets_one_key(before, dotted(prefix, m[n - 1].0@), v, other);
    }
}

/// Settings may stand in sections of sections, and no deeper: a list is taken exactly
/// where each of its sections has one level left, and is itself taken with one less.
pub proof fn deep_sections_are_refused(m: Seq<(String, GitConfigValue)>, depth: nat, n: nat)
    requires
        n <= m.len(),
    ensures
        within_depth(m, depth, n) <==> forall|i: int|
            0 <= i < n && (#[trigger] m[i]).1 is Section ==> depth > 0 && within_depth(
                m[i].1->Section_0@,
                (depth - 1) as nat,
                m[i].1->Section_0@.len(),
            ),
    decreases n,
{
    if n > 0 {
        deep_sections_are_refused(m, depth, (n - 1) as nat);
        if !within_depth(m, depth, n) && within_depth(m, depth, (n - 1) as nat) {
            assert(m[n - 1].1 is Section);
        }
    }
}

/// A list of keys names one repository exactly where each is a field of one.
pub proof fn fields_of_a_repository_are_known(keys: Seq<String>, k: int)
    ensures
        only_repo_fields(keys) && 0 <= k < keys.len() ==> keys[k]@ == "url"@ || keys[k]@ == "branch"@
            || keys[k]@ == "tag"@ || keys[k]@ == "rev"@ || keys[k]@ == "recurse_submodules"@
            || keys[k]@ == "worktree"@ || keys[k]@ == "per_worktree_config"@ || keys[k]@
            == "worktrees"@ || keys[k]@ == "remotes"@ || keys[k]@ == "config"@ || keys[k]@
            == "worktree_config"@,
        is_repo_field("url"@) && is_repo_field("branch"@) && is_repo_field("tag"@) && is_repo_field(
            "rev"@,
        ) && is_repo_field("recurse_submodules"@) && is_repo_field("worktree"@) && is_repo_field(
            "per_worktree_config"@,
        ) && is_repo_field("worktrees"@) && is_repo_field("remotes"@) && is_repo_field("config"@)
            && is_repo_field("worktree_config"@),
{
}

} // verus!
