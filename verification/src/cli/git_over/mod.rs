//! The commands for a git repository that belongs to an overlay.

pub mod add;
pub mod document;
pub mod mount;
pub mod status;
pub mod value;

use crate::path;
use crate::path::{join_path, strip_base};
use crate::text;
use crate::text::{concat2, concat3, contains_text, split_lines};
use vstd::prelude::*;

verus! {

/// The command line.
#[derive(Debug, PartialEq, Eq)]
pub struct CLI {
    /// The directory of the overlays.
    pub home: Option<String>,
    pub debug: bool,
    pub verbose: bool,
    pub cmd: Commands,
}

/// The arguments of the command that mounts a repository.
#[derive(Debug, PartialEq, Eq)]
pub struct MountParams {
    pub overlay: Option<String>,
}

/// The commands.
#[derive(Debug, PartialEq, Eq)]
pub enum Commands {
    Mount(MountParams),
    Add(add::Params),
    Status,
}

impl CLI {
    /// The directory of the overlays: the given one, or else `.over` in the
    /// user's home directory.
    pub fn resolve_home(&self, home_dir: &Option<String>) -> (r: Result<String, String>)
        ensures
            match (self.home, *home_dir, r) {
                (Some(h), _, Ok(p)) => p@ == h@,
                (None, Some(u), Ok(p)) => p@ == path::joined(u@, ".over"@),
                (None, None, Err(e)) => e@ == "could not determine home directory"@,
                _ => false,
            },
    {
        if let Some(home) = &self.home {
            return Ok(home.clone());
        }
        match home_dir {
            Some(user) => Ok(join_path(user.as_str(), ".over")),
            None => Err("could not determine home directory".to_owned()),
        }
    }
}

/// The root of a repository: for a worktree the directory that holds the
/// repository's own, else the working directory.
pub fn main_repo_root(
    is_worktree: bool,
    common_parent: Option<String>,
    workdir: Option<String>,
) -> (r: Result<String, String>)
    ensures
        match r {
            Ok(p) => if is_worktree {
                common_parent == Some(p)
            } else {
                workdir == Some(p)
            },
            Err(e) => if is_worktree {
                common_parent is None && e@
                    == "could not determine main repository root from worktree"@
            } else {
                workdir is None && e@ == "bare repositories are not supported"@
            },
        },
{
    if is_worktree {
        match common_parent {
            Some(p) => Ok(p),
            None => Err("could not determine main repository root from worktree".to_owned()),
        }
    } else {
        match workdir {
            Some(p) => Ok(p),
            None => Err("bare repositories are not supported".to_owned()),
        }
    }
}

/// What came of reading an entry of a git configuration.
#[derive(Debug, PartialEq, Eq)]
pub enum ConfigRead {
    Value(String),
    NotFound,
    Failed(String),
}

/// The overlay that a repository names in its configuration.
pub fn get_overlay_config(read: ConfigRead) -> (r: Result<Option<String>, String>)
    ensures
        match (read, r) {
            (ConfigRead::Value(v), Ok(Some(n))) => n == v,
            (ConfigRead::NotFound, Ok(None)) => true,
            (ConfigRead::Failed(e), Err(m)) => m@
                == "failed to read over.overlay from git config: "@ + e@,
            _ => false,
        },
{
    match read {
        ConfigRead::Value(v) => Ok(Some(v)),
        ConfigRead::NotFound => Ok(None),
        ConfigRead::Failed(e) => Err(
            concat2("failed to read over.overlay from git config: ", e.as_str()),
        ),
    }
}

/// Where the overlay of a repository comes from.
#[derive(Debug, PartialEq, Eq)]
pub enum OverlayChoice {
    /// It is given on the command line.
    Given(String),
    /// The repository names it in its configuration.
    Configured(String),
    /// The user picks it, and the repository names it from then on.
    Ask,
}

/// Where the overlay of a repository comes from: from the command line, else from
/// its configuration, else from the user.
pub fn resolve_overlay(given: &Option<String>, configured: &Option<String>) -> (r: OverlayChoice)
    ensures
        match r {
            OverlayChoice::Given(n) => text::opt_text(*given) == Some(n@),
            OverlayChoice::Configured(n) => given is None && text::opt_text(*configured) == Some(n@),
            OverlayChoice::Ask => given is None && configured is None,
        },
{
    if let Some(n) = given {
        return OverlayChoice::Given(n.clone());
    }
    match configured {
        Some(n) => OverlayChoice::Configured(n.clone()),
        None => OverlayChoice::Ask,
    }
}

/// The lines that are added for the first `n` paths: those that are not there.
pub open spec fn missing_lines(present: Seq<Seq<char>>, paths: Seq<Seq<char>>, n: nat) -> Seq<char>
    decreases n,
{
    if n == 0 {
        Seq::empty()
    } else {
        let before = missing_lines(present, paths, (n - 1) as nat);
        if present.contains(paths[n - 1]) {
            before
        } else {
            before + paths[n - 1] + "\n"@
        }
    }
}

/// What is added to a file of excluded paths: a line for each path that has none
/// there yet, behind the end of the last line where that is missing.
pub open spec fn excluded_text(existing: Seq<char>, paths: Seq<Seq<char>>) -> Seq<char> {
    let missing = missing_lines(text::lines(existing), paths, paths.len());
    if missing.len() > 0 && existing.len() > 0 && existing.last() != '\n' {
        "\n"@ + missing
    } else {
        missing
    }
}

/// What is added to a file of excluded paths so that each path has a line.
pub fn exclude_paths(existing: &str, paths: &Vec<String>) -> (r: String)
    ensures
        r@ == excluded_text(existing@, text::texts(paths@)),
{
    let present = split_lines(existing);
    let ghost all = text::texts(paths@);
    let mut r = String::new();
    let mut i: usize = 0;
    assert(r@ =~= Seq::<char>::empty());
    while i < paths.len()
        invariant
            i <= paths@.len(),
            all == text::texts(paths@),
            text::texts(present@) == text::lines(existing@),
            r@ == missing_lines(text::lines(existing@), all, i as nat),
        decreases paths@.len() - i,
    {
        assert(all[i as int] == paths@[i as int]@);
        if !contains_text(&present, paths[i].as_str()) {
            r.append(paths[i].as_str());
            r.append("\n");
        }
        i = i + 1;
    }
    let length: usize = existing.unicode_len();
    if r.as_str().unicode_len() > 0 && length > 0 && existing.get_char(length - 1) != '\n' {
        return concat2("\n", r.as_str());
    }
    r
}

/// The path of a repository within what an overlay covers.
pub fn repo_relative_path(target: &str, repo_workdir: &str) -> (r: Result<String, String>)
    ensures
        match (path::relative_to(repo_workdir@, target@), r) {
            (Some(rel), Ok(p)) => p@ == rel,
            (None, Err(e)) => e@ == "repository "@ + repo_workdir@
                + " is not under overlay target "@ + target@,
            _ => false,
        },
{
    match strip_base(repo_workdir, target) {
        Some(p) => Ok(p),
        None => {
            let mut e = concat3("repository ", repo_workdir, " is not under overlay target ");
            e.append(target);
            Err(e)
        },
    }
}

/// Whether a text can stand on a line of its own.
pub open spec fn is_line(s: Seq<char>) -> bool {
    !s.contains('\n') && (s.len() > 0 ==> s.last() != '\r')
}

/// A file of excluded paths with what is added to it: it has a line for each path,
/// so that nothing is added a second time, and it keeps its lines, but that a
/// carriage return at its very end becomes part of the end of a line.
pub proof fn excluding_is_idempotent(existing: Seq<char>, paths: Seq<Seq<char>>)
    requires
        forall|i: int| 0 <= i < paths.len() ==> is_line(#[trigger] paths[i]),
    ensures
        ({
            let after = existing + excluded_text(existing, paths);
            &&& existing.len() == 0 || existing.last() != '\r' ==> text::lines(
                existing,
            ).is_prefix_of(text::lines(after))
            &&& forall|i: int| 0 <= i < paths.len() ==> text::lines(after).contains(#[trigger] paths[i])
            &&& excluded_text(after, paths) == Seq::<char>::empty()
        }),
{
    let old_lines = text::lines(existing);
    let missing = missing_lines(old_lines, paths, paths.len());
    let after = existing + excluded_text(existing, paths);
    if missing.len() == 0 {
        assert(after =~= existing);
        lemma_none_missing(old_lines, paths, paths.len());
    } else {
        let base = if existing.len() > 0 && existing.last() != '\n' {
            existing + "\n"@
        } else {
            existing
        };
        assert(after =~= base + missing);
        reveal_strlit("\n");
        if existing.len() > 0 && existing.last() != '\n' {
            text::lemma_last_line_ended(existing);
            let last = old_lines.last();
            assert(existing.last() != '\r' ==> text::without_return(last) == last);
            assert(existing.last() != '\r' ==> text::lines(base) =~= old_lines);
            assert forall|i: int|
                0 <= i < paths.len() && old_lines.contains(#[trigger] paths[i]) implies text::lines(
                base,
            ).contains(paths[i]) by {
                assert(is_line(paths[i]));
                let k = choose|k: int| 0 <= k < old_lines.len() && old_lines[k] == paths[i];
                if k == old_lines.len() - 1 {
                    assert(text::without_return(last) == last);
                }
                assert(text::lines(base)[k] == paths[i]);
            }
        }
        lemma_excluded(old_lines, base, paths, paths.len());
    }
    lemma_nothing_missing(text::lines(after), paths, paths.len());
}

proof fn lemma_none_missing(present: Seq<Seq<char>>, paths: Seq<Seq<char>>, n: nat)
    requires
        n <= paths.len(),
        missing_lines(present, paths, n).len() == 0,
    ensures
        forall|i: int| 0 <= i < n ==> present.contains(#[trigger] paths[i]),
    decreases n,
{
    if n > 0 {
        reveal_strlit("\n");
        lemma_none_missing(present, paths, (n - 1) as nat);
    }
}

proof fn lemma_excluded(
    present: Seq<Seq<char>>,
    base: Seq<char>,
    paths: Seq<Seq<char>>,
    n: nat,
)
    requires
        n <= paths.len(),
        base.len() == 0 || base.last() == '\n',
        forall|i: int| 0 <= i < paths.len() ==> is_line(#[trigger] paths[i]),
        forall|i: int|
            0 <= i < paths.len() && present.contains(#[trigger] paths[i]) ==> text::lines(
                base,
            ).contains(paths[i]),
    ensures
        ({
            let after = base + missing_lines(present, paths, n);
            &&& after.len() == 0 || after.last() == '\n'
            &&& text::lines(base).is_prefix_of(text::lines(after))
            &&& forall|i: int| 0 <= i < n ==> text::lines(after).contains(#[trigger] paths[i])
        }),
    decreases n,
{
    let base_lines = text::lines(base);
    if n == 0 {
        assert(base + missing_lines(present, paths, 0) =~= base);
    } else {
        lemma_excluded(present, base, paths, (n - 1) as nat);
        let before = base + missing_lines(present, paths, (n - 1) as nat);
        let after = base + missing_lines(present, paths, n);
        let p = paths[n - 1];
        if present.contains(p) {
            assert(after =~= before);
            let k = choose|k: int| 0 <= k < base_lines.len() && base_lines[k] == p;
            assert(text::lines(after)[k] == p);
        } else {
            assert(after =~= before + p + "\n"@);
            text::lemma_line_behind(before, p);
            assert(text::lines(after)[text::lines(after).len() - 1] == p);
            assert(base_lines =~= text::lines(after).subrange(0, base_lines.len() as int));
            assert forall|i: int| 0 <= i < n implies text::lines(after).contains(#[trigger] paths[i]) by {
                if i < n - 1 {
                    let k = choose|k: int|
                        0 <= k < text::lines(before).len() && text::lines(before)[k] == paths[i];
                    assert(text::lines(after)[k] == paths[i]);
                }
            }
        }
    }
}

proof fn lemma_nothing_missing(present: Seq<Seq<char>>, paths: Seq<Seq<char>>, n: nat)
    requires
        n <= paths.len(),
        forall|i: int| 0 <= i < paths.len() ==> present.contains(#[trigger] paths[i]),
    ensures
        missing_lines(present, paths, n) == Seq::<char>::empty(),
    decreases n,
{
    if n > 0 {
        lemma_nothing_missing(present, paths, (n - 1) as nat);
        assert(present.contains(paths[n - 1]));
    }
}

/// Of the paths to exclude those are added that no line states yet, each on a line of
/// its own, in their order, and nothing else.
pub proof fn only_missing_paths_are_excluded(existing: Seq<char>, paths: Seq<Seq<char>>)
    requires
        forall|i: int| 0 <= i < paths.len() ==> is_line(#[trigger] paths[i]),
        existing.len() == 0 || existing.last() != '\r',
    ensures
        text::lines(existing + excluded_text(existing, paths)) == text::lines(existing)
            + paths.filter(|p: Seq<char>| !text::lines(existing).contains(p)),
{
    reveal_strlit("\n");
    let present = text::lines(existing);
    let n = paths.len();
    let missing = missing_lines(present, paths, n);
    assert(paths.take(n as int) =~= paths);
    if existing.len() > 0 && existing.last() != '\n' {
        let base = existing + "\n"@;
        text::lemma_last_line_ended(existing);
        assert(text::lines(base) =~= present);
        lemma_added(present, base, paths, n);
        if missing.len() > 0 {
            assert(existing + excluded_text(existing, paths) =~= base + missing);
        } else {
            lemma_none_missing(present, paths, n);
            assert(existing + excluded_text(existing, paths) =~= existing);
            lemma_nothing_left(present, paths, n);
        }
    } else {
        lemma_added(present, existing, paths, n);
    }
}

proof fn lemma_nothing_left(present: Seq<Seq<char>>, paths: Seq<Seq<char>>, n: nat)
    requires
        n <= paths.len(),
        forall|i: int| 0 <= i < n ==> present.contains(#[trigger] paths[i]),
    ensures
        paths.take(n as int).filter(|p: Seq<char>| !present.contains(p)) == Seq::<
            Seq<char>,
        >::empty(),
    decreases n,
{
    reveal(Seq::filter);
    if n > 0 {
        lemma_nothing_left(present, paths, (n - 1) as nat);
        assert(paths.take(n as int).drop_last() =~= paths.take(n - 1));
        assert(paths.take(n as int).last() == paths[n - 1]);
    }
}

proof fn lemma_added(present: Seq<Seq<char>>, base: Seq<char>, paths: Seq<Seq<char>>, n: nat)
    requires
        n <= paths.len(),
        base.len() == 0 || base.last() == '\n',
        forall|i: int| 0 <= i < paths.len() ==> is_line(#[trigger] paths[i]),
    ensures
        ({
            let after = base + missing_lines(present, paths, n);
            &&& after.len() == 0 || after.last() == '\n'
            &&& text::lines(after) == text::lines(base) + paths.take(n as int).filter(
                |p: Seq<char>| !present.contains(p),
            )
        }),
    decreases n,
{
    reveal(Seq::filter);
    if n > 0 {
        lemma_added(present, base, paths, (n - 1) as nat);
        assert(paths.take(n as int).drop_last() =~= paths.take(n - 1));
        assert(paths.take(n as int).last() == paths[n - 1]);
        let before = base + missing_lines(present, paths, (n - 1) as nat);
        if !present.contains(paths[n - 1]) {
            assert(is_line(paths[n - 1]));
            text::lemma_line_behind(before, paths[n - 1]);
            assert(base + missing_lines(present, paths, n) =~= before + paths[n - 1] + "\n"@);
        }
        assert(text::lines(base + missing_lines(present, paths, n)) =~= text::lines(base)
            + paths.take(n as int).filter(|p: Seq<char>| !present.contains(p)));
    } else {
        assert(base + missing_lines(present, paths, 0) =~= base);
        assert(text::lines(base) + paths.take(0).filter(|p: Seq<char>| !present.contains(p))
            =~= text::lines(base));
    }
}

} // verus!
