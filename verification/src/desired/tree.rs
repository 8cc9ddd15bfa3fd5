//! The entries that an overlay and everything it uses ask for.

use crate::actions::fs::{lies_in, WalkEntry};
use crate::actions::git::config;
use crate::actions::git::config::{GitRepoConfig, RepoView};
use crate::actions::partial::PartialConfig;
use crate::actions::symlink::{LinkType, SymlinkConfig};
use crate::desired::entry;
use crate::desired::entry::{
    DesiredEntry, EntryView, IntentView, MaterializationIntent, Provenance, ProvenanceView,
};
use crate::desired::order;
use crate::desired::order::sort_entries;
use crate::uses;
use crate::uses::{Failure, Node};
use crate::glob::Special;
use crate::overlays::{FileMode, Overlay};
use crate::path;
use crate::path::{join_path, strip_base};
use crate::text;
use crate::text::{concat2, join_texts, same};
use vstd::prelude::*;

verus! {

/// A link that a sidecar declares, with what its template came to.
#[derive(Debug, PartialEq, Eq)]
pub struct DeclaredLink {
    /// The name of the link inside the overlay.
    pub name: String,
    /// The sidecar.
    pub config: String,
    pub template: String,
    pub resolved: String,
    /// Whether a directory stands at `resolved`.
    pub resolved_is_dir: bool,
    pub link_type: LinkType,
}

/// A managed block that a sidecar declares, with what its target came to.
#[derive(Debug, PartialEq, Eq)]
pub struct DeclaredBlock {
    /// The name of the sidecar, without its ending.
    pub name: String,
    /// The sidecar.
    pub config: String,
    pub resolved: String,
    pub content: String,
    pub marker: Option<String>,
    /// The permissions that the overlay declares for `name`.
    pub permissions: Option<FileMode>,
}

/// An overlay, and what was met in it.
#[derive(Debug, PartialEq, Eq)]
pub struct OverlaySource {
    pub overlay: Overlay,
    /// The directory that it covers, or why that could not be told.
    pub target: Result<String, String>,
    /// A walk through its directory.
    pub files: Vec<WalkEntry>,
    /// The links that it declares, or why they could not be told.
    pub links: Result<Vec<DeclaredLink>, String>,
    /// The managed blocks that it declares, or why they could not be told.
    pub blocks: Result<Vec<DeclaredBlock>, String>,
}

/// Whether every pattern that a walk needs is valid.
pub open spec fn patterns_valid() -> bool {
    Special::Descriptor.valid() && Special::Link.valid() && Special::Partial.valid()
}

/// Whether the file at `path` is not linked as it stands.
pub open spec fn is_special(path: Seq<char>) -> bool {
    Special::Descriptor.holds(path) || Special::Link.holds(path) || Special::Partial.holds(path)
}

impl OverlaySource {
    /// The names of the overlays that it uses.
    pub open spec fn use_names(&self) -> Seq<Seq<char>> {
        self.overlay.use_names()
    }

    /// What taking it in depends on.
    pub open spec fn node(&self) -> Node {
        Node {
            name: self.overlay.name@,
            uses: self.use_names(),
            placed: self.target is Ok,
            readable: patterns_valid() && self.links is Ok && self.blocks is Ok,
        }
    }

    /// Whether the entry at `i` of the walk becomes something of its own.
    pub open spec fn counts(&self, i: int) -> bool {
        let e = self.files[i];
        !is_special(e.path@) && !e.excluded && path::relative_to(e.path@, self.overlay.root@) is Some
    }

    /// Whether the entry at `i` of the walk is a directory that is linked as a
    /// unit.
    pub open spec fn unit(&self, i: int) -> bool {
        self.counts(i) && self.files[i].is_dir && self.files[i].link_dir
    }

    /// Whether the entry at `i` of the walk lies in a directory that is linked as a
    /// unit.
    pub open spec fn inside_unit(&self, i: int) -> bool {
        exists|j: int|
            0 <= j < i && #[trigger] self.unit(j) && path::path_starts_with(
                self.files[i].path@,
                self.files[j].path@,
            )
    }

    /// The entry for `rel`, a part of the overlay's own tree.
    pub open spec fn walk_entry(&self, target: Seq<char>, e: WalkEntry) -> EntryView {
        EntryView {
            target: path::joined(target, path::relative_to(e.path@, self.overlay.root@)->0),
            provenance: ProvenanceView::Overlay { overlay: self.overlay.name@, source: e.path@ },
            intent: if e.is_dir && e.link_dir {
                IntentView::SymlinkDirectory { source: e.path@, link_type: LinkType::Soft }
            } else if e.is_dir {
                IntentView::Directory
            } else {
                IntentView::SymlinkFile { source: e.path@, link_type: LinkType::Soft }
            },
            permissions: None,
        }
    }

    /// The entries for the first `n` things of the walk: descriptors, sidecars and
    /// what is excluded are passed over, and so is what lies in a directory that is
    /// linked as a unit.
    pub open spec fn walk_entries(&self, target: Seq<char>, n: nat) -> Seq<EntryView>
        decreases n,
    {
        if n == 0 {
            Seq::empty()
        } else {
            let before = self.walk_entries(target, (n - 1) as nat);
            if self.counts(n - 1) && !self.inside_unit(n - 1) {
                before.push(self.walk_entry(target, self.files[n - 1]))
            } else {
                before
            }
        }
    }

    /// The entry for the directory that the overlay covers.
    pub open spec fn root_entry(&self, target: Seq<char>) -> EntryView {
        EntryView {
            target,
            provenance: ProvenanceView::Overlay { overlay: self.overlay.name@, source: self.overlay.root@ },
            intent: IntentView::Directory,
            permissions: None,
        }
    }

    /// The entry for a git repository.
    pub open spec fn git_entry(&self, target: Seq<char>, key: Seq<char>, config: RepoView) -> EntryView {
        EntryView {
            target: if key == config::root_path() {
                target
            } else {
                path::joined(target, key)
            },
            provenance: ProvenanceView::Git { overlay: self.overlay.name@, repo_key: key, config },
            intent: IntentView::Checkout,
            permissions: None,
        }
    }

    /// The entries for the git repositories.
    pub open spec fn git_entries(&self, target: Seq<char>) -> Seq<EntryView> {
        match self.overlay.git {
            Some(g) => g@.map_values(
                |p: (String, GitRepoConfig)| self.git_entry(target, p.0@, p.1@),
            ),
            None => Seq::empty(),
        }
    }

    /// The entry for a declared link: one to a directory where one stands there or
    /// the link names it with a slash at its end.
    pub open spec fn link_entry(&self, target: Seq<char>, l: DeclaredLink) -> EntryView {
        EntryView {
            target: path::joined(target, l.name@),
            provenance: ProvenanceView::SymlinkSidecar {
                overlay: self.overlay.name@,
                config: l.config@,
                template: l.template@,
                resolved: l.resolved@,
            },
            intent: if l.resolved_is_dir || (l.resolved@.len() > 0 && l.resolved@.last() == '/') {
                IntentView::SymlinkDirectory { source: l.resolved@, link_type: l.link_type }
            } else {
                IntentView::SymlinkFile { source: l.resolved@, link_type: l.link_type }
            },
            permissions: None,
        }
    }

    /// The entries for the declared links.
    pub open spec fn link_entries(&self, target: Seq<char>) -> Seq<EntryView> {
        match self.links {
            Ok(l) => l@.map_values(|l: DeclaredLink| self.link_entry(target, l)),
            Err(_) => Seq::empty(),
        }
    }

    /// The entry for a managed block: at the rendered path itself, under the name
    /// of its sidecar where no marker is declared.
    pub open spec fn block_entry(&self, b: DeclaredBlock) -> EntryView {
        EntryView {
            target: b.resolved@,
            provenance: ProvenanceView::PartialSidecar { overlay: self.overlay.name@, config: b.config@ },
            intent: IntentView::PartialFile {
                content: b.content@,
                marker: match b.marker {
                    Some(m) => m@,
                    None => b.name@,
                },
            },
            permissions: b.permissions,
        }
    }

    /// The entries for the managed blocks.
    pub open spec fn block_entries(&self) -> Seq<EntryView> {
        match self.blocks {
            Ok(b) => b@.map_values(|b: DeclaredBlock| self.block_entry(b)),
            Err(_) => Seq::empty(),
        }
    }

    /// What the overlay asks for itself: the directory that it covers, its
    /// repositories, its own tree, its links and its managed blocks.
    pub open spec fn own_entries(&self) -> Seq<EntryView> {
        let target = self.target->Ok_0@;
        seq![self.root_entry(target)] + self.git_entries(target) + self.walk_entries(
            target,
            self.files@.len(),
        ) + self.link_entries(target) + self.block_entries()
    }
}

/// The overlays of a repository.
pub open spec fn nodes(repo: Seq<OverlaySource>) -> Seq<Node> {
    repo.map_values(|o: OverlaySource| o.node())
}

/// What the first `n` overlays of `order` ask for, one after the other.
pub open spec fn collected(repo: Seq<OverlaySource>, order: Seq<int>, n: nat) -> Seq<EntryView>
    decreases n,
{
    if n == 0 {
        Seq::empty()
    } else {
        collected(repo, order, (n - 1) as nat) + repo[order[n - 1]].own_entries()
    }
}

/// Why a tree could not be built.
#[derive(Debug, PartialEq, Eq)]
pub enum BuildError {
    /// No overlay has the name that was asked for.
    Unknown(String),
    /// The target of an overlay could not be told.
    Target { overlay: String, error: String },
    /// An overlay is used by one that it uses itself; the way there and back.
    Cycle { overlay: String, path: String },
    /// An overlay that is used does not exist.
    NotFound(String),
    /// A pattern is not valid.
    Pattern,
    /// The declared links of an overlay could not be told.
    Links { overlay: String, error: String },
    /// The managed blocks of an overlay could not be told.
    Blocks { overlay: String, error: String },
}

/// The names of the listed overlays.
pub open spec fn names_of(nodes: Seq<Node>, list: Seq<int>) -> Seq<Seq<char>> {
    list.map_values(|i: int| nodes[i].name)
}

/// Whether `e` tells of the failure `f`.
pub open spec fn tells(e: BuildError, f: Failure, repo: Seq<OverlaySource>) -> bool {
    match (e, f) {
        (BuildError::Target { overlay, error }, Failure::Unplaced(i)) => {
            &&& 0 <= i < repo.len()
            &&& overlay@ == repo[i].overlay.name@
            &&& repo[i].target is Err
            &&& error == repo[i].target->Err_0
        },
        (BuildError::Cycle { overlay, path }, Failure::Cycle(way)) => {
            &&& way.len() > 0
            &&& overlay@ == nodes(repo)[way.last()].name
            &&& path@ == text::join(names_of(nodes(repo), way), " -> "@)
        },
        (BuildError::NotFound(name), Failure::Missing(n)) => name@ == n,
        (BuildError::Pattern, Failure::Unreadable(_)) => !patterns_valid(),
        (BuildError::Links { overlay, error }, Failure::Unreadable(i)) => {
            &&& patterns_valid()
            &&& 0 <= i < repo.len()
            &&& overlay@ == repo[i].overlay.name@
            &&& repo[i].links is Err
            &&& error == repo[i].links->Err_0
        },
        (BuildError::Blocks { overlay, error }, Failure::Unreadable(i)) => {
            &&& patterns_valid()
            &&& 0 <= i < repo.len()
            &&& overlay@ == repo[i].overlay.name@
            &&& repo[i].links is Ok
            &&& repo[i].blocks is Err
            &&& error == repo[i].blocks->Err_0
        },
        _ => false,
    }
}

/// What to tell the user of a failure.
pub open spec fn build_message(e: BuildError) -> Seq<char> {
    match e {
        BuildError::Unknown(name) => "overlay '"@ + name@ + "' not found"@,
        BuildError::Target { overlay, error } => error@,
        BuildError::Cycle { overlay, path } => "Cycle detected: overlay '"@ + overlay@
            + "' forms a cycle (path: "@ + path@ + ")"@,
        BuildError::NotFound(name) => "used overlay '"@ + name@ + "' not found"@,
        BuildError::Pattern => "invalid pattern"@,
        BuildError::Links { overlay, error } => error@,
        BuildError::Blocks { overlay, error } => error@,
    }
}

impl BuildError {
    /// What to tell the user.
    pub fn message(&self) -> (r: String)
        ensures
            r@ == build_message(*self),
    {
        match self {
            BuildError::Unknown(name) => {
                let mut m = concat2("overlay '", name.as_str());
                m.append("' not found");
                m
            },
            BuildError::Target { error, .. } => error.clone(),
            BuildError::Cycle { overlay, path } => {
                let mut m = concat2("Cycle detected: overlay '", overlay.as_str());
                m.append("' forms a cycle (path: ");
                m.append(path.as_str());
                m.append(")");
                m
            },
            BuildError::NotFound(name) => {
                let mut m = concat2("used overlay '", name.as_str());
                m.append("' not found");
                m
            },
            BuildError::Pattern => "invalid pattern".to_owned(),
            BuildError::Links { error, .. } => error.clone(),
            BuildError::Blocks { error, .. } => error.clone(),
        }
    }
}

/// Positions as integers.
pub open spec fn ints(v: Seq<usize>) -> Seq<int> {
    v.map_values(|i: usize| i as int)
}

fn find_overlay(repo: &Vec<OverlaySource>, name: &str) -> (r: Option<usize>)
    ensures
        match r {
            Some(i) => uses::find(nodes(repo@), name@, 0) == Some(i as int),
            None => uses::find(nodes(repo@), name@, 0) is None,
        },
        r matches Some(i) ==> i < repo@.len(),
{
    let mut i: usize = 0;
    while i < repo.len()
        invariant
            i <= repo@.len(),
            uses::find(nodes(repo@), name@, 0) == uses::find(nodes(repo@), name@, i as int),
        decreases repo@.len() - i,
    {
        assert(nodes(repo@)[i as int].name == repo@[i as int].overlay.name@);
        if same(repo[i].overlay.name.as_str(), name) {
            return Some(i);
        }
        i = i + 1;
    }
    None
}

fn in_list(repo: &Vec<OverlaySource>, list: &Vec<usize>, name: &str) -> (r: bool)
    requires
        forall|k: int| 0 <= k < list@.len() ==> (#[trigger] list@[k]) < repo@.len(),
    ensures
        r == uses::lists(nodes(repo@), ints(list@), name@),
{
    let mut k: usize = 0;
    while k < list.len()
        invariant
            k <= list@.len(),
            forall|k: int| 0 <= k < list@.len() ==> (#[trigger] list@[k]) < repo@.len(),
            forall|m: int|
                0 <= m < k ==> nodes(repo@)[#[trigger] ints(list@)[m]].name != name@,
        decreases list@.len() - k,
    {
        assert(list@[k as int] < repo@.len());
        assert(ints(list@)[k as int] == list@[k as int] as int);
        assert(nodes(repo@)[ints(list@)[k as int]].name == repo@[list@[k as int] as int].overlay.name@);
        if same(repo[list[k]].overlay.name.as_str(), name) {
            return true;
        }
        k = k + 1;
    }
    false
}

fn check_patterns() -> (r: bool)
    ensures
        r == patterns_valid(),
{
    Special::Descriptor.matches_path("").is_ok() && Special::Link.matches_path("").is_ok()
        && Special::Partial.matches_path("").is_ok()
}

fn check_own(o: &OverlaySource) -> (r: Option<BuildError>)
    ensures
        r is None == o.node().readable,
        forall|repo: Seq<OverlaySource>, i: int|
            0 <= i < repo.len() && repo[i] == *o && r is Some ==> #[trigger] tells(
                r->0,
                Failure::Unreadable(i),
                repo,
            ),
{
    if !check_patterns() {
        return Some(BuildError::Pattern);
    }
    match &o.links {
        Err(e) => Some(BuildError::Links { overlay: o.overlay.name.clone(), error: e.clone() }),
        Ok(_) => match &o.blocks {
            Err(e) => Some(BuildError::Blocks { overlay: o.overlay.name.clone(), error: e.clone() }),
            Ok(_) => None,
        },
    }
}

fn cycle_path(repo: &Vec<OverlaySource>, stack: &Vec<usize>, i: usize) -> (r: String)
    requires
        i < repo@.len(),
        forall|k: int| 0 <= k < stack@.len() ==> (#[trigger] stack@[k]) < repo@.len(),
    ensures
        r@ == text::join(names_of(nodes(repo@), ints(stack@).push(i as int)), " -> "@),
{
    let ghost all = names_of(nodes(repo@), ints(stack@).push(i as int));
    let mut names: Vec<String> = Vec::new();
    let mut k: usize = 0;
    while k < stack.len()
        invariant
            k <= stack@.len(),
            all == names_of(nodes(repo@), ints(stack@).push(i as int)),
            forall|k: int| 0 <= k < stack@.len() ==> (#[trigger] stack@[k]) < repo@.len(),
            text::texts(names@) == all.take(k as int),
        decreases stack@.len() - k,
    {
        let ghost before = names@;
        assert(stack@[k as int] < repo@.len());
        names.push(repo[stack[k]].overlay.name.clone());
        assert(all[k as int] == repo@[stack@[k as int] as int].overlay.name@);
        assert(text::texts(names@) =~= text::texts(before).push(all[k as int]));
        assert(text::texts(names@) =~= all.take(k + 1));
        k = k + 1;
    }
    let ghost before = names@;
    names.push(repo[i].overlay.name.clone());
    assert(all[stack@.len() as int] == repo@[i as int].overlay.name@);
    assert(text::texts(names@) =~= text::texts(before).push(all[stack@.len() as int]));
    assert(text::texts(names@) =~= all);
    join_texts(&names, " -> ")
}

/// Takes the overlay `i` in behind `order`, after everything that it uses.
fn build_inner(
    repo: &Vec<OverlaySource>,
    i: usize,
    no_uses: bool,
    order: &mut Vec<usize>,
    stack: &mut Vec<usize>,
) -> (r: Result<(), BuildError>)
    requires
        i < repo@.len(),
        uses::proper(nodes(repo@), ints(old(stack)@)),
        forall|k: int| 0 <= k < old(order)@.len() ==> (#[trigger] old(order)@[k]) < repo@.len(),
    ensures
        match (uses::visit(nodes(repo@), i as int, no_uses, ints(old(order)@), ints(old(stack)@)), r) {
            (Ok(o), Ok(_)) => o == ints(final(order)@) && final(stack)@ == old(stack)@,
            (Err(f), Err(e)) => tells(e, f, repo@),
            _ => false,
        },
        forall|k: int| 0 <= k < final(order)@.len() ==> (#[trigger] final(order)@[k]) < repo@.len(),
    decreases repo@.len() - old(stack)@.len(), 0nat,
{
    let ghost ns = nodes(repo@);
    let ghost start = ints(order@);
    let ghost below = ints(stack@);
    let overlay = &repo[i];
    assert(ns[i as int] == repo@[i as int].node());
    assert forall|k: int| 0 <= k < stack@.len() implies (#[trigger] stack@[k]) < repo@.len() by {
        assert(below[k] == stack@[k] as int);
    }
    if in_list(repo, order, overlay.overlay.name.as_str()) {
        return Ok(());
    }
    if in_list(repo, stack, overlay.overlay.name.as_str()) {
        let path = cycle_path(repo, stack, i);
        return Err(BuildError::Cycle { overlay: overlay.overlay.name.clone(), path });
    }
    if let Err(e) = &overlay.target {
        return Err(BuildError::Target { overlay: overlay.overlay.name.clone(), error: e.clone() });
    }
    proof {
        uses::lemma_push_proper(ns, below, i as int);
        uses::lemma_proper_len(ns, below.push(i as int));
    }
    let ghost stack_before = stack@;
    stack.push(i);
    assert(ints(stack@) =~= below.push(i as int));
    let ghost names = uses::used(ns[i as int], no_uses);
    if let Some(uses) = &overlay.overlay.uses {
        if !no_uses {
            assert(names == text::texts(uses@));
            let mut k: usize = 0;
            while k < uses.len()
                invariant
                    ns == nodes(repo@),
                    k <= uses@.len(),
                    names == text::texts(uses@),
                    stack@ == stack_before.push(i),
                    ints(stack@) == below.push(i as int),
                    below == ints(stack_before),
                    uses::proper(ns, below.push(i as int)),
                    stack@.len() <= repo@.len(),
                    forall|k: int|
                        0 <= k < order@.len() ==> (#[trigger] order@[k]) < repo@.len(),
                    uses::visit_all(ns, names, k as nat, no_uses, start, below.push(i as int)) == Ok::<
                        Seq<int>,
                        Failure,
                    >(ints(order@)),
                    // What leads here, were one of the names to fail.
                    0 <= i < repo@.len(),
                    names == uses::used(ns[i as int], no_uses),
                    uses::proper(ns, below),
                    !uses::lists(ns, start, ns[i as int].name),
                    !uses::lists(ns, below, ns[i as int].name),
                    ns[i as int].placed,
                    start == ints(old(order)@),
                    below == ints(old(stack)@),
                    stack_before == old(stack)@,
                    overlay.overlay.uses is Some,
                    uses == overlay.overlay.uses->0,
                decreases uses@.len() - k,
            {
                let name = uses[k].as_str();
                assert(names[k as int] == name@);
                match find_overlay(repo, name) {
                    None => {
                        proof {
                            lemma_visit_all_fails(
                                ns,
                                names,
                                (k + 1) as nat,
                                names.len(),
                                no_uses,
                                start,
                                below.push(i as int),
                            );
                        }
                        return Err(BuildError::NotFound(name.to_owned()));
                    },
                    Some(j) => {
                        let done = build_inner(repo, j, no_uses, order, stack);
                        if let Err(e) = done {
                            proof {
                                lemma_visit_all_fails(
                                    ns,
                                    names,
                                    (k + 1) as nat,
                                    names.len(),
                                    no_uses,
                                    start,
                                    below.push(i as int),
                                );
                            }
                            return Err(e);
                        }
                    },
                }
                k = k + 1;
            }
        }
    }
    assert(uses::visit_all(ns, names, names.len(), no_uses, start, below.push(i as int)) == Ok::<
        Seq<int>,
        Failure,
    >(ints(order@)));
    if let Some(e) = check_own(overlay) {
        assert(tells(e, Failure::Unreadable(i as int), repo@));
        return Err(e);
    }
    let ghost before = order@;
    order.push(i);
    assert(ints(order@) =~= ints(before).push(i as int));
    stack.pop();
    assert(stack@ =~= stack_before);
    Ok(())
}

/// Appends the entries for the walk through the overlay's own tree.
fn walk_overlay_tree(o: &OverlaySource, target: &str, entries: &mut Vec<DesiredEntry>)
    requires
        patterns_valid(),
    ensures
        entry::entry_views(final(entries)@) == entry::entry_views(old(entries)@) + o.walk_entries(
            target@,
            o.files@.len(),
        ),
{
    let ghost start = entry::entry_views(entries@);
    let mut units: Vec<usize> = Vec::new();
    let mut i: usize = 0;
    assert(entry::entry_views(entries@) =~= start + o.walk_entries(target@, 0));
    while i < o.files.len()
        invariant
            patterns_valid(),
            i <= o.files@.len(),
            entry::entry_views(entries@) == start + o.walk_entries(target@, i as nat),
            forall|k: int|
                0 <= k < units@.len() ==> (#[trigger] units@[k]) < i && o.unit(units@[k] as int),
            forall|j: int|
                0 <= j < i && #[trigger] o.unit(j) ==> exists|k: int|
                    0 <= k < units@.len() && #[trigger] units@[k] == j,
        decreases o.files@.len() - i,
    {
        let e = &o.files[i];
        let path = e.path.as_str();
        let ghost before = entries@;
        let ghost units_before = units@;
        let special = match (
            Special::Descriptor.matches_path(path),
            Special::Link.matches_path(path),
            Special::Partial.matches_path(path),
        ) {
            (Ok(a), Ok(b), Ok(c)) => a || b || c,
            _ => false,
        };
        let inside = lies_in(&o.files, &units, i);
        proof {
            assert(inside == o.inside_unit(i as int)) by {
                if inside {
                    let k = choose|k: int|
                        0 <= k < units@.len() && path::path_starts_with(
                            o.files@[i as int].path@,
                            o.files@[(#[trigger] units@[k]) as int].path@,
                        );
                    assert(o.unit(units@[k] as int));
                }
                if o.inside_unit(i as int) {
                    let j = choose|j: int|
                        0 <= j < i && #[trigger] o.unit(j) && path::path_starts_with(
                            o.files[i as int].path@,
                            o.files[j].path@,
                        );
                    let k = choose|k: int| 0 <= k < units@.len() && #[trigger] units@[k] == j;
                    assert(units@[k] == j);
                }
            }
        }
        let rel = strip_base(path, o.overlay.root.as_str());
        let mut unit = false;
        if !special && !e.excluded {
            if let Some(rel) = rel {
                unit = e.is_dir && e.link_dir;
                if !inside {
                    let intent = if e.is_dir && e.link_dir {
                        MaterializationIntent::SymlinkDirectory {
                            source: e.path.clone(),
                            link_type: LinkType::Soft,
                        }
                    } else if e.is_dir {
                        MaterializationIntent::Directory
                    } else {
                        MaterializationIntent::SymlinkFile {
                            source: e.path.clone(),
                            link_type: LinkType::Soft,
                        }
                    };
                    entries.push(
                        DesiredEntry {
                            target: join_path(target, rel.as_str()),
                            provenance: Provenance::Overlay {
                                overlay: o.overlay.name.clone(),
                                source: e.path.clone(),
                            },
                            intent,
                            permissions: None,
                        },
                    );
                    assert(entry::entry_views(entries@) =~= entry::entry_views(before).push(
                        o.walk_entry(target@, o.files@[i as int]),
                    ));
                }
            }
        }
        assert(entry::entry_views(entries@) =~= start + o.walk_entries(target@, (i + 1) as nat));
        assert(unit == o.unit(i as int));
        if unit {
            units.push(i);
            assert(units@[units@.len() - 1] == i);
        }
        proof {
            assert forall|j: int| 0 <= j < i + 1 && #[trigger] o.unit(j) implies exists|k: int|
                0 <= k < units@.len() && #[trigger] units@[k] == j by {
                if j < i {
                    let k = choose|k: int|
                        0 <= k < units_before.len() && #[trigger] units_before[k] == j;
                    assert(units@[k] == j);
                }
            }
        }
        i = i + 1;
    }
}

/// Appends the entries for the declared links.
fn build_symlink_sidecars(
    o: &OverlaySource,
    links: &Vec<DeclaredLink>,
    target: &str,
    entries: &mut Vec<DesiredEntry>,
)
    ensures
        entry::entry_views(final(entries)@) == entry::entry_views(old(entries)@) + links@.map_values(
            |l: DeclaredLink| o.link_entry(target@, l),
        ),
{
    let ghost start = entry::entry_views(entries@);
    let ghost added = links@.map_values(|l: DeclaredLink| o.link_entry(target@, l));
    let mut i: usize = 0;
    assert(entry::entry_views(entries@) =~= start + added.take(0));
    while i < links.len()
        invariant
            i <= links@.len(),
            added == links@.map_values(|l: DeclaredLink| o.link_entry(target@, l)),
            entry::entry_views(entries@) == start + added.take(i as int),
        decreases links@.len() - i,
    {
        let l = &links[i];
        let ghost before = entries@;
        let n: usize = l.resolved.as_str().unicode_len();
        let is_dir = l.resolved_is_dir || (n > 0 && l.resolved.as_str().get_char(n - 1) == '/');
        let intent = if is_dir {
            MaterializationIntent::SymlinkDirectory {
                source: l.resolved.clone(),
                link_type: l.link_type,
            }
        } else {
            MaterializationIntent::SymlinkFile {
                source: l.resolved.clone(),
                link_type: l.link_type,
            }
        };
        entries.push(
            DesiredEntry {
                target: join_path(target, l.name.as_str()),
                provenance: Provenance::SymlinkSidecar {
                    overlay: o.overlay.name.clone(),
                    config: l.config.clone(),
                    template: l.template.clone(),
                    resolved: l.resolved.clone(),
                },
                intent,
                permissions: None,
            },
        );
        assert(entry::entry_views(entries@) =~= entry::entry_views(before).push(added[i as int]));
        assert(entry::entry_views(entries@) =~= start + added.take(i + 1));
        i = i + 1;
    }
    assert(added.take(links@.len() as int) =~= added);
}

/// Appends the entries for the managed blocks.
fn build_partial_sidecars(
    o: &OverlaySource,
    blocks: &Vec<DeclaredBlock>,
    entries: &mut Vec<DesiredEntry>,
)
    ensures
        entry::entry_views(final(entries)@) == entry::entry_views(old(entries)@) + blocks@.map_values(
            |b: DeclaredBlock| o.block_entry(b),
        ),
{
    let ghost start = entry::entry_views(entries@);
    let ghost added = blocks@.map_values(|b: DeclaredBlock| o.block_entry(b));
    let mut i: usize = 0;
    assert(entry::entry_views(entries@) =~= start + added.take(0));
    while i < blocks.len()
        invariant
            i <= blocks@.len(),
            added == blocks@.map_values(|b: DeclaredBlock| o.block_entry(b)),
            entry::entry_views(entries@) == start + added.take(i as int),
        decreases blocks@.len() - i,
    {
        let b = &blocks[i];
        let ghost before = entries@;
        let marker = match &b.marker {
            Some(m) => m.clone(),
            None => b.name.clone(),
        };
        entries.push(
            DesiredEntry {
                target: b.resolved.clone(),
                provenance: Provenance::PartialSidecar {
                    overlay: o.overlay.name.clone(),
                    config: b.config.clone(),
                },
                intent: MaterializationIntent::PartialFile { content: b.content.clone(), marker },
                permissions: b.permissions,
            },
        );
        assert(entry::entry_views(entries@) =~= entry::entry_views(before).push(added[i as int]));
        assert(entry::entry_views(entries@) =~= start + added.take(i + 1));
        i = i + 1;
    }
    assert(added.take(blocks@.len() as int) =~= added);
}

/// Appends the entries for the git repositories.
fn build_checkouts(
    o: &OverlaySource,
    repos: &Vec<(String, GitRepoConfig)>,
    target: &str,
    entries: &mut Vec<DesiredEntry>,
)
    ensures
        entry::entry_views(final(entries)@) == entry::entry_views(old(entries)@) + repos@.map_values(
            |p: (String, GitRepoConfig)| o.git_entry(target@, p.0@, p.1@),
        ),
{
    let ghost start = entry::entry_views(entries@);
    let ghost added = repos@.map_values(
        |p: (String, GitRepoConfig)| o.git_entry(target@, p.0@, p.1@),
    );
    let mut i: usize = 0;
    assert(entry::entry_views(entries@) =~= start + added.take(0));
    while i < repos.len()
        invariant
            i <= repos@.len(),
            added == repos@.map_values(
                |p: (String, GitRepoConfig)| o.git_entry(target@, p.0@, p.1@),
            ),
            entry::entry_views(entries@) == start + added.take(i as int),
        decreases repos@.len() - i,
    {
        let key = repos[i].0.as_str();
        let ghost before = entries@;
        let repo_target = if same(key, ".") {
            target.to_owned()
        } else {
            join_path(target, key)
        };
        entries.push(
            DesiredEntry {
                target: repo_target,
                provenance: Provenance::Git {
                    overlay: o.overlay.name.clone(),
                    repo_key: repos[i].0.clone(),
                    config: Box::new(repos[i].1.clone()),
                },
                intent: MaterializationIntent::Checkout,
                permissions: None,
            },
        );
        assert(entry::entry_views(entries@) =~= entry::entry_views(before).push(added[i as int]));
        assert(entry::entry_views(entries@) =~= start + added.take(i + 1));
        i = i + 1;
    }
    assert(added.take(repos@.len() as int) =~= added);
}

/// What the overlay asks for itself.
fn collect_own_entries(o: &OverlaySource, target: &str) -> (entries: Vec<DesiredEntry>)
    requires
        o.node().readable,
        o.target is Ok,
        o.target->Ok_0@ == target@,
    ensures
        entry::entry_views(entries@) == o.own_entries(),
{
    let mut entries: Vec<DesiredEntry> = Vec::new();
    entries.push(
        DesiredEntry {
            target: target.to_owned(),
            provenance: Provenance::Overlay { overlay: o.overlay.name.clone(), source: o.overlay.root.clone() },
            intent: MaterializationIntent::Directory,
            permissions: None,
        },
    );
    assert(entry::entry_views(entries@) =~= seq![o.root_entry(target@)]);
    if let Some(repos) = &o.overlay.git {
        build_checkouts(o, repos, target, &mut entries);
    }
    assert(entry::entry_views(entries@) =~= seq![o.root_entry(target@)] + o.git_entries(target@));
    walk_overlay_tree(o, target, &mut entries);
    if let Ok(links) = &o.links {
        build_symlink_sidecars(o, links, target, &mut entries);
    }
    if let Ok(blocks) = &o.blocks {
        build_partial_sidecars(o, blocks, &mut entries);
    }
    assert(entry::entry_views(entries@) =~= o.own_entries());
    entries
}

/// What an overlay, and everything that it uses, asks for, ordered by target.
#[derive(Debug, PartialEq, Eq)]
pub struct DesiredTree {
    entries: Vec<DesiredEntry>,
}

impl View for DesiredTree {
    type V = Seq<EntryView>;

    closed spec fn view(&self) -> Seq<EntryView> {
        entry::entry_views(self.entries@)
    }
}

/// Whether `e` tells why the overlay `name` could not be taken in.
pub open spec fn tells_of(
    e: BuildError,
    repo: Seq<OverlaySource>,
    name: Seq<char>,
    no_uses: bool,
) -> bool {
    match uses::find(nodes(repo), name, 0) {
        None => e is Unknown && e->Unknown_0@ == name,
        Some(i) => uses::taken(nodes(repo), i, no_uses) is Err && tells(
            e,
            uses::taken(nodes(repo), i, no_uses)->Err_0,
            repo,
        ),
    }
}

impl DesiredTree {
    /// What the overlay `name` of a repository and everything that it uses ask
    /// for: what an overlay uses comes before its own entries, unless uses are
    /// switched off, and entries of one target keep that order.
    pub fn build(repo: &Vec<OverlaySource>, name: &str, no_uses: bool) -> (r: Result<
        DesiredTree,
        BuildError,
    >)
        ensures
            match r {
                Ok(tree) => {
                    let i = uses::find(nodes(repo@), name@, 0);
                    &&& i is Some
                    &&& uses::taken(nodes(repo@), i->0, no_uses) matches Ok(order)
                    && tree@ == order::by_target(
                        collected(repo@, order, order.len()),
                    )
                },
                Err(e) => tells_of(e, repo@, name@, no_uses),
            },
    {
        let i = match find_overlay(repo, name) {
            Some(i) => i,
            None => {
                return Err(BuildError::Unknown(name.to_owned()));
            },
        };
        let mut order: Vec<usize> = Vec::new();
        let mut stack: Vec<usize> = Vec::new();
        assert(ints(order@) =~= Seq::<int>::empty());
        assert(ints(stack@) =~= Seq::<int>::empty());
        build_inner(repo, i, no_uses, &mut order, &mut stack)?;
        let ghost o = ints(order@);
        proof {
            crate::uses::each_overlay_follows_what_it_uses(
                nodes(repo@),
                i as int,
                no_uses,
            );
            lemma_taken_can_be_told(nodes(repo@), i as int, no_uses, Seq::empty(), Seq::empty());
        }
        let mut entries: Vec<DesiredEntry> = Vec::new();
        let mut k: usize = 0;
        assert(entry::entry_views(entries@) =~= collected(repo@, o, 0));
        while k < order.len()
            invariant
                k <= order@.len(),
                o == ints(order@),
                entry::entry_views(entries@) == collected(repo@, o, k as nat),
                forall|m: int| 0 <= m < order@.len() ==> (#[trigger] order@[m]) < repo@.len(),
                forall|m: int|
                    0 <= m < o.len() ==> nodes(repo@)[#[trigger] o[m]].placed && nodes(
                        repo@,
                    )[o[m]].readable,
            decreases order@.len() - k,
        {
            let ghost before = entries@;
            assert(order@[k as int] < repo@.len());
            let overlay = &repo[order[k]];
            assert(nodes(repo@)[o[k as int]] == overlay.node());
            if let Ok(target) = &overlay.target {
                let mut own = collect_own_entries(overlay, target.as_str());
                let ghost mine = own@;
                entries.append(&mut own);
                assert(entry::entry_views(entries@) =~= entry::entry_views(before) + entry::entry_views(mine));
            }
            assert(entry::entry_views(entries@) =~= collected(repo@, o, (k + 1) as nat));
            k = k + 1;
        }
        Ok(DesiredTree { entries: sort_entries(entries) })
    }

    /// What the overlay asks for itself, leaving aside what it uses.
    pub fn build_own(o: &OverlaySource) -> (r: Result<DesiredTree, BuildError>)
        ensures
            r is Ok == (o.node().placed && o.node().readable),
            r matches Ok(tree) ==> tree@ == order::by_target(o.own_entries()),
            r matches Err(e) ==> tells(
                e,
                if o.node().placed {
                    Failure::Unreadable(0)
                } else {
                    Failure::Unplaced(0)
                },
                seq![*o],
            ),
    {
        let target = match &o.target {
            Ok(t) => t,
            Err(e) => {
                return Err(BuildError::Target { overlay: o.overlay.name.clone(), error: e.clone() });
            },
        };
        if let Some(e) = check_own(o) {
            assert(seq![*o][0] == *o);
            assert(tells(e, Failure::Unreadable(0), seq![*o]));
            return Err(e);
        }
        Ok(DesiredTree { entries: sort_entries(collect_own_entries(o, target.as_str())) })
    }

    /// The entries, ordered by target.
    pub fn entries(&self) -> (r: &Vec<DesiredEntry>)
        ensures
            entry::entry_views(r@) == self@,
    {
        &self.entries
    }

    /// A tree of exactly these entries.
    pub fn from_entries(entries: Vec<DesiredEntry>) -> (r: Self)
        ensures
            r@ == entry::entry_views(entries@),
    {
        DesiredTree { entries }
    }

    /// How many entries there are.
    pub fn len(&self) -> (r: usize)
        ensures
            r == self@.len(),
    {
        self.entries.len()
    }

    /// Whether there is no entry.
    pub fn is_empty(&self) -> (r: bool)
        ensures
            r == (self@.len() == 0),
    {
        self.entries.len() == 0
    }
}

/// Only managed blocks have permissions declared: links never do, for they show
/// those of what they point to.
pub proof fn only_blocks_have_permissions(o: OverlaySource, k: int)
    requires
        0 <= k < o.own_entries().len(),
    ensures
        o.own_entries()[k].permissions is Some ==> o.own_entries()[k].intent is PartialFile,
        o.own_entries()[k].intent.kind() is Symlink ==> o.own_entries()[k].permissions is None,
{
    lemma_walk_permissions(o, o.target->Ok_0@, o.files@.len());
}

proof fn lemma_walk_permissions(o: OverlaySource, target: Seq<char>, n: nat)
    ensures
        forall|k: int|
            0 <= k < o.walk_entries(target, n).len() ==> (#[trigger] o.walk_entries(
                target,
                n,
            )[k]).permissions is None,
    decreases n,
{
    if n > 0 {
        lemma_walk_permissions(o, target, (n - 1) as nat);
    }
}

/// What an overlay asks for itself comes behind everything that it uses, and is
/// all there.
pub proof fn own_entries_come_last(repo: Seq<OverlaySource>, i: int, no_uses: bool)
    requires
        0 <= i < repo.len(),
    ensures
        uses::taken(nodes(repo), i, no_uses) matches Ok(order) ==> repo[i].own_entries().is_suffix_of(
            collected(repo, order, order.len()),
        ),
{
    crate::uses::each_overlay_follows_what_it_uses(nodes(repo), i, no_uses);
    if let Ok(order) = uses::taken(nodes(repo), i, no_uses) {
        let all = collected(repo, order, order.len());
        let own = repo[i].own_entries();
        assert(order[order.len() - 1] == i);
        assert(own =~= all.subrange(all.len() - own.len(), all.len() as int));
    }
}

/// Every overlay that is taken in is there with everything that it asks for.
pub proof fn entries_of_each_overlay_are_there(
    repo: Seq<OverlaySource>,
    order: Seq<int>,
    k: int,
    e: EntryView,
)
    requires
        0 <= k < order.len(),
        repo[order[k]].own_entries().contains(e),
    ensures
        order::by_target(collected(repo, order, order.len())).contains(e),
{
    lemma_collected(repo, order, order.len(), k, e);
    let s = collected(repo, order, order.len());
    crate::desired::order::ordering_keeps_the_entries(s);
    broadcast use vstd::seq_lib::group_to_multiset_ensures;

    assert(s.to_multiset().count(e) > 0);
}

proof fn lemma_collected(
    repo: Seq<OverlaySource>,
    order: Seq<int>,
    n: nat,
    k: int,
    e: EntryView,
)
    requires
        0 <= k < n <= order.len(),
        repo[order[k]].own_entries().contains(e),
    ensures
        collected(repo, order, n).contains(e),
    decreases n,
{
    let before = collected(repo, order, (n - 1) as nat);
    let own = repo[order[n - 1]].own_entries();
    let all = collected(repo, order, n);
    if k == n - 1 {
        let m = choose|m: int| 0 <= m < own.len() && own[m] == e;
        assert(all[before.len() + m] == e);
    } else {
        lemma_collected(repo, order, (n - 1) as nat, k, e);
        let m = choose|m: int| 0 <= m < before.len() && before[m] == e;
        assert(all[m] == e);
    }
}

/// Which sidecar declared `stem`, given which of them exist.
pub open spec fn config_path(
    root: Seq<char>,
    stem: Seq<char>,
    kind: Seq<char>,
    toml: bool,
    yaml: bool,
    yml: bool,
) -> Seq<char> {
    let ending = if toml || (!yaml && !yml) {
        ".toml"@
    } else if yaml {
        ".yaml"@
    } else {
        ".yml"@
    };
    path::joined(root, stem + kind + ending)
}

fn choose_config(
    root: &str,
    stem: &str,
    kind: &str,
    toml: bool,
    yaml: bool,
    yml: bool,
) -> (r: String)
    ensures
        r@ == config_path(root@, stem@, kind@, toml, yaml, yml),
{
    let mut name = concat2(stem, kind);
    if toml || (!yaml && !yml) {
        name.append(".toml");
    } else if yaml {
        name.append(".yaml");
    } else {
        name.append(".yml");
    }
    join_path(root, name.as_str())
}

/// The sidecar that declared the link `stem`, given which of its three possible
/// files exist: TOML before YAML, `.yaml` before `.yml`, and the TOML file where
/// none does.
pub fn sidecar_config_path(root: &str, stem: &str, toml: bool, yaml: bool, yml: bool) -> (r: String)
    ensures
        r@ == config_path(root@, stem@, ".link"@, toml, yaml, yml),
{
    choose_config(root, stem, ".link", toml, yaml, yml)
}

/// The sidecar that declared the block `stem`, given which of its three possible
/// files exist.
pub fn partial_sidecar_config_path(
    root: &str,
    stem: &str,
    toml: bool,
    yaml: bool,
    yml: bool,
) -> (r: String)
    ensures
        r@ == config_path(root@, stem@, ".partial"@, toml, yaml, yml),
{
    choose_config(root, stem, ".partial", toml, yaml, yml)
}

/// The link that the sidecar `name` of the overlay at `root` declares, given what
/// its template came to, whether a directory stands there, and which of its three
/// possible files exist.
pub fn declare_link(
    root: &str,
    name: String,
    config: SymlinkConfig,
    resolved: String,
    resolved_is_dir: bool,
    toml: bool,
    yaml: bool,
    yml: bool,
) -> (r: DeclaredLink)
    ensures
        r.name == name,
        r.config@ == config_path(root@, name@, ".link"@, toml, yaml, yml),
        r.template == config.target,
        r.resolved == resolved,
        r.resolved_is_dir == resolved_is_dir,
        r.link_type == config.link_type,
{
    let path = sidecar_config_path(root, name.as_str(), toml, yaml, yml);
    DeclaredLink {
        name,
        config: path,
        template: config.target,
        resolved,
        resolved_is_dir,
        link_type: config.link_type,
    }
}

/// The managed block that the sidecar `name` of the overlay at `root` declares,
/// given what its target came to, the permissions that the overlay declares for
/// that name, and which of its three possible files exist.
pub fn declare_block(
    root: &str,
    name: String,
    config: PartialConfig,
    resolved: String,
    permissions: Option<FileMode>,
    toml: bool,
    yaml: bool,
    yml: bool,
) -> (r: DeclaredBlock)
    ensures
        r.name == name,
        r.config@ == config_path(root@, name@, ".partial"@, toml, yaml, yml),
        r.resolved == resolved,
        r.content == config.content,
        r.marker == config.marker,
        r.permissions == permissions,
{
    let path = partial_sidecar_config_path(root, name.as_str(), toml, yaml, yml);
    DeclaredBlock {
        name,
        config: path,
        resolved,
        content: config.content,
        marker: config.marker,
        permissions,
    }
}

proof fn lemma_taken_can_be_told(
    nodes: Seq<Node>,
    i: int,
    no_uses: bool,
    order: Seq<int>,
    stack: Seq<int>,
)
    requires
        0 <= i < nodes.len(),
        uses::proper(nodes, stack),
        forall|m: int|
            0 <= m < order.len() ==> nodes[#[trigger] order[m]].placed && nodes[order[m]].readable,
    ensures
        uses::visit(nodes, i, no_uses, order, stack) matches Ok(o) ==> forall|m: int|
            0 <= m < o.len() ==> nodes[#[trigger] o[m]].placed && nodes[o[m]].readable,
    decreases nodes.len() - stack.len(), 0nat,
{
    if !uses::lists(nodes, order, nodes[i].name) && !uses::lists(nodes, stack, nodes[i].name)
        && nodes[i].placed {
        uses::lemma_push_proper(nodes, stack, i);
        uses::lemma_proper_len(nodes, stack.push(i));
        let names = uses::used(nodes[i], no_uses);
        lemma_all_taken_can_be_told(nodes, names, names.len(), no_uses, order, stack.push(i));
    }
}

proof fn lemma_all_taken_can_be_told(
    nodes: Seq<Node>,
    names: Seq<Seq<char>>,
    n: nat,
    no_uses: bool,
    order: Seq<int>,
    stack: Seq<int>,
)
    requires
        uses::proper(nodes, stack),
        forall|m: int|
            0 <= m < order.len() ==> nodes[#[trigger] order[m]].placed && nodes[order[m]].readable,
    ensures
        uses::visit_all(nodes, names, n, no_uses, order, stack) matches Ok(o) ==> forall|m: int|
            0 <= m < o.len() ==> nodes[#[trigger] o[m]].placed && nodes[o[m]].readable,
    decreases nodes.len() - stack.len(), n + 1,
{
    uses::lemma_proper_len(nodes, stack);
    if n > 0 {
        lemma_all_taken_can_be_told(nodes, names, (n - 1) as nat, no_uses, order, stack);
        uses::lemma_find(nodes, names[n - 1], 0);
        if let Ok(a) = uses::visit_all(nodes, names, (n - 1) as nat, no_uses, order, stack) {
            if let Some(j) = uses::find(nodes, names[n - 1], 0) {
                lemma_taken_can_be_told(nodes, j, no_uses, a, stack);
            }
        }
    }
}

proof fn lemma_visit_all_fails(
    nodes: Seq<Node>,
    names: Seq<Seq<char>>,
    a: nat,
    b: nat,
    no_uses: bool,
    order: Seq<int>,
    stack: Seq<int>,
)
    requires
        a <= b,
        uses::proper(nodes, stack),
        uses::visit_all(nodes, names, a, no_uses, order, stack) is Err,
    ensures
        uses::visit_all(nodes, names, b, no_uses, order, stack) == uses::visit_all(
            nodes,
            names,
            a,
            no_uses,
            order,
            stack,
        ),
    decreases b - a,
{
    if a < b {
        lemma_visit_all_fails(nodes, names, a, (b - 1) as nat, no_uses, order, stack);
    }
}

// What the entries of an overlay are, told from what was met in it.

proof fn lemma_walk_has(o: OverlaySource, target: Seq<char>, n: nat, i: int)
    requires
        0 <= i < n,
        o.counts(i),
        !o.inside_unit(i),
    ensures
        o.walk_entries(target, n).contains(o.walk_entry(target, o.files[i])),
    decreases n,
{
    let e = o.walk_entry(target, o.files[i]);
    let before = o.walk_entries(target, (n - 1) as nat);
    let all = o.walk_entries(target, n);
    if i == n - 1 {
        assert(all[all.len() - 1] == e);
    } else {
        lemma_walk_has(o, target, (n - 1) as nat, i);
        let m = choose|m: int| 0 <= m < before.len() && before[m] == e;
        assert(all[m] == e);
    }
}

proof fn lemma_walk_only(o: OverlaySource, target: Seq<char>, n: nat, m: int)
    requires
        0 <= m < o.walk_entries(target, n).len(),
    ensures
        exists|i: int|
            0 <= i < n && o.counts(i) && !o.inside_unit(i) && o.walk_entries(target, n)[m]
                == o.walk_entry(target, #[trigger] o.files[i]),
    decreases n,
{
    if n > 0 {
        let before = o.walk_entries(target, (n - 1) as nat);
        if m < before.len() {
            lemma_walk_only(o, target, (n - 1) as nat, m);
            assert(o.walk_entries(target, n)[m] == before[m]);
        } else {
            assert(o.walk_entries(target, n)[m] == o.walk_entry(target, o.files[n - 1]));
        }
    }
}

proof fn lemma_own_has(o: OverlaySource, e: EntryView)
    requires
        ({
            let target = o.target->Ok_0@;
            e == o.root_entry(target) || o.git_entries(target).contains(e) || o.walk_entries(
                target,
                o.files@.len(),
            ).contains(e) || o.link_entries(target).contains(e) || o.block_entries().contains(e)
        }),
    ensures
        o.own_entries().contains(e),
{
    let target = o.target->Ok_0@;
    let a = o.git_entries(target);
    let b = o.walk_entries(target, o.files@.len());
    let c = o.link_entries(target);
    let d = o.block_entries();
    let all = o.own_entries();
    if e == o.root_entry(target) {
        assert(all[0] == e);
    } else if a.contains(e) {
        let m = choose|m: int| 0 <= m < a.len() && a[m] == e;
        assert(all[1 + m] == e);
    } else if b.contains(e) {
        let m = choose|m: int| 0 <= m < b.len() && b[m] == e;
        assert(all[1 + a.len() + m] == e);
    } else if c.contains(e) {
        let m = choose|m: int| 0 <= m < c.len() && c[m] == e;
        assert(all[1 + a.len() + b.len() + m] == e);
    } else {
        let m = choose|m: int| 0 <= m < d.len() && d[m] == e;
        assert(all[1 + a.len() + b.len() + c.len() + m] == e);
    }
}

/// The directory that an overlay covers is asked for as a directory.
pub proof fn covered_directories_are_asked_for(o: OverlaySource)
    requires
        o.target is Ok,
    ensures
        exists|e: EntryView| #[trigger]
            o.own_entries().contains(e) && e.target == o.target->Ok_0@ && e.intent is Directory
                && e.permissions is None && e.provenance == (ProvenanceView::Overlay {
                overlay: o.overlay.name@,
                source: o.overlay.root@,
            }),
{
    let e = o.root_entry(o.target->Ok_0@);
    lemma_own_has(o, e);
    assert(o.own_entries().contains(e));
}

/// Every declared link is asked for, with the whole of its name below the directory
/// that the overlay covers, and it points to what its template came to: as a link
/// to a directory where one stands there or the name ends in a slash, and else as a
/// link to a file.
pub proof fn links_go_where_their_names_say(o: OverlaySource, k: int)
    requires
        o.target is Ok,
        o.links is Ok,
        0 <= k < o.links->Ok_0@.len(),
        !path::is_absolute(o.links->Ok_0@[k].name@),
        !path::opens_with_dot(o.links->Ok_0@[k].name@),
    ensures
        ({
            let covered = o.target->Ok_0@;
            let l = o.links->Ok_0@[k];
            exists|e: EntryView| #[trigger]
                o.own_entries().contains(e) && path::components(e.target) == path::components(
                    covered,
                ) + path::components(l.name@) && e.provenance == (ProvenanceView::SymlinkSidecar {
                    overlay: o.overlay.name@,
                    config: l.config@,
                    template: l.template@,
                    resolved: l.resolved@,
                }) && e.permissions is None && if l.resolved_is_dir || "/"@.is_suffix_of(
                    l.resolved@,
                ) {
                    e.intent == (IntentView::SymlinkDirectory {
                        source: l.resolved@,
                        link_type: l.link_type,
                    })
                } else {
                    e.intent == (IntentView::SymlinkFile {
                        source: l.resolved@,
                        link_type: l.link_type,
                    })
                }
        }),
{
    reveal_strlit("/");
    let covered = o.target->Ok_0@;
    let l = o.links->Ok_0@[k];
    let e = o.link_entry(covered, l);
    assert(o.link_entries(covered)[k] == e);
    lemma_own_has(o, e);
    path::joining_appends_components(covered, l.name@);
    let r = l.resolved@;
    if r.len() > 0 {
        assert((r.last() == '/') == ("/"@.is_suffix_of(r))) by {
            if r.last() == '/' {
                assert("/"@ =~= r.subrange(r.len() - 1, r.len() as int));
            } else {
                assert(r.subrange(r.len() - 1, r.len() as int)[0] == r.last());
            }
        }
    }
    assert(o.own_entries().contains(e));
}

/// Every git repository is asked for as a checkout with all that is declared of it:
/// below the directory that the overlay covers, or in its place for the key `.`.
pub proof fn repositories_go_where_their_keys_say(o: OverlaySource, k: int)
    requires
        o.target is Ok,
        o.overlay.git is Some,
        0 <= k < o.overlay.git->0@.len(),
    ensures
        ({
            let covered = o.target->Ok_0@;
            let key = o.overlay.git->0@[k].0@;
            exists|e: EntryView| #[trigger]
                o.own_entries().contains(e) && e.intent is Checkout && e.permissions is None
                    && e.provenance == (ProvenanceView::Git {
                    overlay: o.overlay.name@,
                    repo_key: key,
                    config: o.overlay.git->0@[k].1@,
                }) && (key == "."@ ==> e.target == covered) && (key != "."@ && !path::is_absolute(key)
                    && !path::opens_with_dot(key) ==> path::components(e.target)
                    == path::components(covered) + path::components(key))
        }),
{
    let covered = o.target->Ok_0@;
    let key = o.overlay.git->0@[k].0@;
    let e = o.git_entry(covered, key, o.overlay.git->0@[k].1@);
    assert(o.git_entries(covered)[k] == e);
    lemma_own_has(o, e);
    if !path::is_absolute(key) && !path::opens_with_dot(key) {
        path::joining_appends_components(covered, key);
    }
    assert(o.own_entries().contains(e));
}

/// Every managed block is asked for at the rendered path itself, with its content
/// and its permissions, under the declared marker or else the name of its sidecar.
pub proof fn blocks_go_where_they_are_rendered(o: OverlaySource, k: int)
    requires
        o.target is Ok,
        o.blocks is Ok,
        0 <= k < o.blocks->Ok_0@.len(),
    ensures
        ({
            let b = o.blocks->Ok_0@[k];
            exists|e: EntryView| #[trigger]
                o.own_entries().contains(e) && e.target == b.resolved@ && e.permissions
                    == b.permissions && e.provenance == (ProvenanceView::PartialSidecar {
                    overlay: o.overlay.name@,
                    config: b.config@,
                }) && e.intent is PartialFile && e.intent->content == b.content@ && (
                b.marker is Some ==> e.intent->marker == b.marker->0@) && (b.marker is None
                    ==> e.intent->marker == b.name@)
        }),
{
    let e = o.block_entry(o.blocks->Ok_0@[k]);
    assert(o.block_entries()[k] == e);
    lemma_own_has(o, e);
    assert(o.own_entries().contains(e));
}

/// Whatever lies in an overlay is asked for at the same place below the directory
/// that it covers, unless it is excluded, a descriptor, a sidecar, or lies in a
/// directory that is linked as a unit: directories as directories, or as one link
/// where they are units, and files as links to them.
pub proof fn files_go_where_they_lie_in_the_overlay(o: OverlaySource, i: int)
    requires
        o.target is Ok,
        0 <= i < o.files@.len(),
        path::components(o.overlay.root@).len() > 0,
        path::path_starts_with(o.files@[i].path@, o.overlay.root@),
        !o.files@[i].excluded,
        !Special::Descriptor.holds(o.files@[i].path@),
        !Special::Link.holds(o.files@[i].path@),
        !Special::Partial.holds(o.files@[i].path@),
        forall|j: int|
            0 <= j < i && (#[trigger] o.files@[j]).is_dir && o.files@[j].link_dir
                && !o.files@[j].excluded ==> !path::path_starts_with(
                o.files@[i].path@,
                o.files@[j].path@,
            ),
    ensures
        ({
            let f = o.files@[i];
            exists|e: EntryView| #[trigger]
                o.own_entries().contains(e) && path::components(e.target) == path::components(
                    o.target->Ok_0@,
                ) + path::components(f.path@).skip(path::components(o.overlay.root@).len() as int)
                    && e.provenance == (ProvenanceView::Overlay {
                    overlay: o.overlay.name@,
                    source: f.path@,
                }) && e.permissions is None && (!f.is_dir ==> e.intent
                    == (IntentView::SymlinkFile { source: f.path@, link_type: LinkType::Soft })) && (
                f.is_dir && f.link_dir ==> e.intent == (IntentView::SymlinkDirectory {
                    source: f.path@,
                    link_type: LinkType::Soft,
                })) && (f.is_dir && !f.link_dir ==> e.intent is Directory)
        }),
{
    let covered = o.target->Ok_0@;
    let f = o.files@[i];
    let e = o.walk_entry(covered, f);
    path::stripping_leaves_components(f.path@, o.overlay.root@);
    path::joining_appends_components(covered, path::relative_to(f.path@, o.overlay.root@)->0);
    assert(!o.inside_unit(i)) by {
        if o.inside_unit(i) {
            let j = choose|j: int|
                0 <= j < i && #[trigger] o.unit(j) && path::path_starts_with(
                    o.files[i].path@,
                    o.files[j].path@,
                );
            assert(o.files@[j].is_dir);
        }
    }
    lemma_walk_has(o, covered, o.files@.len(), i);
    lemma_own_has(o, e);
    assert(o.own_entries().contains(e));
}

/// Nothing else is asked for: every entry is that of the covered directory, of
/// something in the overlay that is neither excluded nor a descriptor nor a sidecar
/// and does not lie in a unit, of a declared link or block, or of a repository.
pub proof fn nothing_else_is_asked_for(o: OverlaySource, m: int)
    requires
        o.target is Ok,
        0 <= m < o.own_entries().len(),
        path::components(o.overlay.root@).len() > 0,
    ensures
        ({
            let covered = o.target->Ok_0@;
            let e = o.own_entries()[m];
            match e.provenance {
                ProvenanceView::Overlay { overlay, source } => {
                    &&& overlay == o.overlay.name@
                    &&& (m == 0 && source == o.overlay.root@ && e.target == covered) || (exists|i: int|
                        0 <= i < o.files@.len() && (#[trigger] o.files@[i]).path@ == source
                            && !o.files@[i].excluded && !Special::Descriptor.holds(source)
                            && !Special::Link.holds(source) && !Special::Partial.holds(source)
                            && path::components(e.target) == path::components(covered)
                            + path::components(source).skip(
                            path::components(o.overlay.root@).len() as int,
                        ) && forall|j: int|
                            0 <= j < i && (#[trigger] o.files@[j]).is_dir && o.files@[j].link_dir
                                && !o.files@[j].excluded && path::path_starts_with(
                                o.files@[j].path@,
                                o.overlay.root@,
                            ) && path::path_starts_with(source, o.files@[j].path@)
                                ==> Special::Descriptor.holds(o.files@[j].path@)
                                || Special::Link.holds(o.files@[j].path@) || Special::Partial.holds(
                                o.files@[j].path@,
                            ))
                },
                ProvenanceView::SymlinkSidecar { overlay, config, template, resolved } => {
                    &&& overlay == o.overlay.name@
                    &&& o.links is Ok
                    &&& exists|k: int|
                        0 <= k < o.links->Ok_0@.len() && config == (
                        #[trigger] o.links->Ok_0@[k]).config@ && template
                            == o.links->Ok_0@[k].template@ && resolved == o.links->Ok_0@[k].resolved@
                },
                ProvenanceView::Git { overlay, repo_key, config } => {
                    &&& overlay == o.overlay.name@
                    &&& o.overlay.git is Some
                    &&& exists|k: int|
                        0 <= k < o.overlay.git->0@.len() && repo_key == (
                        #[trigger] o.overlay.git->0@[k]).0@ && config == o.overlay.git->0@[k].1@
                },
                ProvenanceView::PartialSidecar { overlay, config } => {
                    &&& overlay == o.overlay.name@
                    &&& o.blocks is Ok
                    &&& exists|k: int|
                        0 <= k < o.blocks->Ok_0@.len() && config == (
                        #[trigger] o.blocks->Ok_0@[k]).config@ && e.target
                            == o.blocks->Ok_0@[k].resolved@
                },
            }
        }),
{
    let covered = o.target->Ok_0@;
    let e = o.own_entries()[m];
    let a = o.git_entries(covered);
    let b = o.walk_entries(covered, o.files@.len());
    let c = o.link_entries(covered);
    let d = o.block_entries();
    if m == 0 {
    } else if m < 1 + a.len() {
        assert(e == a[m - 1]);
        assert(o.overlay.git->0@[m - 1].0@ == e.provenance->repo_key);
    } else if m < 1 + a.len() + b.len() {
        assert(e == b[m - 1 - a.len()]);
        lemma_walk_only(o, covered, o.files@.len(), m - 1 - a.len());
        let i = choose|i: int|
            0 <= i < o.files@.len() && o.counts(i) && !o.inside_unit(i) && e == o.walk_entry(
                covered,
                #[trigger] o.files[i],
            );
        let source = o.files@[i].path@;
        path::stripping_leaves_components(source, o.overlay.root@);
        path::joining_appends_components(covered, path::relative_to(source, o.overlay.root@)->0);
        assert forall|j: int|
            0 <= j < i && (#[trigger] o.files@[j]).is_dir && o.files@[j].link_dir
                && !o.files@[j].excluded && path::path_starts_with(
                o.files@[j].path@,
                o.overlay.root@,
            ) && path::path_starts_with(source, o.files@[j].path@) implies Special::Descriptor.holds(
            o.files@[j].path@,
        ) || Special::Link.holds(o.files@[j].path@) || Special::Partial.holds(o.files@[j].path@) by {
            if !is_special(o.files@[j].path@) {
                assert(o.unit(j));
            }
        }
        assert(o.files@[i].path@ == source);
    } else if m < 1 + a.len() + b.len() + c.len() {
        assert(e == c[m - 1 - a.len() - b.len()]);
        let l = o.links->Ok_0@[m - 1 - a.len() - b.len()];
        assert(e.provenance->resolved == l.resolved@);
    } else {
        assert(e == d[m - 1 - a.len() - b.len() - c.len()]);
        let l = o.blocks->Ok_0@[m - 1 - a.len() - b.len() - c.len()];
        assert(e.target == l.resolved@);
    }
}

/// Each declared link, block and repository is asked for once.
pub proof fn declarations_are_asked_for_once(o: OverlaySource)
    requires
        o.target is Ok,
        o.links is Ok,
        o.blocks is Ok,
    ensures
        ({
            let repositories = match o.overlay.git {
                Some(g) => g@.len(),
                None => 0,
            };
            &&& o.own_entries().len() >= 1 + repositories + o.links->Ok_0@.len()
                + o.blocks->Ok_0@.len()
            &&& o.own_entries().len() <= 1 + repositories + o.links->Ok_0@.len()
                + o.blocks->Ok_0@.len() + o.files@.len()
        }),
{
    lemma_walk_len(o, o.target->Ok_0@, o.files@.len());
}

proof fn lemma_walk_len(o: OverlaySource, target: Seq<char>, n: nat)
    ensures
        o.walk_entries(target, n).len() <= n,
    decreases n,
{
    if n > 0 {
        lemma_walk_len(o, target, (n - 1) as nat);
    }
}

/// A tree asks for nothing but what the overlays that are taken in ask for.
pub proof fn trees_hold_nothing_else(repo: Seq<OverlaySource>, order: Seq<int>, e: EntryView)
    requires
        order::by_target(collected(repo, order, order.len())).contains(e),
    ensures
        exists|k: int| 0 <= k < order.len() && repo[#[trigger] order[k]].own_entries().contains(e),
{
    let s = collected(repo, order, order.len());
    crate::desired::order::ordering_keeps_the_entries(s);
    broadcast use vstd::seq_lib::group_to_multiset_ensures;

    assert(order::by_target(s).to_multiset().count(e) > 0);
    assert(s.contains(e));
    lemma_collected_only(repo, order, order.len(), e);
}

proof fn lemma_collected_only(repo: Seq<OverlaySource>, order: Seq<int>, n: nat, e: EntryView)
    requires
        n <= order.len(),
        collected(repo, order, n).contains(e),
    ensures
        exists|k: int| 0 <= k < n && repo[#[trigger] order[k]].own_entries().contains(e),
    decreases n,
{
    if n > 0 {
        let before = collected(repo, order, (n - 1) as nat);
        let all = collected(repo, order, n);
        let m = choose|m: int| 0 <= m < all.len() && all[m] == e;
        if m < before.len() {
            assert(before[m] == e);
            lemma_collected_only(repo, order, (n - 1) as nat, e);
        } else {
            let own = repo[order[n - 1]].own_entries();
            assert(own[m - before.len()] == e);
        }
    }
}

/// The sidecar of a link or a block lies in the overlay under the whole name that it
/// declares, with the ending of the first of its possible files that exists: TOML,
/// then `.yaml`, then `.yml`.
pub proof fn sidecars_lie_beside_what_they_declare(
    root: Seq<char>,
    stem: Seq<char>,
    kind: Seq<char>,
    toml: bool,
    yaml: bool,
    yml: bool,
)
    requires
        !path::is_absolute(stem + kind),
    ensures
        ({
            let p = config_path(root, stem, kind, toml, yaml, yml);
            &&& toml ==> (stem + kind + ".toml"@).is_suffix_of(p)
            &&& !toml && yaml ==> (stem + kind + ".yaml"@).is_suffix_of(p)
            &&& !toml && !yaml && yml ==> (stem + kind + ".yml"@).is_suffix_of(p)
            &&& !toml && !yaml && !yml ==> (stem + kind + ".toml"@).is_suffix_of(p)
            &&& root.is_prefix_of(p)
        }),
{
    reveal_strlit(".toml");
    reveal_strlit(".yaml");
    reveal_strlit(".yml");
    let p = config_path(root, stem, kind, toml, yaml, yml);
    let ending = if toml || (!yaml && !yml) {
        ".toml"@
    } else if yaml {
        ".yaml"@
    } else {
        ".yml"@
    };
    let name = stem + kind + ending;
    assert(!path::is_absolute(name)) by {
        if (stem + kind).len() > 0 {
            assert(name[0] == (stem + kind)[0]);
        } else {
            assert(name[0] == '.');
        }
    }
    assert(p.subrange(p.len() - name.len(), p.len() as int) =~= name);
    assert(p.subrange(0, root.len() as int) =~= root);
}

/// A tree that cannot be built is refused with its reason: the overlay that is not
/// there, the circle of uses with every overlay of it, or what went wrong where an
/// overlay was to be placed or read.
pub proof fn refusals_tell_their_reason(
    e: BuildError,
    repo: Seq<OverlaySource>,
    name: Seq<char>,
    no_uses: bool,
    i: int,
)
    requires
        tells_of(e, repo, name, no_uses),
    ensures
        (forall|j: int| 0 <= j < repo.len() ==> (#[trigger] repo[j]).overlay.name@ != name)
            ==> build_message(e) == "overlay '"@ + name + "' not found"@,
        uses::find(nodes(repo), name, 0) == Some(i) ==> (uses::taken(
            nodes(repo),
            i,
            no_uses,
        ) matches Err(f) && match f {
            Failure::Missing(missing) => build_message(e) == "used overlay '"@ + missing
                + "' not found"@,
            Failure::Cycle(way) => build_message(e) == "Cycle detected: overlay '"@ + nodes(
                repo,
            )[way.last()].name + "' forms a cycle (path: "@ + text::join(
                way.map_values(|k: int| nodes(repo)[k].name),
                " -> "@,
            ) + ")"@,
            Failure::Unplaced(k) => repo[k].target is Err && build_message(e)
                == repo[k].target->Err_0@,
            Failure::Unreadable(k) => {
                &&& !patterns_valid() || repo[k].links is Err || repo[k].blocks is Err
                &&& patterns_valid() && repo[k].links is Err ==> build_message(e)
                    == repo[k].links->Err_0@
                &&& patterns_valid() && repo[k].links is Ok ==> build_message(e)
                    == repo[k].blocks->Err_0@
            },
        }),
{
    uses::lemma_find(nodes(repo), name, 0);
    if forall|j: int| 0 <= j < repo.len() ==> (#[trigger] repo[j]).overlay.name@ != name {
        if let Some(j) = uses::find(nodes(repo), name, 0) {
            assert(nodes(repo)[j].name == repo[j].overlay.name@);
        }
    }
}

/// An overlay can be placed where its target was found, and read where its links and
/// its blocks were; it uses what it declares.
pub proof fn overlays_can_be_read_where_everything_was(repo: Seq<OverlaySource>, i: int)
    requires
        0 <= i < repo.len(),
        Special::Descriptor.valid(),
        Special::Link.valid(),
        Special::Partial.valid(),
    ensures
        nodes(repo).len() == repo.len(),
        nodes(repo)[i].name == repo[i].overlay.name@,
        nodes(repo)[i].placed <==> repo[i].target is Ok,
        nodes(repo)[i].readable <==> repo[i].links is Ok && repo[i].blocks is Ok,
        repo[i].overlay.uses is Some ==> nodes(repo)[i].uses == text::texts(
            repo[i].overlay.uses->0@,
        ),
        repo[i].overlay.uses is None ==> nodes(repo)[i].uses.len() == 0,
{
}

/// No overlay can be read where one of the patterns that tell its files apart is
/// broken.
pub proof fn broken_patterns_leave_nothing_to_read(o: OverlaySource)
    requires
        !Special::Descriptor.valid() || !Special::Link.valid() || !Special::Partial.valid(),
    ensures
        !o.node().readable,
{
}

} // verus!
