//! Links that sidecar files declare.

use crate::exec::Context;
use crate::path;
use crate::path::same_path;
use crate::sidecar;
use crate::sidecar::{collect, Declaration};
use crate::table;
use crate::text::{concat2, concat3};
use vstd::prelude::*;

verus! {

/// The kind of a link.
#[derive(Debug, Clone, Copy, PartialEq, Eq, Structural)]
pub enum LinkType {
    Soft,
    Hard,
}

impl Default for LinkType {
    fn default() -> (r: Self)
        ensures
            r == LinkType::Soft,
    {
        LinkType::Soft
    }
}

/// What a `.link` sidecar declares.
#[derive(Debug, PartialEq, Eq)]
pub struct SymlinkConfig {
    /// What the link points to, as a template.
    pub target: String,
    pub link_type: LinkType,
}

impl Declaration for SymlinkConfig {
    open spec fn usable(&self) -> bool {
        self.target@.len() > 0
    }

    fn is_usable(&self) -> (r: bool) {
        self.target.as_str().unicode_len() > 0
    }
}

/// The links that `sidecars` declare, ordered by name: of several sidecars for
/// one name TOML takes precedence over YAML, and `.yaml` over `.yml`; one
/// without a target is skipped. Fails on a file that is not named like a sidecar.
pub fn discover_symlinks(sidecars: Vec<(String, SymlinkConfig)>) -> (r: Result<
    Vec<(String, SymlinkConfig)>,
    String,
>)
    ensures
        match r {
            Ok(found) => {
                &&& sidecar::first_stray(table::named(sidecars@), ".link"@, 0) is None
                &&& sidecar::declares(table::named(found@), table::named(sidecars@), ".link"@)
            },
            Err(e) => {
                let i = sidecar::first_stray(table::named(sidecars@), ".link"@, 0);
                i is Some && e@ == "unexpected symlink config file: "@ + sidecars@[i->0].0@
            },
        },
{
    let ghost given = sidecars@;
    let mut names: Vec<String> = Vec::new();
    let mut i: usize = 0;
    while i < sidecars.len()
        invariant
            given == sidecars@,
            i <= given.len(),
            names@.len() == i,
            forall|k: int| 0 <= k < i ==> (#[trigger] names@[k])@ == given[k].0@,
        decreases given.len() - i,
    {
        names.push(sidecars[i].0.clone());
        i = i + 1;
    }
    proof {
        sidecar::lemma_first_stray(table::named(given), ".link"@, 0);
    }
    match collect(sidecars, ".link") {
        Ok(found) => Ok(found),
        Err(i) => Err(concat2("unexpected symlink config file: ", names[i].as_str())),
    }
}

/// What stands where a link should be.
#[derive(Debug, PartialEq, Eq)]
pub enum LinkState {
    Missing,
    /// A symlink that points here.
    Symlink(String),
    /// Anything else.
    Other,
}

impl LinkState {
    /// Whether this is a symlink to `source`.
    pub open spec fn links_to(&self, source: Seq<char>) -> bool {
        match *self {
            LinkState::Symlink(to) => path::components(to@) == path::components(source),
            _ => false,
        }
    }

    /// Whether this is a symlink to `source`.
    pub fn is_link_to(&self, source: &str) -> (r: bool)
        ensures
            r == self.links_to(source@),
    {
        match self {
            LinkState::Symlink(to) => same_path(to.as_str(), source),
            _ => false,
        }
    }
}

/// How a declared link is put in place.
#[derive(Debug, Clone, Copy, PartialEq, Eq, Structural)]
pub enum LinkStep {
    /// It is there already, or nothing may be done.
    Done,
    /// Remove what stands at the target where there is something, and link.
    Link { remove: bool, how: LinkMethod },
}

/// How to link.
#[derive(Debug, Clone, Copy, PartialEq, Eq, Structural)]
pub enum LinkMethod {
    SoftFile,
    SoftDirectory,
    /// A hard link, or where that fails a soft one to the file.
    HardOrSoftFile,
}

/// A link of a certain kind from `target` to `source`.
#[derive(Debug, PartialEq, Eq)]
pub struct EnsureSymlink {
    pub source: String,
    pub target: String,
    pub link_type: LinkType,
    pub is_dir: bool,
}

/// How to link: directories cannot be linked hard, and are linked softly instead.
pub open spec fn method(link_type: LinkType, is_dir: bool) -> LinkMethod {
    if is_dir {
        LinkMethod::SoftDirectory
    } else if link_type is Soft {
        LinkMethod::SoftFile
    } else {
        LinkMethod::HardOrSoftFile
    }
}

/// Whether a link to `source` is to be made, given what stands at its target:
/// not where it is there already. What else stands there gives way.
pub fn resolve_conflict(source: &str, state: &LinkState) -> (r: bool)
    ensures
        r == !state.links_to(source@),
{
    !state.is_link_to(source)
}

impl EnsureSymlink {
    pub fn new(source: String, target: String, link_type: LinkType, is_dir: bool) -> (r: Self)
        ensures
            r == (EnsureSymlink { source, target, link_type, is_dir }),
    {
        EnsureSymlink { source, target, link_type, is_dir }
    }

    /// The word for the kind of link.
    pub open spec fn kind(&self) -> Seq<char> {
        match self.link_type {
            LinkType::Soft => "symlink"@,
            LinkType::Hard => "hardlink"@,
        }
    }

    /// The word for the kind of link.
    fn kind_name(&self) -> (r: String)
        ensures
            r@ == self.kind(),
    {
        match self.link_type {
            LinkType::Soft => "symlink".to_owned(),
            LinkType::Hard => "hardlink".to_owned(),
        }
    }

    /// How the link is shown, between paths that are written as `source` and
    /// `target`.
    pub fn label(&self, source: &str, target: &str) -> (r: String)
        ensures
            r@ == self.kind() + ": "@ + source@ + " -> "@ + target@ + " ("@ + self.kind() + ")"@,
    {
        let kind = self.kind_name();
        let mut r = concat3(kind.as_str(), ": ", source);
        r.append(" -> ");
        r.append(target);
        r.append(" (");
        r.append(kind.as_str());
        r.append(")");
        r
    }

    /// Decides what is to be done, given what stands at the target. A dry run
    /// does nothing.
    pub fn execute(&self, ctx: &Context, state: &LinkState) -> (r: LinkStep)
        ensures
            r == if ctx.dry_run || state.links_to(self.source@) {
                LinkStep::Done
            } else {
                LinkStep::Link {
                    remove: !(*state is Missing),
                    how: method(self.link_type, self.is_dir),
                }
            },
    {
        if ctx.dry_run || !resolve_conflict(self.source.as_str(), state) {
            return LinkStep::Done;
        }
        let how = match (self.link_type, self.is_dir) {
            (_, true) => LinkMethod::SoftDirectory,
            (LinkType::Soft, false) => LinkMethod::SoftFile,
            (LinkType::Hard, false) => LinkMethod::HardOrSoftFile,
        };
        let remove = match state {
            LinkState::Missing => false,
            _ => true,
        };
        LinkStep::Link { remove, how }
    }
}

/// A directory is linked softly, a file as it is declared.
pub proof fn directories_are_linked_softly(link_type: LinkType, is_dir: bool)
    ensures
        method(link_type, is_dir) is SoftDirectory <==> is_dir,
        method(link_type, is_dir) is SoftFile <==> !is_dir && link_type is Soft,
        method(link_type, is_dir) is HardOrSoftFile <==> !is_dir && link_type is Hard,
{
}

/// A link leads to a source where it names the same path, and nothing else does.
pub proof fn links_lead_where_they_say(state: LinkState, source: Seq<char>)
    ensures
        state.links_to(source) <==> state is Symlink && path::components(state->Symlink_0@)
            == path::components(source),
{
}

/// A link is declared where it has a target.
pub proof fn links_are_declared_with_a_target(c: SymlinkConfig)
    ensures
        c.usable() <==> c.target@ != Seq::<char>::empty(),
{
    if c.target@.len() == 0 {
        assert(c.target@ =~= Seq::<char>::empty());
    }
}

} // verus!
