//! One thing that should exist in the file system, and why.

use crate::actions::git::config::{GitRepoConfig, RepoView};
use crate::actions::symlink::LinkType;
use crate::overlays::FileMode;
use vstd::prelude::*;

verus! {

/// What an entry is once it exists.
#[derive(Debug, Clone, Copy, PartialEq, Eq, Structural)]
pub enum EntryKind {
    Directory,
    File,
    Symlink,
}

/// How an entry comes to exist.
#[derive(Debug, PartialEq, Eq)]
pub enum MaterializationIntent {
    /// A plain directory.
    Directory,
    /// A link to one file.
    SymlinkFile { source: String, link_type: LinkType },
    /// A link to a directory as a unit.
    SymlinkDirectory { source: String, link_type: LinkType },
    /// A git repository.
    Checkout,
    /// A directory whose files are kept in a repository elsewhere.
    VirtualCheckout,
    /// A managed block inside a file.
    PartialFile { content: String, marker: String },
}

/// [`MaterializationIntent`] over text.
pub enum IntentView {
    Directory,
    SymlinkFile { source: Seq<char>, link_type: LinkType },
    SymlinkDirectory { source: Seq<char>, link_type: LinkType },
    Checkout,
    VirtualCheckout,
    PartialFile { content: Seq<char>, marker: Seq<char> },
}

impl View for MaterializationIntent {
    type V = IntentView;

    open spec fn view(&self) -> IntentView {
        match *self {
            MaterializationIntent::Directory => IntentView::Directory,
            MaterializationIntent::SymlinkFile { source, link_type } => IntentView::SymlinkFile {
                source: source@,
                link_type,
            },
            MaterializationIntent::SymlinkDirectory {
                source,
                link_type,
            } => IntentView::SymlinkDirectory { source: source@, link_type },
            MaterializationIntent::Checkout => IntentView::Checkout,
            MaterializationIntent::VirtualCheckout => IntentView::VirtualCheckout,
            MaterializationIntent::PartialFile { content, marker } => IntentView::PartialFile {
                content: content@,
                marker: marker@,
            },
        }
    }
}

impl IntentView {
    /// What the entry is once it exists.
    pub open spec fn kind(self) -> EntryKind {
        match self {
            IntentView::Directory | IntentView::Checkout | IntentView::VirtualCheckout => {
                EntryKind::Directory
            },
            IntentView::SymlinkFile { .. } | IntentView::SymlinkDirectory { .. } => {
                EntryKind::Symlink
            },
            IntentView::PartialFile { .. } => EntryKind::File,
        }
    }
}

impl MaterializationIntent {
    /// What the entry is once it exists.
    pub fn kind(&self) -> (r: EntryKind)
        ensures
            r == self@.kind(),
    {
        match self {
            MaterializationIntent::Directory => EntryKind::Directory,
            MaterializationIntent::Checkout => EntryKind::Directory,
            MaterializationIntent::VirtualCheckout => EntryKind::Directory,
            MaterializationIntent::SymlinkFile { .. } => EntryKind::Symlink,
            MaterializationIntent::SymlinkDirectory { .. } => EntryKind::Symlink,
            MaterializationIntent::PartialFile { .. } => EntryKind::File,
        }
    }
}

/// Where an entry comes from.
#[derive(Debug, PartialEq, Eq)]
#[allow(inconsistent_fields)]
pub enum Provenance {
    /// A file or a directory of the overlay.
    Overlay { overlay: String, source: String },
    /// A sidecar that declares a link.
    SymlinkSidecar { overlay: String, config: String, template: String, resolved: String },
    /// A git repository of the overlay.
    Git { overlay: String, repo_key: String, config: Box<GitRepoConfig> },
    /// A sidecar that declares a managed block.
    PartialSidecar { overlay: String, config: String },
}

/// [`Provenance`] over text.
#[allow(inconsistent_fields)]
pub enum ProvenanceView {
    Overlay { overlay: Seq<char>, source: Seq<char> },
    SymlinkSidecar {
        overlay: Seq<char>,
        config: Seq<char>,
        template: Seq<char>,
        resolved: Seq<char>,
    },
    Git { overlay: Seq<char>, repo_key: Seq<char>, config: RepoView },
    PartialSidecar { overlay: Seq<char>, config: Seq<char> },
}

impl View for Provenance {
    type V = ProvenanceView;

    open spec fn view(&self) -> ProvenanceView {
        match *self {
            Provenance::Overlay { overlay, source } => ProvenanceView::Overlay {
                overlay: overlay@,
                source: source@,
            },
            Provenance::SymlinkSidecar {
                overlay,
                config,
                template,
                resolved,
            } => ProvenanceView::SymlinkSidecar {
                overlay: overlay@,
                config: config@,
                template: template@,
                resolved: resolved@,
            },
            Provenance::Git { overlay, repo_key, config } => ProvenanceView::Git {
                overlay: overlay@,
                repo_key: repo_key@,
                config: (*config)@,
            },
            Provenance::PartialSidecar { overlay, config } => ProvenanceView::PartialSidecar {
                overlay: overlay@,
                config: config@,
            },
        }
    }
}

impl ProvenanceView {
    /// The overlay that the entry belongs to.
    pub open spec fn overlay(self) -> Seq<char> {
        match self {
            ProvenanceView::Overlay { overlay, .. } => overlay,
            ProvenanceView::SymlinkSidecar { overlay, .. } => overlay,
            ProvenanceView::Git { overlay, .. } => overlay,
            ProvenanceView::PartialSidecar { overlay, .. } => overlay,
        }
    }
}

/// One thing that should exist.
#[derive(Debug, PartialEq, Eq)]
pub struct DesiredEntry {
    pub target: String,
    pub provenance: Provenance,
    pub intent: MaterializationIntent,
    /// The permissions that it should have, where that is declared.
    pub permissions: Option<FileMode>,
}

/// [`DesiredEntry`] over text.
pub struct EntryView {
    pub target: Seq<char>,
    pub provenance: ProvenanceView,
    pub intent: IntentView,
    pub permissions: Option<FileMode>,
}

impl View for DesiredEntry {
    type V = EntryView;

    open spec fn view(&self) -> EntryView {
        EntryView {
            target: self.target@,
            provenance: self.provenance@,
            intent: self.intent@,
            permissions: self.permissions,
        }
    }
}

impl DesiredEntry {
    /// What the entry is once it exists.
    pub fn kind(&self) -> (r: EntryKind)
        ensures
            r == self@.intent.kind(),
    {
        self.intent.kind()
    }
}

/// The entries over text.
pub open spec fn entry_views(v: Seq<DesiredEntry>) -> Seq<EntryView> {
    v.map_values(|e: DesiredEntry| e@)
}

/// Links are links, blocks are kept in files, and everything else is a directory.
pub proof fn intents_have_their_kind(i: IntentView)
    ensures
        i.kind() is Symlink <==> i is SymlinkFile || i is SymlinkDirectory,
        i.kind() is File <==> i is PartialFile,
        i.kind() is Directory <==> i is Directory || i is Checkout || i is VirtualCheckout,
{
}

} // verus!
