//! Entries and trees of entries.

use over::actions::symlink::LinkType;
use over::desired::entry::{DesiredEntry, EntryKind, MaterializationIntent, Provenance};
use over::desired::tree::DesiredTree;

fn s(t: &str) -> String {
    t.to_string()
}

#[test]
fn directory_intent_kind_is_directory() {
    assert_eq!(MaterializationIntent::Directory.kind(), EntryKind::Directory);
}

#[test]
fn checkout_intent_kind_is_directory() {
    assert_eq!(MaterializationIntent::Checkout.kind(), EntryKind::Directory);
}

#[test]
fn symlink_file_intent_kind_is_symlink() {
    let intent = MaterializationIntent::SymlinkFile {
        source: s("/src"),
        link_type: LinkType::Soft,
    };
    assert_eq!(intent.kind(), EntryKind::Symlink);
}

#[test]
fn symlink_directory_intent_kind_is_symlink() {
    let intent = MaterializationIntent::SymlinkDirectory {
        source: s("/src"),
        link_type: LinkType::Soft,
    };
    assert_eq!(intent.kind(), EntryKind::Symlink);
}

#[test]
fn partial_file_intent_kind_is_file() {
    let intent = MaterializationIntent::PartialFile { content: s("x"), marker: s("m") };
    assert_eq!(intent.kind(), EntryKind::File);
}

#[test]
fn desired_entry_kind_delegates_to_intent() {
    let entry = DesiredEntry {
        target: s("/target"),
        provenance: Provenance::Overlay { overlay: s("ov"), source: s("/src") },
        intent: MaterializationIntent::Directory,
        permissions: None,
    };
    assert_eq!(entry.kind(), EntryKind::Directory);
}

#[test]
fn empty_tree_reports_empty() {
    let tree = DesiredTree::from_entries(vec![]);
    assert!(tree.is_empty());
    assert_eq!(tree.len(), 0);
    assert!(tree.entries().is_empty());
}
