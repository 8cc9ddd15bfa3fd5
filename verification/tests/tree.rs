//! What overlays ask for.

use over::actions::fs::WalkEntry;
use over::actions::git::config::{AllGitRepoForms, GitRepoConfig};
use over::actions::partial::PartialConfig;
use over::actions::symlink::{LinkType, SymlinkConfig};
use over::desired::entry::{DesiredEntry, MaterializationIntent, Provenance};
use over::desired::tree::{
    declare_block, declare_link, partial_sidecar_config_path, sidecar_config_path, BuildError, DeclaredBlock, DeclaredLink,
    DesiredTree, OverlaySource,
};
use over::overlays::{FileMode, Overlay};

fn s(t: &str) -> String {
    t.to_string()
}

fn source(name: &str, target: &str, uses: &[&str], files: &[&str]) -> OverlaySource {
    let root = format!("/over/{name}");
    OverlaySource {
        overlay: Overlay {
            name: s(name),
            root: root.clone(),
            target: s("~"),
            description: None,
            uses: Some(uses.iter().map(|u| s(u)).collect()),
            link_dirs: None,
            defaults: None,
            rules: None,
            git: None,
            install: None,
        },
        target: Ok(s(target)),
        files: files
            .iter()
            .map(|f| WalkEntry {
                path: format!("{root}/{}", f.trim_end_matches('/')),
                is_dir: f.ends_with('/'),
                link_dir: false,
                excluded: false,
            })
            .collect(),
        links: Ok(vec![]),
        blocks: Ok(vec![]),
    }
}

fn targets(tree: &DesiredTree) -> Vec<&str> {
    tree.entries().iter().map(|e| e.target.as_str()).collect()
}

fn at<'a>(tree: &'a DesiredTree, target: &str) -> &'a DesiredEntry {
    tree.entries().iter().find(|e| e.target == target).unwrap()
}

fn only(o: OverlaySource) -> DesiredTree {
    let name = o.overlay.name.clone();
    DesiredTree::build(&vec![o], &name, false).unwrap()
}

#[test]
fn empty_overlay_has_only_root_directory_entry() {
    let tree = only(source("ov", "/home/user", &[], &["over.toml"]));
    assert_eq!(tree.len(), 1);
    assert_eq!(tree.entries()[0].target, "/home/user");
    assert_eq!(tree.entries()[0].intent, MaterializationIntent::Directory);
}

#[test]
fn plain_files_and_nested_dirs_produce_expected_entries() {
    let files = &["over.toml", "file.txt", "sub/", "sub/nested.txt"];
    let tree = only(source("ov", "/h", &[], files));
    // root dir + file.txt + sub (dir) + sub/nested.txt
    assert_eq!(targets(&tree), vec!["/h", "/h/file.txt", "/h/sub", "/h/sub/nested.txt"]);
    assert_eq!(
        at(&tree, "/h/file.txt").intent,
        MaterializationIntent::SymlinkFile {
            source: s("/over/ov/file.txt"),
            link_type: LinkType::Soft
        }
    );
    assert_eq!(at(&tree, "/h/sub").intent, MaterializationIntent::Directory);
    assert!(matches!(
        at(&tree, "/h/sub/nested.txt").intent,
        MaterializationIntent::SymlinkFile { .. }
    ));
}

#[test]
fn excluded_files_are_absent() {
    let mut o = source("ov", "/h", &[], &["file.txt", "file.bak"]);
    o.files[1].excluded = true;
    assert_eq!(targets(&only(o)), vec!["/h", "/h/file.txt"]);
}

#[test]
fn link_dirs_produce_single_entry_without_children() {
    let mut o = source("ov", "/h", &[], &["mydir/", "mydir/inner.txt"]);
    o.files[0].link_dir = true;
    let tree = only(o);
    assert_eq!(targets(&tree), vec!["/h", "/h/mydir"]);
    assert_eq!(
        at(&tree, "/h/mydir").intent,
        MaterializationIntent::SymlinkDirectory {
            source: s("/over/ov/mydir"),
            link_type: LinkType::Soft
        }
    );
}

fn declared(name: &str, resolved: &str) -> DeclaredLink {
    DeclaredLink {
        name: s(name),
        config: format!("/over/ov/{name}.link.toml"),
        template: s(resolved),
        resolved: s(resolved),
        resolved_is_dir: false,
        link_type: LinkType::Soft,
    }
}

#[test]
fn symlink_sidecar_file_target_produces_symlink_file_entry() {
    let mut o = source("ov", "/h", &[], &["nvim.link.toml"]);
    o.links = Ok(vec![declared("nvim", "/opt/nvim-config")]);
    let tree = only(o);
    assert_eq!(targets(&tree), vec!["/h", "/h/nvim"]);
    let entry = at(&tree, "/h/nvim");
    assert_eq!(
        entry.intent,
        MaterializationIntent::SymlinkFile {
            source: s("/opt/nvim-config"),
            link_type: LinkType::Soft
        }
    );
    assert_eq!(
        entry.provenance,
        Provenance::SymlinkSidecar {
            overlay: s("ov"),
            config: s("/over/ov/nvim.link.toml"),
            template: s("/opt/nvim-config"),
            resolved: s("/opt/nvim-config"),
        }
    );
}

#[test]
fn symlink_sidecar_directory_target_produces_symlink_directory_entry() {
    let mut o = source("ov", "/h", &[], &[]);
    let mut there = declared("there", "/opt/dir");
    there.resolved_is_dir = true;
    o.links = Ok(vec![there, declared("slashed", "/opt/other/")]);
    let tree = only(o);
    for target in ["/h/there", "/h/slashed"] {
        assert!(matches!(
            at(&tree, target).intent,
            MaterializationIntent::SymlinkDirectory { .. }
        ));
    }
}

#[test]
fn symlink_sidecar_hard_type_is_preserved() {
    let mut o = source("ov", "/h", &[], &[]);
    let mut hard = declared("hard", "/opt/file");
    hard.link_type = LinkType::Hard;
    o.links = Ok(vec![hard]);
    assert_eq!(
        at(&only(o), "/h/hard").intent,
        MaterializationIntent::SymlinkFile { source: s("/opt/file"), link_type: LinkType::Hard }
    );
}

fn block(name: &str) -> DeclaredBlock {
    DeclaredBlock {
        name: s(name),
        config: format!("/over/ov/{name}.partial.toml"),
        resolved: s("/ext/.zshrc"),
        content: s("alias x=y"),
        marker: None,
        permissions: None,
    }
}

#[test]
fn partial_sidecar_produces_partial_file_entry_at_rendered_target() {
    let mut o = source("ov", "/h", &[], &["aliases.partial.toml"]);
    o.blocks = Ok(vec![block("aliases")]);
    let tree = only(o);
    assert_eq!(targets(&tree), vec!["/ext/.zshrc", "/h"]);
    let entry = at(&tree, "/ext/.zshrc");
    assert_eq!(
        entry.intent,
        MaterializationIntent::PartialFile { content: s("alias x=y"), marker: s("aliases") }
    );
    assert_eq!(
        entry.provenance,
        Provenance::PartialSidecar {
            overlay: s("ov"),
            config: s("/over/ov/aliases.partial.toml")
        }
    );
    assert_eq!(entry.permissions, None);
}

#[test]
fn partial_sidecar_custom_marker_is_used() {
    let mut o = source("ov", "/h", &[], &[]);
    let mut b = block("aliases");
    b.marker = Some(s("custom"));
    b.permissions = Some(FileMode { bits: 0o600 });
    o.blocks = Ok(vec![b]);
    let tree = only(o);
    assert_eq!(
        at(&tree, "/ext/.zshrc").intent,
        MaterializationIntent::PartialFile { content: s("alias x=y"), marker: s("custom") }
    );
    assert_eq!(at(&tree, "/ext/.zshrc").permissions, Some(FileMode { bits: 0o600 }));
}

fn repository(url: &str) -> GitRepoConfig {
    GitRepoConfig::from(AllGitRepoForms::Simple(s(url)))
}

#[test]
fn git_root_path_produces_checkout_entry_at_target_root() {
    let mut o = source("ov", "/h", &[], &[]);
    o.overlay.git = Some(vec![(s("."), repository("https://example.com/repo.git"))]);
    let tree = only(o);
    let entry = tree
        .entries()
        .iter()
        .find(|e| e.target == "/h" && matches!(e.intent, MaterializationIntent::Checkout))
        .unwrap();
    assert_eq!(
        entry.provenance,
        Provenance::Git {
            overlay: s("ov"),
            repo_key: s("."),
            config: Box::new(repository("https://example.com/repo.git")),
        }
    );
}

#[test]
fn git_named_path_produces_checkout_entry_at_that_path() {
    let mut o = source("ov", "/h", &[], &[]);
    o.overlay.git = Some(vec![(s(".config/nvim"), repository("https://example.com/nvim.git"))]);
    assert_eq!(at(&only(o), "/h/.config/nvim").intent, MaterializationIntent::Checkout);
}

fn family() -> Vec<OverlaySource> {
    vec![
        source("child", "/h/child-target", &[], &["file.txt"]),
        source("parent", "/h/parent-target", &["child"], &["own.txt"]),
    ]
}

#[test]
fn uses_composition_includes_both_overlays_own_targets() {
    let tree = DesiredTree::build(&family(), "parent", false).unwrap();
    let all = targets(&tree);
    assert!(all.contains(&"/h/parent-target/own.txt"));
    assert!(all.contains(&"/h/child-target/file.txt"));
}

#[test]
fn no_uses_excludes_used_overlay_entries() {
    let tree = DesiredTree::build(&family(), "parent", true).unwrap();
    assert_eq!(targets(&tree), vec!["/h/parent-target", "/h/parent-target/own.txt"]);
}

#[test]
fn diamond_dependency_includes_shared_overlay_entries_once() {
    let repo = vec![
        source("a", "/h/a", &["b", "c"], &[]),
        source("b", "/h/b", &["d"], &[]),
        source("c", "/h/c", &["d"], &[]),
        source("d", "/h/d", &[], &["shared.txt"]),
    ];
    let tree = DesiredTree::build(&repo, "a", false).unwrap();
    assert_eq!(targets(&tree), vec!["/h/a", "/h/b", "/h/c", "/h/d", "/h/d/shared.txt"]);
}

#[test]
fn true_cycle_is_detected() {
    let repo = vec![
        source("a_cycle", "/h", &["b_cycle"], &[]),
        source("b_cycle", "/h", &["a_cycle"], &[]),
    ];
    let error = DesiredTree::build(&repo, "a_cycle", false).unwrap_err();
    assert_eq!(
        error.message(),
        "Cycle detected: overlay 'a_cycle' forms a cycle (path: a_cycle -> b_cycle -> a_cycle)"
    );
    // used overlays are not looked at
    assert!(DesiredTree::build(&repo, "a_cycle", true).is_ok());
}

#[test]
fn descriptor_and_sidecar_config_files_are_not_entries() {
    let files = &["over.toml", "app.link.toml", "file.txt"];
    assert_eq!(targets(&only(source("ov", "/h", &[], files))), vec!["/h", "/h/file.txt"]);
}

#[test]
fn entries_are_sorted_by_target() {
    let files = &["zeta.txt", "alpha.txt", "mid/", "mid/file.txt", "mid-x"];
    assert_eq!(
        targets(&only(source("ov", "/h", &[], files))),
        vec!["/h", "/h/alpha.txt", "/h/mid", "/h/mid/file.txt", "/h/mid-x", "/h/zeta.txt"]
    );
}

#[test]
fn own_entries_follow_those_of_used_overlays_at_the_same_target() {
    let repo = vec![source("base", "/h", &[], &[]), source("top", "/h", &["base"], &[])];
    let tree = DesiredTree::build(&repo, "top", false).unwrap();
    assert_eq!(tree.entries()[0].provenance.clone_name(), "base");
    assert_eq!(tree.entries()[1].provenance.clone_name(), "top");
}

trait CloneName {
    fn clone_name(&self) -> String;
}

impl CloneName for Provenance {
    fn clone_name(&self) -> String {
        match self {
            Provenance::Overlay { overlay, .. } => overlay.clone(),
            _ => String::new(),
        }
    }
}

#[test]
fn one_overlay_can_be_looked_at_alone() {
    let tree = DesiredTree::build_own(&family()[1]).unwrap();
    assert_eq!(targets(&tree), vec!["/h/parent-target", "/h/parent-target/own.txt"]);
}

#[test]
fn failures_are_told() {
    let fail = |repo: Vec<OverlaySource>| DesiredTree::build(&repo, "ov", false).unwrap_err();
    assert_eq!(fail(vec![]), BuildError::Unknown(s("ov")));
    assert_eq!(fail(vec![]).message(), "overlay 'ov' not found");
    let lost = fail(vec![source("ov", "/h", &["ghost"], &[])]);
    assert_eq!(lost, BuildError::NotFound(s("ghost")));
    assert_eq!(lost.message(), "used overlay 'ghost' not found");
    let mut o = source("ov", "/h", &[], &[]);
    o.target = Err(s("no home"));
    assert_eq!(
        fail(vec![o]),
        BuildError::Target { overlay: s("ov"), error: s("no home") }
    );
    let mut o = source("ov", "/h", &[], &[]);
    o.links = Err(s("broken"));
    o.blocks = Err(s("broken too"));
    assert_eq!(fail(vec![o]), BuildError::Links { overlay: s("ov"), error: s("broken") });
    let mut o = source("ov", "/h", &[], &[]);
    o.blocks = Err(s("broken"));
    assert_eq!(fail(vec![o]), BuildError::Blocks { overlay: s("ov"), error: s("broken") });
}

#[test]
fn sidecars_declare_links_and_blocks() {
    let link = declare_link(
        "/over/ov",
        s("nvim"),
        SymlinkConfig { target: s("{{ env.X }}"), link_type: LinkType::Hard },
        s("/x"),
        true,
        false,
        true,
        true,
    );
    assert_eq!(
        link,
        DeclaredLink {
            name: s("nvim"),
            config: s("/over/ov/nvim.link.yaml"),
            template: s("{{ env.X }}"),
            resolved: s("/x"),
            resolved_is_dir: true,
            link_type: LinkType::Hard,
        }
    );
    let config = PartialConfig { target: s("t"), content: s("alias x=y"), marker: None };
    assert_eq!(
        declare_block("/over/ov", s("aliases"), config, s("/ext/.zshrc"), None, true, false, false),
        block("aliases")
    );
}

#[test]
fn sidecars_are_found_again_by_precedence() {
    assert_eq!(sidecar_config_path("/o", "a/b", true, true, true), "/o/a/b.link.toml");
    assert_eq!(sidecar_config_path("/o", "a", false, true, true), "/o/a.link.yaml");
    assert_eq!(sidecar_config_path("/o", "a", false, false, true), "/o/a.link.yml");
    assert_eq!(sidecar_config_path("/o", "a", false, false, false), "/o/a.link.toml");
    assert_eq!(
        partial_sidecar_config_path("/o", "a", false, true, false),
        "/o/a.partial.yaml"
    );
}
