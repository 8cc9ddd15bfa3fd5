//! Declared links.

use over::actions::symlink::{
    discover_symlinks, EnsureSymlink, LinkMethod, LinkState, LinkStep, LinkType, SymlinkConfig,
};
use over::exec::Context;

fn s(t: &str) -> String {
    t.to_string()
}

fn ctx(dry_run: bool) -> Context {
    Context {
        dry_run,
        debug: false,
        verbose: false,
        force: false,
        no_prompt: false,
        no_uses: false,
        overlay: None,
    }
}

fn config(target: &str) -> SymlinkConfig {
    SymlinkConfig { target: s(target), link_type: LinkType::Soft }
}

fn names(results: &[(String, SymlinkConfig)]) -> Vec<&str> {
    results.iter().map(|r| r.0.as_str()).collect()
}

#[test]
fn link_type_default_is_soft() {
    assert_eq!(LinkType::default(), LinkType::Soft);
}

#[test]
fn discover_symlinks_finds_files() {
    let results = discover_symlinks(vec![
        (s("sub/tool.link.toml"), config("/opt/tool")),
        (s("nvim.link.toml"), config("/opt/nvim")),
    ])
    .unwrap();
    assert_eq!(names(&results), vec!["nvim", "sub/tool"]);
}

#[test]
fn discover_symlinks_yaml_also_found() {
    let results = discover_symlinks(vec![(s("app.link.yaml"), config("/opt/app"))]).unwrap();
    assert_eq!(names(&results), vec!["app"]);
    assert_eq!(results[0].1.target, "/opt/app");
}

#[test]
fn discover_symlinks_toml_takes_precedence_over_yaml() {
    let results = discover_symlinks(vec![
        (s("app.link.toml"), config("/from-toml")),
        (s("app.link.yaml"), config("/from-yaml")),
    ])
    .unwrap();
    assert_eq!(names(&results), vec!["app"]);
    assert_eq!(results[0].1.target, "/from-toml");
}

#[test]
fn discover_symlinks_skips_empty_target() {
    let results = discover_symlinks(vec![(s("bad.link.toml"), config(""))]).unwrap();
    assert!(results.is_empty());
}

#[test]
fn discover_symlinks_yaml_first_toml_second_toml_wins() {
    let results = discover_symlinks(vec![
        (s("app.link.yaml"), config("/from-yaml")),
        (s("app.link.toml"), config("/from-toml")),
    ])
    .unwrap();
    assert_eq!(names(&results), vec!["app"]);
    assert_eq!(results[0].1.target, "/from-toml");
}

#[test]
fn discover_symlinks_empty_dir() {
    assert!(discover_symlinks(vec![]).unwrap().is_empty());
}

#[test]
fn discover_symlinks_refuses_other_files() {
    let e = discover_symlinks(vec![(s("app.toml"), config("/a"))]).unwrap_err();
    assert_eq!(e, "unexpected symlink config file: app.toml");
}

#[test]
fn ensure_symlink_display_soft() {
    let action = EnsureSymlink::new(s("/src/file.txt"), s("/dst/file.txt"), LinkType::Soft, false);
    let display = action.label(&action.source, &action.target);
    assert_eq!(display, "symlink: /src/file.txt -> /dst/file.txt (symlink)");
    assert!(display.contains("symlink"));
    assert!(display.contains("/src/file.txt"));
    assert!(display.contains("/dst/file.txt"));
}

#[test]
fn ensure_symlink_display_hard() {
    let action = EnsureSymlink::new(s("/src/file.txt"), s("/dst/file.txt"), LinkType::Hard, false);
    let display = action.label(&action.source, &action.target);
    assert!(display.contains("hardlink"));
}

fn step(link_type: LinkType, is_dir: bool, state: LinkState) -> LinkStep {
    EnsureSymlink::new(s("/source"), s("/target"), link_type, is_dir).execute(&ctx(false), &state)
}

fn fresh(how: LinkMethod) -> LinkStep {
    LinkStep::Link { remove: false, how }
}

fn over_old(how: LinkMethod) -> LinkStep {
    LinkStep::Link { remove: true, how }
}

#[test]
fn ensure_symlink_creates_soft_link_file() {
    assert_eq!(step(LinkType::Soft, false, LinkState::Missing), fresh(LinkMethod::SoftFile));
}

#[test]
fn ensure_symlink_creates_soft_link_dir() {
    assert_eq!(step(LinkType::Soft, true, LinkState::Missing), fresh(LinkMethod::SoftDirectory));
}

#[test]
fn ensure_symlink_hard_link_file() {
    assert_eq!(step(LinkType::Hard, false, LinkState::Missing), fresh(LinkMethod::HardOrSoftFile));
}

#[test]
fn ensure_symlink_hard_link_dir_falls_back() {
    assert_eq!(step(LinkType::Hard, true, LinkState::Missing), fresh(LinkMethod::SoftDirectory));
}

#[test]
fn ensure_symlink_dry_run() {
    let action = EnsureSymlink::new(s("/source"), s("/target"), LinkType::Soft, false);
    assert_eq!(action.execute(&ctx(true), &LinkState::Missing), LinkStep::Done);
}

#[test]
fn ensure_symlink_already_linked() {
    assert_eq!(step(LinkType::Soft, false, LinkState::Symlink(s("/source"))), LinkStep::Done);
    // paths are compared by their parts
    assert_eq!(step(LinkType::Soft, false, LinkState::Symlink(s("/source/"))), LinkStep::Done);
}

#[test]
fn ensure_symlink_already_linked_dir() {
    assert_eq!(step(LinkType::Soft, true, LinkState::Symlink(s("/source"))), LinkStep::Done);
}

#[test]
fn ensure_symlink_overwrites_wrong_symlink() {
    assert_eq!(
        step(LinkType::Soft, false, LinkState::Symlink(s("/wrong"))),
        over_old(LinkMethod::SoftFile)
    );
}

#[test]
fn ensure_symlink_overwrites_regular_file() {
    assert_eq!(step(LinkType::Soft, false, LinkState::Other), over_old(LinkMethod::SoftFile));
}

#[test]
fn ensure_symlink_overwrites_existing_dir() {
    assert_eq!(step(LinkType::Soft, true, LinkState::Other), over_old(LinkMethod::SoftDirectory));
}

#[test]
fn ensure_symlink_overwrites_wrong_dir_symlink() {
    assert_eq!(
        step(LinkType::Soft, true, LinkState::Symlink(s("/wrong"))),
        over_old(LinkMethod::SoftDirectory)
    );
}
