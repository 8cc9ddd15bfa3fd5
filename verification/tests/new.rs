//! Creating overlays.

use over::cli::new::{
    absorb, absorbed_note, build_descriptor, build_toml_descriptor, build_yaml_descriptor,
    check_new, descriptor_path, descriptor_target, inherited_directories, offered_items,
    resolve_format, resolve_inherited_target, resolve_target_path, Descriptor, TargetItem,
};
use over::overlays::Format;

fn s(t: &str) -> String {
    t.to_string()
}

fn git(pairs: &[(&str, &str)]) -> Vec<(String, String)> {
    pairs.iter().map(|(k, v)| (s(k), s(v))).collect()
}

const HOME: &str = "/home/user";

fn home() -> Option<String> {
    Some(s(HOME))
}

#[test]
fn test_resolve_target_path_tilde() {
    assert_eq!(resolve_target_path("~", &home()).unwrap(), HOME);
}

#[test]
fn test_resolve_target_path_tilde_subdir() {
    assert_eq!(resolve_target_path("~/apps/foo", &home()).unwrap(), "/home/user/apps/foo");
}

#[test]
fn test_resolve_target_path_absolute() {
    assert_eq!(resolve_target_path("/tmp/overlay-test", &home()).unwrap(), "/tmp/overlay-test");
}

#[test]
fn test_resolve_target_path_relative() {
    assert_eq!(resolve_target_path("relative/path", &home()).unwrap(), "relative/path");
}

#[test]
fn test_resolve_target_path_tilde_deep_nesting() {
    assert_eq!(resolve_target_path("~/a/b/c/d", &home()).unwrap(), "/home/user/a/b/c/d");
}

#[test]
fn resolve_target_path_needs_a_home_directory() {
    assert_eq!(
        resolve_target_path("/tmp", &None).unwrap_err(),
        "could not determine home directory"
    );
}

#[test]
fn test_build_toml_descriptor_no_target() {
    let content = build_toml_descriptor(None, &git(&[]));
    assert_eq!(content, "");
}

#[test]
fn test_build_toml_descriptor_with_target() {
    let content = build_toml_descriptor(Some("~/apps/myapp"), &git(&[]));
    assert_eq!(content, "target = \"~/apps/myapp\"\n");
}

#[test]
fn test_build_toml_descriptor_with_git() {
    let git = git(&[("myrepo", "https://github.com/user/myrepo.git")]);
    let content = build_toml_descriptor(Some("~/apps/myapp"), &git);
    assert_eq!(
        content,
        "target = \"~/apps/myapp\"\n\n[git]\nmyrepo = { url = \"https://github.com/user/myrepo.git\" }\n"
    );
}

#[test]
fn test_build_toml_descriptor_git_only() {
    let git = git(&[
        ("zrepo", "https://example.com/z.git"),
        ("arepo", "https://example.com/a.git"),
    ]);
    let content = build_toml_descriptor(None, &git);
    assert!(!content.contains("target"), "should not contain target when None");
    let a_pos = content.find("arepo").unwrap();
    let z_pos = content.find("zrepo").unwrap();
    assert!(a_pos < z_pos, "entries should be sorted alphabetically");
}

#[test]
fn test_build_toml_descriptor_git_sorted() {
    let git = git(&[
        ("zrepo", "https://example.com/z.git"),
        ("arepo", "https://example.com/a.git"),
    ]);
    let content = build_toml_descriptor(Some("~"), &git);
    let a_pos = content.find("arepo").unwrap();
    let z_pos = content.find("zrepo").unwrap();
    assert!(a_pos < z_pos, "entries should be sorted alphabetically");
}

#[test]
fn test_build_toml_descriptor_absolute_target() {
    let content = build_toml_descriptor(Some("/opt/myapp"), &git(&[]));
    assert_eq!(content, "target = \"/opt/myapp\"\n");
}

#[test]
fn test_build_toml_descriptor_multiple_git() {
    let git = git(&[
        ("alpha", "https://example.com/a.git"),
        ("beta", "https://example.com/b.git"),
        ("gamma", "https://example.com/g.git"),
    ]);
    let content = build_toml_descriptor(None, &git);
    assert!(content.contains("[git]"));
    assert!(content.contains("alpha = { url ="));
    assert!(content.contains("beta = { url ="));
    assert!(content.contains("gamma = { url ="));
}

#[test]
fn test_build_yaml_descriptor_no_target() {
    let content = build_yaml_descriptor(None, &git(&[]));
    assert_eq!(content, "");
}

#[test]
fn test_build_yaml_descriptor_with_target() {
    let content = build_yaml_descriptor(Some("~/apps/myapp"), &git(&[]));
    assert_eq!(content, "target: \"~/apps/myapp\"\n");
}

#[test]
fn test_build_yaml_descriptor_with_git() {
    let git = git(&[("myrepo", "https://github.com/user/myrepo.git")]);
    let content = build_yaml_descriptor(Some("~/apps/myapp"), &git);
    assert_eq!(
        content,
        "target: \"~/apps/myapp\"\n\ngit:\n  myrepo:\n    url: \"https://github.com/user/myrepo.git\"\n"
    );
}

#[test]
fn test_build_yaml_descriptor_git_sorted() {
    let git = git(&[
        ("zrepo", "https://example.com/z.git"),
        ("arepo", "https://example.com/a.git"),
    ]);
    let content = build_yaml_descriptor(None, &git);
    let a_pos = content.find("arepo").unwrap();
    let z_pos = content.find("zrepo").unwrap();
    assert!(a_pos < z_pos, "entries should be sorted alphabetically");
}

#[test]
fn test_build_descriptor_dispatches_toml() {
    let content = build_descriptor(Some("~/test"), Format::Toml, &git(&[]));
    assert!(content.starts_with("target = "));
}

#[test]
fn test_build_descriptor_dispatches_yaml() {
    let content = build_descriptor(Some("~/test"), Format::Yaml, &git(&[]));
    assert!(content.starts_with("target: "));
}

#[test]
fn test_build_descriptor_no_target_toml() {
    let content = build_descriptor(None, Format::Toml, &git(&[]));
    assert_eq!(content, "");
}

#[test]
fn test_build_descriptor_no_target_yaml() {
    let content = build_descriptor(None, Format::Yaml, &git(&[]));
    assert_eq!(content, "");
}

#[test]
fn test_build_descriptor_toml_with_git() {
    let git = git(&[("repo", "https://example.com/r.git")]);
    let content = build_descriptor(Some("~/test"), Format::Toml, &git);
    assert!(content.contains("[git]"));
    assert!(content.contains("repo = { url ="));
}

#[test]
fn test_build_descriptor_yaml_with_git() {
    let git = git(&[("repo", "https://example.com/r.git")]);
    let content = build_descriptor(Some("~/test"), Format::Yaml, &git);
    assert!(content.contains("git:"));
    assert!(content.contains("  repo:"));
    assert!(content.contains("    url:"));
}

#[test]
fn test_resolve_inherited_target_no_parent_configs() {
    assert_eq!(resolve_inherited_target(&vec![Descriptor::Missing]), "~");
}

#[test]
fn test_resolve_inherited_target_parent_defines_target() {
    let found = vec![Descriptor::Present { target: Some(s("~/Documents")) }];
    assert_eq!(resolve_inherited_target(&found), "~/Documents");
}

#[test]
fn test_resolve_inherited_target_parent_defines_default() {
    let found = vec![Descriptor::Present { target: Some(s("~")) }];
    assert_eq!(resolve_inherited_target(&found), "~");
}

#[test]
fn test_resolve_inherited_target_nested_parent_wins() {
    assert_eq!(
        inherited_directories("/repo", "/repo/apps/myapp"),
        vec![s("/repo/apps"), s("/repo")]
    );
    let found = vec![
        Descriptor::Present { target: Some(s("~/apps")) },
        Descriptor::Present { target: Some(s("~/Documents")) },
    ];
    assert_eq!(resolve_inherited_target(&found), "~/apps");
}

#[test]
fn test_resolve_inherited_target_overlay_at_repo_root() {
    let descriptor = |directory: &String| match directory.as_str() {
        "/tmp/repo" => Descriptor::Present { target: Some(s("~/custom")) },
        _ => Descriptor::Missing,
    };
    // the overlay is at the root: there are no directories to walk
    let directories = inherited_directories("/tmp/repo", "/tmp/repo");
    assert!(directories.is_empty());
    let found: Vec<Descriptor> = directories.iter().map(descriptor).collect();
    assert_eq!(resolve_inherited_target(&found), "~");
    assert!(inherited_directories("/tmp/repo/", "/tmp/./repo").is_empty());
    // one below it inherits from the root
    let below = inherited_directories("/tmp/repo", "/tmp/repo/app");
    let found: Vec<Descriptor> = below.iter().map(descriptor).collect();
    assert_eq!(resolve_inherited_target(&found), "~/custom");
}

#[test]
fn overlays_inherit_up_to_the_root_of_the_repository() {
    assert_eq!(
        inherited_directories("/repo", "/repo/a/b/c"),
        vec![s("/repo/a/b"), s("/repo/a"), s("/repo")]
    );
    assert_eq!(inherited_directories("", "a/b"), vec![s("a"), s("")]);
}

#[test]
fn a_broken_descriptor_hides_the_others() {
    let found = vec![Descriptor::Present { target: Some(s("~/apps")) }, Descriptor::Broken];
    assert_eq!(resolve_inherited_target(&found), "~");
}

#[test]
fn test_format_resolution_flag_wins() {
    assert_eq!(resolve_format(Some(Format::Yaml), Some(Format::Toml)), Format::Yaml);
}

#[test]
fn test_format_resolution_config_fallback() {
    assert_eq!(resolve_format(None, Some(Format::Yaml)), Format::Yaml);
}

#[test]
fn test_format_resolution_default() {
    assert_eq!(resolve_format(None, None), Format::Toml);
}

#[test]
fn an_existing_overlay_is_kept_unless_forced() {
    assert_eq!(check_new("/repo/a", true, false).unwrap_err(), "overlay already exists at /repo/a");
    assert!(check_new("/repo/a", true, true).is_ok());
    assert!(check_new("/repo/a", false, false).is_ok());
    assert_eq!(descriptor_path("/repo/a", Format::Toml), "/repo/a/over.toml");
    assert_eq!(descriptor_path("/repo/a/", Format::Yaml), "/repo/a/over.yaml");
}

#[test]
fn an_inherited_target_is_not_stated() {
    assert_eq!(descriptor_target("~", "~"), None);
    assert_eq!(descriptor_target("~/a", "~"), Some(s("~/a")));
}

fn item(name: &str, is_dir: bool, has_git: bool, url: Option<&str>) -> TargetItem {
    TargetItem { name: s(name), path: format!("/t/{name}"), is_dir, has_git, url: url.map(s) }
}

#[test]
fn items_are_offered_by_label_and_absorbed_by_kind() {
    let items = vec![
        item("repo", true, true, Some("https://example.com/r.git")),
        item("file", false, false, None),
        item("lost", true, true, None),
        item("dir", true, false, None),
    ];
    let offered = offered_items(items);
    let labels: Vec<&str> = offered.iter().map(|(l, _)| l.as_str()).collect();
    assert_eq!(labels, vec!["dir/", "file", "lost/ (git repo)", "repo/ (git repo)"]);
    let taken = absorb(&offered, &vec![3, 2, 0]);
    assert_eq!(taken.git, git(&[("repo", "https://example.com/r.git")]));
    assert_eq!(taken.files, vec![s("/t/dir")]);
}

#[test]
fn absorbed_paths_are_counted() {
    assert_eq!(absorbed_note(0), "");
    assert_eq!(absorbed_note(1), " (1 path absorbed)");
    assert_eq!(absorbed_note(12), " (12 paths absorbed)");
}
