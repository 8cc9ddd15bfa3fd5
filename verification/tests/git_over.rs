//! The commands for one git repository.

use over::cli::git_over::add::{added_paths, exclude_entries};
use over::cli::git_over::status::{
    find_managed_files, find_unapplied_files, is_overlay_descriptor, is_symlink_to, is_walked,
    linked_place, report_lines, OverlayFile, WorktreeEntry,
};
use over::cli::git_over::{
    exclude_paths, get_overlay_config, main_repo_root, repo_relative_path, resolve_overlay,
    Commands, ConfigRead, OverlayChoice, CLI,
};

fn s(t: &str) -> String {
    t.to_string()
}

fn list(l: &[&str]) -> Vec<String> {
    l.iter().map(|t| s(t)).collect()
}

#[test]
fn git_over_home_is_resolved() {
    let cli = |home: Option<&str>| CLI {
        home: home.map(s),
        debug: false,
        verbose: false,
        cmd: Commands::Status,
    };
    assert_eq!(cli(Some("/o")).resolve_home(&None).unwrap(), "/o");
    assert_eq!(cli(None).resolve_home(&Some(s("/h"))).unwrap(), "/h/.over");
    assert_eq!(
        cli(None).resolve_home(&None).unwrap_err(),
        "could not determine home directory"
    );
}

#[test]
fn test_main_repo_root_regular() {
    assert_eq!(main_repo_root(false, None, Some(s("/repo"))).unwrap(), "/repo");
    assert_eq!(main_repo_root(true, Some(s("/main")), Some(s("/wt"))).unwrap(), "/main");
    assert_eq!(
        main_repo_root(true, None, Some(s("/wt"))).unwrap_err(),
        "could not determine main repository root from worktree"
    );
    assert_eq!(
        main_repo_root(false, Some(s("/main")), None).unwrap_err(),
        "bare repositories are not supported"
    );
}

#[test]
fn test_get_overlay_config_none() {
    assert_eq!(get_overlay_config(ConfigRead::NotFound), Ok(None));
}

#[test]
fn test_set_and_get_overlay_config() {
    assert_eq!(
        get_overlay_config(ConfigRead::Value(s("myoverlay"))),
        Ok(Some(s("myoverlay")))
    );
    assert_eq!(
        get_overlay_config(ConfigRead::Failed(s("locked"))),
        Err(s("failed to read over.overlay from git config: locked"))
    );
}

#[test]
fn test_exclude_paths_creates_file() {
    assert_eq!(exclude_paths("", &list(&["/overlay", "*.bak"])), "/overlay\n*.bak\n");
}

#[test]
fn test_exclude_paths_idempotent() {
    let once = exclude_paths("", &list(&["/overlay"]));
    assert_eq!(exclude_paths(&once, &list(&["/overlay"])), "");
}

#[test]
fn test_exclude_paths_appends_new() {
    let first = exclude_paths("", &list(&["/first"]));
    assert_eq!(exclude_paths(&first, &list(&["/first", "/second"])), "/second\n");
}

#[test]
fn excluded_paths_start_on_a_line_of_their_own() {
    let added = exclude_paths("foo", &list(&["/overlay"]));
    assert_eq!(added, "\n/overlay\n");
    let after = format!("foo{added}");
    assert_eq!(after.lines().collect::<Vec<_>>(), vec!["foo", "/overlay"]);
    assert_eq!(exclude_paths(&after, &list(&["/overlay"])), "");
    assert_eq!(exclude_paths("/overlay", &list(&["/overlay"])), "");
    assert_eq!(exclude_paths("foo\n", &list(&["/overlay"])), "/overlay\n");
}

#[test]
fn test_repo_relative_path_under_target() {
    assert_eq!(repo_relative_path("/td", "/td/projects/myapp").unwrap(), "projects/myapp");
}

#[test]
fn test_repo_relative_path_not_under_target() {
    assert_eq!(
        repo_relative_path("/td/subdir", "/tmp/elsewhere").unwrap_err(),
        "repository /tmp/elsewhere is not under overlay target /td/subdir"
    );
}

#[test]
fn test_resolve_overlay_by_name() {
    assert_eq!(
        resolve_overlay(&Some(s("myoverlay")), &Some(s("dev"))),
        OverlayChoice::Given(s("myoverlay"))
    );
}

#[test]
fn test_resolve_overlay_from_git_config() {
    assert_eq!(resolve_overlay(&None, &Some(s("dev"))), OverlayChoice::Configured(s("dev")));
    assert_eq!(resolve_overlay(&None, &None), OverlayChoice::Ask);
}

#[test]
fn added_files_are_shown_and_excluded_from_the_working_directory() {
    let files = list(&["/repo/a", "/elsewhere/b", "/repo/c/d"]);
    assert_eq!(added_paths(&files, "/repo"), list(&["a", "c/d"]));
    assert_eq!(exclude_entries(&files, "/repo"), list(&["/a", "/c/d"]));
}

#[test]
fn test_is_overlay_descriptor_valid() {
    for name in ["over.yml", "over.yaml", "over.toml"] {
        assert!(is_overlay_descriptor(name));
    }
}

#[test]
fn test_is_overlay_descriptor_invalid() {
    for name in ["over.json", "over.txt", "config.yml", "overlay.yaml", "over", ".yml"] {
        assert!(!is_overlay_descriptor(name));
    }
}

#[test]
fn test_is_overlay_descriptor_nested_path() {
    assert!(is_overlay_descriptor("some/deep/path/over.yml"));
    assert!(!is_overlay_descriptor("some/deep/path/readme.md"));
}

#[test]
fn overlay_descriptor_detection_ignores_leading_path_components() {
    assert!(is_overlay_descriptor("over.toml/over.yaml"));
    assert!(!is_overlay_descriptor("over.toml/other"));
}

fn file(path: &str, canonical: Option<&str>, link: Option<&str>) -> OverlayFile {
    OverlayFile { path: s(path), canonical: canonical.map(s), link: link.map(s) }
}

#[test]
fn test_is_symlink_to_not_a_symlink() {
    assert!(!is_symlink_to(&file("/some/overlay/file", None, None), "/some/overlay"));
}

#[test]
fn test_is_symlink_to_exact_match() {
    let f = file("/td/overlay/config.txt", None, Some("/td/overlay/config.txt"));
    assert!(is_symlink_to(&f, "/td/overlay"));
}

#[test]
fn test_is_symlink_to_different_target() {
    let f = file("/td/overlay/config.txt", None, Some("/td/other/config.txt"));
    assert!(!is_symlink_to(&f, "/td/overlay"));
}

#[test]
fn test_is_symlink_to_relative_path_match() {
    let f = file("/td/overlay/sub/dotfile", None, Some("/td/overlay/./sub/dotfile/"));
    assert!(is_symlink_to(&f, "/td/overlay/"));
}

#[test]
fn test_is_symlink_to_nonexistent_path() {
    assert!(!is_symlink_to(&file("/some/overlay/file", None, None), "/some/overlay"));
}

#[test]
fn regular_file_is_never_considered_a_symlink_to_overlay() {
    let f = file("/some/overlay/file", Some("/some/overlay/file"), None);
    assert!(!is_symlink_to(&f, "/some/overlay"));
}

#[test]
fn missing_path_is_not_treated_as_a_symlink_to_overlay() {
    assert!(!is_symlink_to(&file("/some/overlay/missing", None, None), "/some/overlay"));
}

#[test]
fn symlink_pointing_directly_at_overlay_file_is_recognized() {
    let f = file("/td/overlay/config.txt", None, Some("/td/overlay/config.txt"));
    assert!(is_symlink_to(&f, "/td/overlay"));
}

#[test]
fn symlink_pointing_outside_overlay_is_not_recognized() {
    let f = file("/td/overlay/config.txt", None, Some("/td/other/config.txt"));
    assert!(!is_symlink_to(&f, "/td/overlay"));
}

#[test]
fn symlink_matching_by_relative_path_under_overlay_root_is_recognized() {
    let f = file("/td/overlay/sub/dotfile", None, Some("/td/overlay/sub/dotfile"));
    assert!(is_symlink_to(&f, "/td/overlay"));
}

#[test]
fn test_set_overlay_config_overwrite() {
    assert_eq!(get_overlay_config(ConfigRead::Value(s("second"))), Ok(Some(s("second"))));
}

#[test]
fn symlinks_to_resolved_paths_are_recognized() {
    let f = file("/link/overlay/f", Some("/td/overlay/f"), Some("/td/overlay/f"));
    assert!(is_symlink_to(&f, "/link/overlay"));
}

#[test]
fn files_of_the_overlay_are_found_in_the_working_tree() {
    assert!(is_walked("src"));
    assert!(!is_walked(".git"));
    let entry = |path: &str, link: Option<&str>| WorktreeEntry { path: s(path), link: link.map(s) };
    let entries = vec![
        entry("/repo/a", Some("/over/ov/a")),
        entry("/repo/b", None),
        entry("/repo/c", Some("/over/ovary/c")),
        entry("/repo/d/e", Some("/over/ov/d/e")),
    ];
    assert_eq!(find_managed_files(&entries, "/repo", "/over/ov"), list(&["a", "d/e"]));
}

#[test]
fn files_that_are_not_applied_are_found() {
    let files = vec![
        file("/over/ov/p/over.toml", None, None),
        file("/over/ov/p/a", None, Some("/over/ov/p/a")),
        file("/over/ov/p/b", None, None),
        file("/over/ov/p/c/d", None, Some("/elsewhere")),
    ];
    assert_eq!(find_unapplied_files(&files, "/over/ov/p", "/over/ov"), list(&["b", "c/d"]));
    assert_eq!(linked_place("/over/ov/p/c/d", "/over/ov/p", "/repo"), Some(s("/repo/c/d")));
    assert_eq!(linked_place("/x", "/over/ov/p", "/repo"), None);
}

#[test]
fn reports_have_sections() {
    assert_eq!(
        report_lines(&vec![], &vec![]),
        list(&["  No overlay-managed files found"])
    );
    assert_eq!(
        report_lines(&list(&["a"]), &list(&["b", "c"])),
        list(&[
            "Managed files (1)",
            "  a",
            "",
            "Overlay files not applied (2)",
            "  ? b",
            "  ? c"
        ])
    );
    assert_eq!(
        report_lines(&vec![], &list(&["b"])),
        list(&["Overlay files not applied (1)", "  ? b"])
    );
}
