//! Adding files to overlays.

use over::cli::add::{add_symlink, compute_default_target, partition, AddedPath};
use over::cli::common::{
    expand_tilde, is_glob_pattern, read_input, resolve_inputs, Found, Input,
};

fn s(t: &str) -> String {
    t.to_string()
}

#[test]
fn compute_default_target_inside_overlay() {
    let result = compute_default_target(
        "/home/user/.over/myoverlay/subdir/file.txt",
        "/home/user/.over/myoverlay",
        "/home/user",
    );
    assert_eq!(result, "subdir/file.txt");
}

#[test]
fn compute_default_target_inside_home() {
    let result = compute_default_target(
        "/home/user/.config/nvim",
        "/home/user/.over/myoverlay",
        "/home/user",
    );
    assert_eq!(result, "~/.config/nvim");
}

#[test]
fn compute_default_target_outside_home() {
    let result = compute_default_target(
        "/opt/nvim/bin/nvim",
        "/home/user/.over/myoverlay",
        "/home/user",
    );
    assert_eq!(result, "/opt/nvim/bin/nvim");
}

#[test]
fn compute_default_target_overlay_root_same_as_home() {
    let result = compute_default_target("/home/user/.config/nvim", "/home/user", "/home/user");
    assert_eq!(result, ".config/nvim");
}

#[test]
fn compute_default_target_link_target_is_overlay_root() {
    let result = compute_default_target(
        "/home/user/.over/myoverlay",
        "/home/user/.over/myoverlay",
        "/home/user",
    );
    assert_eq!(result, "");
}

#[test]
fn links_are_declared_at_their_path_below_the_home_directory() {
    assert_eq!(
        add_symlink("/home/user/.config/nvim", "/over/ov", "/home/user"),
        "/over/ov/.config/nvim.link.toml"
    );
    assert_eq!(add_symlink("rel/link", "/over/ov", "/home/user"), "/over/ov/rel/link.link.toml");
    // a path outside replaces the directory of the overlay
    assert_eq!(add_symlink("/opt/x", "/over/ov", "/home/user"), "/opt/x.link.toml");
}

#[test]
fn links_are_told_from_other_paths() {
    let paths = vec![
        AddedPath { path: s("/a"), is_symlink: true },
        AddedPath { path: s("/b"), is_symlink: false },
        AddedPath { path: s("/c"), is_symlink: true },
    ];
    let (links, others) = partition(&paths);
    assert_eq!(links, vec![s("/a"), s("/c")]);
    assert_eq!(others, vec![s("/b")]);
}

#[test]
fn test_is_glob_pattern() {
    for (input, expected) in [
        ("*.txt", true),
        ("src/**/*.rs", true),
        ("file?.log", true),
        ("[abc].txt", true),
        ("{a,b}.txt", true),
        ("plain.txt", false),
        ("path/to/file.rs", false),
        ("no-special-chars", false),
    ] {
        assert_eq!(is_glob_pattern(input), expected);
    }
}

#[test]
fn test_expand_tilde() {
    let home = Some(s("/home/user"));
    assert_eq!(expand_tilde("~/Documents", &home), "/home/user/Documents");
    assert_eq!(expand_tilde("/absolute/path", &home), "/absolute/path");
    assert_eq!(expand_tilde("relative/path", &home), "relative/path");
    // only ~/... is expanded, not ~user/
    assert_eq!(expand_tilde("~user/path", &home), "~user/path");
    assert_eq!(expand_tilde("~/Documents", &None), "~/Documents");
}

#[test]
fn test_expand_tilde_bare() {
    assert_eq!(expand_tilde("~", &Some(s("/home/user"))), "/home/user");
}

#[test]
fn test_resolve_inputs_absolute_file() {
    let inputs = vec![s("/tmp/hello.txt")];
    let found = vec![Found::Present];
    assert_eq!(
        resolve_inputs(&inputs, &found, "/cwd", &None).unwrap(),
        vec![s("/tmp/hello.txt")]
    );
}

#[test]
fn test_resolve_inputs_nonexistent_errors() {
    let inputs = vec![s("/nonexistent/path/file.txt")];
    assert_eq!(
        resolve_inputs(&inputs, &vec![Found::Absent], "/cwd", &None).unwrap_err(),
        "/nonexistent/path/file.txt does not exist"
    );
}

#[test]
fn test_resolve_inputs_glob_expands() {
    let inputs = vec![s("/t/*.txt"), s("x")];
    let found = vec![Found::Matches(vec![s("/t/a.txt"), s("b.txt")]), Found::Present];
    assert_eq!(
        resolve_inputs(&inputs, &found, "/cwd", &None).unwrap(),
        vec![s("/t/a.txt"), s("/cwd/b.txt"), s("/cwd/x")]
    );
}

#[test]
fn test_resolve_inputs_glob_no_match_errors() {
    let inputs = vec![s("/t/*.nonexistent")];
    assert_eq!(
        resolve_inputs(&inputs, &vec![Found::Matches(vec![])], "/cwd", &None).unwrap_err(),
        "No files matched pattern '/t/*.nonexistent'"
    );
    assert_eq!(
        resolve_inputs(&vec![s("[")], &vec![Found::Invalid(s("bad"))], "/cwd", &None).unwrap_err(),
        "Invalid glob pattern '[': bad"
    );
}

#[test]
fn inputs_are_patterns_or_paths() {
    let home = Some(s("/h"));
    assert_eq!(read_input("~/*.rs", "/cwd", &home), Input::Pattern(s("/h/*.rs")));
    assert_eq!(read_input("a/b", "/cwd", &home), Input::Path(s("/cwd/a/b")));
}
