//! Linking overlays and taking files into them.

use over::actions::fs::{
    add_dir, add_file, add_path, link, resolve_dir_conflict, resolve_file_conflict, ActionLabel,
    AddAs, AddPlan, ConflictChoice, ConflictStep, EnsureDir, EnsureDirLink, EnsureLink,
    EnsureStep, LinkAction, LinkError, MoveBack, MoveFile, PathKind, WalkEntry,
};
use over::actions::symlink::LinkState;
use over::exec::{Context, OverlayPlace};
use over::glob::Special;

fn s(t: &str) -> String {
    t.to_string()
}

fn ctx() -> Context {
    Context {
        dry_run: false,
        debug: false,
        verbose: true,
        force: false,
        no_prompt: false,
        no_uses: false,
        overlay: Some(OverlayPlace {
            name: s("ov"),
            root: s("/over/ov"),
            target: Some(s("/home/user")),
        }),
    }
}

fn dry() -> Context {
    Context { dry_run: true, ..ctx() }
}

#[test]
fn ensure_dir_creates_directory() {
    let action = EnsureDir::new(s("/home/user/new_dir"));
    assert!(action.execute(&ctx()));
    assert!(!action.execute(&dry()));
}

#[test]
fn move_file_moves() {
    let action = MoveFile::new(ctx(), s("/home/user/file.txt"), s("/over/ov/file.txt"));
    assert!(action.execute(&ctx()));
    assert!(!action.execute(&dry()));
    assert_eq!(
        action.label(),
        ActionLabel::Within { from_root: s("/home/user"), to_root: s("/over/ov/"), rel: s("file.txt") }
    );
}

#[test]
fn ensure_link_creates_symlink() {
    let action = EnsureLink::new(ctx(), s("/over/ov/inner.txt"), s("/home/user/inner.txt"));
    assert_eq!(action.execute(&ctx(), &LinkState::Missing), EnsureStep::Link);
    assert_eq!(action.execute(&dry(), &LinkState::Missing), EnsureStep::Done);
    let linked = LinkState::Symlink(s("/over/ov/inner.txt"));
    assert_eq!(action.execute(&ctx(), &linked), EnsureStep::Done);
    assert_eq!(action.execute(&ctx(), &LinkState::Other), EnsureStep::Conflict);
    assert_eq!(
        action.label(),
        ActionLabel::Within {
            from_root: s("/over/ov"),
            to_root: s("/home/user/"),
            rel: s("inner.txt")
        }
    );
}

#[test]
fn ensure_dir_link_creates_dir_symlink() {
    let action = EnsureDirLink::new(ctx(), s("/elsewhere/dir"), s("/home/user/dir"));
    assert_eq!(action.execute(&ctx(), &LinkState::Missing), EnsureStep::Link);
    let wrong = LinkState::Symlink(s("/over/ov/dir"));
    assert_eq!(action.execute(&ctx(), &wrong), EnsureStep::Conflict);
    assert_eq!(
        action.label(),
        ActionLabel::Plain { from: s("/elsewhere/dir"), to: s("/home/user/dir") }
    );
}

#[test]
fn conflicts_are_settled_by_flags_or_by_the_user() {
    let forced = Context { force: true, ..ctx() };
    assert_eq!(resolve_file_conflict(&forced, "/t", None), ConflictStep::Replace);
    let silent = Context { no_prompt: true, ..ctx() };
    assert_eq!(
        resolve_dir_conflict(&silent, "/t", None),
        ConflictStep::Refuse(s("Conflict: /t already exists"))
    );
    assert_eq!(resolve_file_conflict(&ctx(), "/t", None), ConflictStep::Ask);
    assert_eq!(
        resolve_file_conflict(&ctx(), "/t", Some(ConflictChoice::Skip)),
        ConflictStep::Skip
    );
    assert_eq!(
        resolve_file_conflict(&ctx(), "/t", Some(ConflictChoice::Absorb)),
        ConflictStep::AbsorbFile
    );
    assert_eq!(
        resolve_dir_conflict(&ctx(), "/t", Some(ConflictChoice::Absorb)),
        ConflictStep::AbsorbDirectory
    );
    assert_eq!(
        resolve_dir_conflict(&ctx(), "/t", Some(ConflictChoice::Diff)),
        ConflictStep::ShowDiff
    );
    assert_eq!(
        resolve_dir_conflict(&ctx(), "/t", Some(ConflictChoice::Overwrite)),
        ConflictStep::Replace
    );
}

#[test]
fn descriptors_and_sidecars_are_matched_by_pattern() {
    let is = |special: Special, path: &str| special.matches_path(path).unwrap();
    assert!(is(Special::Descriptor, "over.toml"));
    assert!(is(Special::Descriptor, "/over/ov/over.yaml"));
    assert!(is(Special::Descriptor, "/over/ov/over.yml"));
    assert!(!is(Special::Descriptor, "/over/ov/over.json"));
    assert!(!is(Special::Descriptor, "/over/ov/moreover.toml"));
    assert!(is(Special::Link, "/over/ov/a/nvim.link.yml"));
    assert!(!is(Special::Link, "/over/ov/a/nvim.partial.toml"));
    assert!(is(Special::Partial, "aliases.partial.toml"));
    assert!(!is(Special::Partial, "aliases.partial.json"));
}

fn entry(path: &str, is_dir: bool, link_dir: bool) -> WalkEntry {
    WalkEntry { path: s(path), is_dir, link_dir, excluded: false }
}

#[test]
fn linking_passes_over_descriptors_and_what_is_linked_as_a_unit() {
    let walk = vec![
        entry("/over/ov/over.toml", false, false),
        entry("/over/ov/sub", true, false),
        entry("/over/ov/sub/file.txt", false, false),
        entry("/over/ov/unit", true, true),
        entry("/over/ov/unit/inner.txt", false, false),
        entry("/over/ov/united.txt", false, false),
    ];
    assert_eq!(
        link(&walk, "/over/ov", "/home/user").unwrap(),
        vec![
            LinkAction::Dir { target: s("/home/user/sub") },
            LinkAction::Link {
                source: s("/over/ov/sub/file.txt"),
                target: s("/home/user/sub/file.txt")
            },
            LinkAction::DirLink { source: s("/over/ov/unit"), target: s("/home/user/unit") },
            LinkAction::Link {
                source: s("/over/ov/united.txt"),
                target: s("/home/user/united.txt")
            },
        ]
    );
    let outside = vec![entry("/elsewhere/x", false, false)];
    assert!(matches!(link(&outside, "/over/ov", "/t"), Err(LinkError::Outside(0))));
    let later = vec![
        entry("/elsewhere/over.toml", false, false),
        entry("/over/ov/a", false, false),
        entry("/elsewhere/x", false, false),
        entry("/elsewhere/y", false, false),
    ];
    assert!(matches!(link(&later, "/over/ov", "/t"), Err(LinkError::Outside(2))));
}

#[test]
fn add_file_errors_when_outside_target() {
    assert_eq!(
        add_file("/home/user", "/tmp/ext.txt", "/home/user", "/over/ov").unwrap_err(),
        "/tmp/ext.txt is not included in /home/user"
    );
}

fn plan(src: &str, target: &str, parent: &str, as_dir: bool) -> AddPlan {
    AddPlan { src: s(src), target: s(target), parent: Some(s(parent)), as_dir }
}

#[test]
fn add_file_creates_parent_dirs_in_overlay() {
    let added =
        add_file("/", "/home/user/.config/app/settings.conf", "/home/user", "/over/ov").unwrap();
    assert_eq!(
        added,
        plan(
            "/home/user/.config/app/settings.conf",
            "/over/ov/.config/app/settings.conf",
            "/over/ov/.config/app",
            false
        )
    );
    assert_eq!(
        added.rollback(&ctx()),
        Some(MoveBack {
            from: s("/over/ov/.config/app/settings.conf"),
            to: s("/home/user/.config/app/settings.conf")
        })
    );
    assert_eq!(added.rollback(&dry()), None);
}

#[test]
fn add_dir_recursively_adds_files() {
    let files = vec![s("/home/user/mydir/a.txt"), s("/home/user/mydir/sub/b.txt")];
    assert_eq!(
        add_dir("/", "/home/user/mydir", "/home/user", "/over/ov", false, &files).unwrap(),
        vec![
            plan("/home/user/mydir/a.txt", "/over/ov/mydir/a.txt", "/over/ov/mydir", false),
            plan(
                "/home/user/mydir/sub/b.txt",
                "/over/ov/mydir/sub/b.txt",
                "/over/ov/mydir/sub",
                false
            ),
        ]
    );
}

#[test]
fn add_dir_names_the_first_file_outside() {
    let files = vec![s("/home/user/mydir/a"), s("/srv/b"), s("/srv/c")];
    assert_eq!(
        add_dir("/", "/home/user/mydir", "/home/user", "/over/ov", false, &files).unwrap_err(),
        add_file("/", "/srv/b", "/home/user", "/over/ov").unwrap_err()
    );
}

#[test]
fn add_dir_as_link_dir_symlinks_whole_directory() {
    let files = vec![s("/home/user/mydir/file.txt")];
    assert_eq!(
        add_dir("/", "/home/user/mydir", "/home/user", "/over/ov", true, &files).unwrap(),
        vec![plan("/home/user/mydir", "/over/ov/mydir", "/over/ov", true)]
    );
}

#[test]
fn add_path_dispatches_file() {
    assert_eq!(
        add_path("/home/user", "pathfile.txt", PathKind::File).unwrap(),
        AddAs::File(s("/home/user/pathfile.txt"))
    );
}

#[test]
fn add_path_dispatches_directory() {
    assert_eq!(
        add_path("/home/user", "/home/user/pathdir", PathKind::Directory).unwrap(),
        AddAs::Directory(s("/home/user/pathdir"))
    );
}

#[test]
fn add_path_nonexistent_errors() {
    assert_eq!(
        add_path("/home/user", "does_not_exist.txt", PathKind::Other).unwrap_err(),
        "/home/user/does_not_exist.txt does not exist or is not a file/directory"
    );
}

#[test]
fn actions_are_shown_in_lines() {
    let link = EnsureLink::new(ctx(), s("/over/ov/a/b"), s("/home/user/a/b"));
    assert_eq!(link.line("~/ov", "~/"), "link: {~/ov -> ~/}a/b");
    let link = EnsureLink::new(ctx(), s("/elsewhere/b"), s("/home/user/b"));
    assert_eq!(link.line("", ""), "link: /elsewhere/b -> /home/user/b");
    let link = EnsureDirLink::new(ctx(), s("/over/ov/d"), s("/home/user/d"));
    assert_eq!(link.line("/over/ov", "/home/user/"), "link dir: {/over/ov -> /home/user/}d");
    let moved = MoveFile::new(ctx(), s("/home/user/f"), s("/over/ov/f"));
    assert_eq!(moved.line("/home/user", "/over/ov/"), "move file: {/home/user -> /over/ov/}f");
    assert_eq!(EnsureDir::new(s("/home/user/d")).line(), "create directory: /home/user/d");
}
