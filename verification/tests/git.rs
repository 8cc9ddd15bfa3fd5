//! Repositories that overlays declare.

use over::actions::git::config::{
    AllGitForms, AllGitRepoForms, GitConfig, GitConfigValue, GitRepoConfig, NestingTooDeep,
    RemoteConfig, WorktreeEntry,
};
use over::actions::git::progress::{Bar, CloneMessage, CloneProgress, CloneState, CloneStats};
use over::actions::git::setup::{
    apply_config_to_file, apply_git_config, apply_per_worktree_config, checkout_ref,
    create_worktree, detect_default_branch, ensure_remotes, ensure_worktree, tag_head,
    wanted_worktrees, worktree_config_path, worktree_path, BranchSource, Checkout, ConfigFile,
    ConfigWrite, HeadMove, RemoteState, RemoteStep, Resolved, WantedWorktree,
};
use over::actions::git::sync::{
    push_branch, signature, Analysis, Head, Pull, PullEvent, PullOutcome, Upstream,
};
use over::actions::git::{
    clone_failure, clone_repositories, CloneRequest, CloneResult, EnsureGitRepository, SetupStep,
};

fn s(t: &str) -> String {
    t.to_string()
}

fn list(l: &[&str]) -> Vec<String> {
    l.iter().map(|t| s(t)).collect()
}

fn config(url: &str) -> GitRepoConfig {
    GitRepoConfig {
        url: s(url),
        branch: None,
        tag: None,
        rev: None,
        recurse_submodules: false,
        worktree: false,
        per_worktree_config: false,
        worktrees: None,
        remotes: None,
        config: None,
        worktree_config: None,
    }
}

fn pairs(p: &[(&str, &str)]) -> Vec<(String, String)> {
    p.iter().map(|(k, v)| (s(k), s(v))).collect()
}

fn value<'a>(entries: &'a [(String, String)], key: &str) -> Option<&'a str> {
    entries.iter().find(|e| e.0 == key).map(|e| e.1.as_str())
}

struct Form {
    url: &'static str,
    branch: Option<&'static str>,
    tag: Option<&'static str>,
    rev: Option<&'static str>,
    recurse_submodules: Option<bool>,
    worktree: Option<bool>,
    worktrees: Option<Vec<(&'static str, &'static str)>>,
    remotes: Option<Vec<(String, RemoteConfig)>>,
    config: Option<Vec<(String, String)>>,
}

fn form(url: &'static str) -> Form {
    Form {
        url,
        branch: None,
        tag: None,
        rev: None,
        recurse_submodules: None,
        worktree: None,
        worktrees: None,
        remotes: None,
        config: None,
    }
}

fn read(f: Form) -> GitRepoConfig {
    GitRepoConfig::from(AllGitRepoForms::Detailed {
        url: s(f.url),
        branch: f.branch.map(s),
        tag: f.tag.map(s),
        rev: f.rev.map(s),
        recurse_submodules: f.recurse_submodules,
        worktree: f.worktree,
        per_worktree_config: None,
        worktrees: f.worktrees.map(|w| {
            w.iter()
                .map(|(n, b)| (s(n), WorktreeEntry { branch: s(b), config: None }))
                .collect()
        }),
        remotes: f.remotes,
        config: f.config.map(|entries| Box::new(GitConfig { entries })),
        worktree_config: None,
    })
}

fn branch_of<'a>(config: &'a GitRepoConfig, name: &str) -> &'a str {
    let worktrees = config.worktrees.as_ref().unwrap();
    &worktrees.iter().find(|w| w.0 == name).unwrap().1.branch
}

fn remote(url: &str) -> RemoteConfig {
    RemoteConfig { url: s(url), fetch: None, push: None, tagopt: None, extras: vec![] }
}

#[test]
fn test_simple_string_form() {
    let cfg = GitRepoConfig::from(AllGitRepoForms::Simple(s("https://github.com/user/repo.git")));
    assert_eq!(cfg.url, "https://github.com/user/repo.git");
    assert_eq!(cfg.branch, None);
    assert_eq!(cfg.tag, None);
    assert_eq!(cfg.rev, None);
    assert!(!cfg.recurse_submodules);
    assert!(!cfg.worktree);
    assert!(cfg.worktrees.is_none());
    assert!(cfg.remotes.is_none());
    assert!(cfg.config.is_none());
}

#[test]
fn test_detailed_form_branch() {
    let cfg = read(Form {
        branch: Some("main"),
        recurse_submodules: Some(true),
        ..form("git@github.com:user/repo.git")
    });
    assert_eq!(cfg.url, "git@github.com:user/repo.git");
    assert_eq!(cfg.branch.as_deref(), Some("main"));
    assert!(cfg.recurse_submodules);
    assert!(!cfg.worktree);
}

#[test]
fn test_detailed_form_tag() {
    let cfg = read(Form { tag: Some("v1.0.0"), ..form("https://github.com/user/repo.git") });
    assert_eq!(cfg.tag.as_deref(), Some("v1.0.0"));
}

#[test]
fn test_detailed_form_rev() {
    let cfg = read(Form { rev: Some("abc123"), ..form("https://github.com/user/repo.git") });
    assert_eq!(cfg.rev.as_deref(), Some("abc123"));
}

#[test]
fn test_worktree_enabled() {
    let cfg = read(Form { worktree: Some(true), ..form("git@github.com:user/repo.git") });
    assert!(cfg.worktree);
    assert!(cfg.worktrees.is_none());
}

#[test]
fn test_worktree_with_named_worktrees() {
    let cfg = read(Form {
        worktrees: Some(vec![("feature-x", "feature/x"), ("hotfix", "hotfix/123")]),
        ..form("git@github.com:user/repo.git")
    });
    // worktree auto-enabled when worktrees are listed
    assert!(cfg.worktree);
    assert_eq!(branch_of(&cfg, "feature-x"), "feature/x");
    assert_eq!(branch_of(&cfg, "hotfix"), "hotfix/123");
}

#[test]
fn test_worktree_explicit_false_with_named_worktrees() {
    let cfg = read(Form {
        worktree: Some(false),
        worktrees: Some(vec![("feature-x", "feature/x")]),
        ..form("git@github.com:user/repo.git")
    });
    // explicit worktree: false disables the worktree of the default branch
    assert!(!cfg.worktree);
    assert!(cfg.worktrees.is_some());
}

#[test]
fn test_remotes() {
    let cfg = read(Form {
        remotes: Some(vec![
            (
                s("upstream"),
                RemoteConfig {
                    url: s("git@github.com:upstream/repo.git"),
                    fetch: Some(s("+refs/heads/*:refs/remotes/upstream/*")),
                    push: Some(s("refs/heads/main")),
                    tagopt: Some(s("--tags")),
                    extras: vec![],
                },
            ),
            (s("fork"), remote("git@github.com:fork/repo.git")),
        ]),
        ..form("git@github.com:user/repo.git")
    });
    let remotes = cfg.remotes.unwrap();
    assert_eq!(remotes.len(), 2);
    let upstream = &remotes[0].1;
    assert_eq!(upstream.url, "git@github.com:upstream/repo.git");
    assert_eq!(upstream.fetch.as_deref(), Some("+refs/heads/*:refs/remotes/upstream/*"));
    assert_eq!(upstream.push.as_deref(), Some("refs/heads/main"));
    assert_eq!(upstream.tagopt.as_deref(), Some("--tags"));
    let fork = &remotes[1].1;
    assert_eq!(fork.url, "git@github.com:fork/repo.git");
    assert!(fork.fetch.is_none());
}

#[test]
fn test_remotes_with_extras() {
    let mut upstream = remote("git@github.com:upstream/repo.git");
    upstream.extras = pairs(&[
        ("dmb-hierarchical-branch-names", "true"),
        ("dmb-protected-branches", "main,develop"),
    ]);
    let cfg = read(Form {
        remotes: Some(vec![(s("upstream"), upstream)]),
        ..form("git@github.com:user/repo.git")
    });
    let extras = &cfg.remotes.as_ref().unwrap()[0].1.extras;
    assert_eq!(value(extras, "dmb-hierarchical-branch-names"), Some("true"));
    assert_eq!(value(extras, "dmb-protected-branches"), Some("main,develop"));
}

fn scalar(t: &str) -> GitConfigValue {
    GitConfigValue::Scalar(s(t))
}

#[test]
fn test_git_config_flat_dotted() {
    let config = GitConfig::from_sections(&vec![
        (s("user.email"), scalar("work@example.com")),
        (s("core.autocrlf"), scalar("true")),
    ])
    .unwrap();
    assert_eq!(value(&config.entries, "user.email"), Some("work@example.com"));
    assert_eq!(value(&config.entries, "core.autocrlf"), Some("true"));
}

#[test]
fn test_git_config_nested_sections() {
    let config = GitConfig::from_sections(&vec![
        (
            s("user"),
            GitConfigValue::Section(vec![
                (s("email"), scalar("work@example.com")),
                (s("name"), scalar("Work User")),
            ]),
        ),
        (s("core"), GitConfigValue::Section(vec![(s("autocrlf"), scalar("true"))])),
    ])
    .unwrap();
    assert_eq!(value(&config.entries, "user.email"), Some("work@example.com"));
    assert_eq!(value(&config.entries, "user.name"), Some("Work User"));
    assert_eq!(value(&config.entries, "core.autocrlf"), Some("true"));
}

#[test]
fn test_git_config_mixed() {
    let config = GitConfig::from_sections(&vec![
        (s("user.email"), scalar("work@example.com")),
        (s("core"), GitConfigValue::Section(vec![(s("autocrlf"), scalar("true"))])),
    ])
    .unwrap();
    assert_eq!(value(&config.entries, "user.email"), Some("work@example.com"));
    assert_eq!(value(&config.entries, "core.autocrlf"), Some("true"));
}

#[test]
fn git_config_nesting_is_limited() {
    let nest = |v: GitConfigValue, k: &str| GitConfigValue::Section(vec![(s(k), v)]);
    let three = vec![(s("a"), nest(nest(scalar("v"), "c"), "b"))];
    assert_eq!(GitConfig::from_sections(&three).unwrap().entries, pairs(&[("a.b.c", "v")]));
    let four = vec![(s("a"), nest(nest(nest(scalar("v"), "d"), "c"), "b"))];
    assert_eq!(GitConfig::from_sections(&four).unwrap_err(), NestingTooDeep);
    assert_eq!(NestingTooDeep.message(), "git config nesting too deep (max 3 levels)");
}

fn mixed_forms() -> Vec<(String, GitRepoConfig)> {
    AllGitForms::ByPath(vec![
        (
            s(".tmux/plugins/tpm"),
            GitRepoConfig::from(AllGitRepoForms::Simple(s("https://github.com/tmux-plugins/tpm"))),
        ),
        (
            s(".config/nvim"),
            read(Form {
                branch: Some("main"),
                recurse_submodules: Some(true),
                ..form("git@github.com:user/nvim-config.git")
            }),
        ),
        (
            s("projects/mylib"),
            read(Form {
                worktree: Some(true),
                worktrees: Some(vec![("feature-x", "feature/x")]),
                remotes: Some(vec![(s("upstream"), remote("git@github.com:upstream/mylib.git"))]),
                config: Some(pairs(&[("user.email", "work@example.com")])),
                ..form("git@github.com:user/mylib.git")
            }),
        ),
    ])
    .into_repos()
}

#[test]
fn test_map_mixed_forms() {
    let repos = mixed_forms();
    let tpm = &repos[0].1;
    assert_eq!(tpm.url, "https://github.com/tmux-plugins/tpm");
    assert_eq!(tpm.branch, None);
    let nvim = &repos[1].1;
    assert_eq!(nvim.url, "git@github.com:user/nvim-config.git");
    assert_eq!(nvim.branch.as_deref(), Some("main"));
    assert!(nvim.recurse_submodules);
    let mylib = &repos[2].1;
    assert!(mylib.worktree);
    assert_eq!(branch_of(mylib, "feature-x"), "feature/x");
    assert!(mylib.remotes.is_some());
    assert!(mylib.config.is_some());
}

#[test]
fn test_git_field_simple_url() {
    let url = s("https://github.com/user/repo.git");
    let repos = AllGitForms::Single(GitRepoConfig::from(AllGitRepoForms::Simple(url))).into_repos();
    assert_eq!(repos.len(), 1);
    assert_eq!(repos[0].0, ".");
    assert_eq!(repos[0].1.url, "https://github.com/user/repo.git");
    assert_eq!(repos[0].1.branch, None);
    assert!(!repos[0].1.recurse_submodules);
}

#[test]
fn test_git_field_detailed_single() {
    let repos = AllGitForms::Single(read(Form {
        branch: Some("main"),
        recurse_submodules: Some(true),
        ..form("git@github.com:user/repo.git")
    }))
    .into_repos();
    assert_eq!(repos.len(), 1);
    assert_eq!(repos[0].0, ".");
    assert_eq!(repos[0].1.url, "git@github.com:user/repo.git");
    assert_eq!(repos[0].1.branch.as_deref(), Some("main"));
    assert!(repos[0].1.recurse_submodules);
}

#[test]
fn test_git_field_map_form_unchanged() {
    let repos = mixed_forms();
    assert_eq!(repos[0].0, ".tmux/plugins/tpm");
    assert_eq!(repos[0].1.url, "https://github.com/tmux-plugins/tpm");
    assert_eq!(repos[1].0, ".config/nvim");
    assert_eq!(repos[1].1.url, "git@github.com:user/nvim-config.git");
    assert_eq!(repos[1].1.branch.as_deref(), Some("main"));
}

#[test]
fn a_further_path_makes_the_key_url_a_path_too() {
    let by_path = || Some(vec![(s("url"), config("u")), (s("a/b"), config("v"))]);
    let repos = AllGitForms::from_readings(&list(&["url", "a/b"]), Some(config("u")), by_path());
    assert_eq!(repos.unwrap().into_repos(), by_path().unwrap());
    let one = AllGitForms::from_readings(
        &list(&["url", "branch"]),
        Some(config("u")),
        Some(vec![(s("url"), config("u")), (s("branch"), config("main"))]),
    );
    assert_eq!(one.unwrap().into_repos(), vec![(s("."), config("u"))]);
    let unknown = AllGitForms::from_readings(&list(&["url", "depth"]), Some(config("u")), None);
    assert_eq!(unknown.unwrap().into_repos(), vec![(s("."), config("u"))]);
    assert!(AllGitForms::from_readings(&list(&["x"]), None, None).is_none());
}

#[test]
fn repositories_go_below_the_target() {
    let repos = vec![(s("."), config("u")), (s("a/b"), config("v")), (s("/abs"), config("w"))];
    let clones = clone_repositories(&repos, "ov", "/home/user");
    let paths: Vec<&str> = clones.iter().map(|c| c.path.as_str()).collect();
    assert_eq!(paths, vec!["/home/user", "/home/user/a/b", "/abs"]);
    assert_eq!(clones[1].config, config("v"));
    assert_eq!(clones[1].overlay_name, "ov");
    assert_eq!(clones[1].label(), "/home/user/a/b -> v");
}

#[test]
fn failed_clones_are_told_together() {
    assert_eq!(clone_failure(&vec![CloneResult::Done]), None);
    assert_eq!(
        clone_failure(&vec![
            CloneResult::Failed(s("one")),
            CloneResult::Done,
            CloneResult::Panicked(s("two"))
        ]),
        Some(s("Failed to clone 2 repositories:\n  one\n  clone task panicked: two"))
    );
}

#[test]
fn test_short_name() {
    let action = EnsureGitRepository::new(
        s("test"),
        config("https://github.com/user/my-repo.git"),
        s("test-overlay"),
    );
    assert_eq!(action.short_name(), "my-repo");
}

#[test]
fn test_short_name_no_git_suffix() {
    let action = EnsureGitRepository::new(
        s("test"),
        config("https://github.com/user/my-repo"),
        s("test-overlay"),
    );
    assert_eq!(action.short_name(), "my-repo");
}

#[test]
fn short_name_drops_every_suffix() {
    let name = |url: &str| EnsureGitRepository::new(s("t"), config(url), s("o")).short_name();
    assert_eq!(name("a/b.git.git"), "b");
    assert_eq!(name("plain"), "plain");
    assert_eq!(name("a/"), "");
}

#[test]
fn repositories_with_worktrees_are_cloned_bare() {
    let mut cfg = config("u");
    cfg.recurse_submodules = true;
    let plain = EnsureGitRepository::new(s("/r"), cfg, s("o"));
    assert_eq!(
        plain.clone_step(false, false),
        Some(CloneRequest {
            url: s("u"),
            into: s("/r"),
            branch: None,
            bare: false,
            recurse_submodules: true
        })
    );
    assert_eq!(plain.clone_step(true, false), None);
    assert_eq!(plain.clone_step(false, true), None);
    assert_eq!(plain.probe_path(), "/r/.git");
    assert_eq!(
        plain.setup(true, false),
        vec![SetupStep::Checkout, SetupStep::PerWorktreeConfig, SetupStep::Associate]
    );
    assert_eq!(plain.setup(true, true), vec![]);
    assert_eq!(plain.finish_message(true, false, true), Some(s("Repository exists")));
    assert_eq!(plain.finish_message(false, false, true), None);

    let mut cfg = config("u");
    cfg.recurse_submodules = true;
    cfg.worktree = true;
    cfg.remotes = Some(vec![]);
    cfg.config = Some(GitConfig { entries: vec![] });
    let bare = EnsureGitRepository::new(s("/r"), cfg, s("o"));
    let request = bare.clone_step(false, false).unwrap();
    assert_eq!((request.into.as_str(), request.bare), ("/r/.git", true));
    assert!(!request.recurse_submodules);
    assert_eq!(
        bare.setup(true, false),
        vec![
            SetupStep::Remotes,
            SetupStep::Worktrees,
            SetupStep::Config,
            SetupStep::PerWorktreeConfig,
            SetupStep::Associate
        ]
    );
}

#[test]
fn test_ensure_remotes_adds_new_remote() {
    let mut upstream = remote("https://github.com/upstream/repo.git");
    upstream.fetch = Some(s("+refs/heads/*:refs/remotes/upstream/*"));
    assert_eq!(
        ensure_remotes(&vec![(s("upstream"), upstream)], &vec![]),
        vec![RemoteStep::Add {
            name: s("upstream"),
            url: s("https://github.com/upstream/repo.git"),
            fetch: Some(s("+refs/heads/*:refs/remotes/upstream/*")),
        }]
    );
}

fn state(url: &str) -> Vec<RemoteState> {
    vec![RemoteState {
        name: s("upstream"),
        url: Some(s(url)),
        fetch: vec![s("+refs/heads/*:refs/remotes/upstream/*")],
        push: vec![],
    }]
}

#[test]
fn test_ensure_remotes_updates_url() {
    assert_eq!(
        ensure_remotes(
            &vec![(s("upstream"), remote("https://new-url.com/repo.git"))],
            &state("https://old-url.com/repo.git")
        ),
        vec![RemoteStep::SetUrl { name: s("upstream"), url: s("https://new-url.com/repo.git") }]
    );
}

#[test]
fn test_ensure_remotes_with_extras() {
    let mut upstream = remote("https://github.com/upstream/repo.git");
    upstream.tagopt = Some(s("--tags"));
    upstream.extras = pairs(&[("dmb-hierarchical", "true")]);
    let steps = ensure_remotes(
        &vec![(s("upstream"), upstream)],
        &state("https://github.com/upstream/repo.git"),
    );
    assert_eq!(
        steps,
        vec![
            RemoteStep::SetConfig { key: s("remote.upstream.dmb-hierarchical"), value: s("true") },
            RemoteStep::SetConfig { key: s("remote.upstream.tagopt"), value: s("--tags") },
        ]
    );
}

#[test]
fn test_ensure_remotes_idempotent() {
    let remotes = vec![(s("upstream"), remote("https://github.com/upstream/repo.git"))];
    assert_eq!(ensure_remotes(&remotes, &vec![]).len(), 1);
    assert_eq!(ensure_remotes(&remotes, &state("https://github.com/upstream/repo.git")), vec![]);
}

#[test]
fn a_remote_that_is_there_gets_its_refspec_for_fetching() {
    let mut upstream = remote("u");
    upstream.fetch = Some(s("+refs/heads/main:refs/remotes/upstream/main"));
    let remotes = vec![(s("upstream"), upstream)];
    assert_eq!(
        ensure_remotes(&remotes, &state("u")),
        vec![RemoteStep::SetFetch {
            name: s("upstream"),
            fetch: s("+refs/heads/main:refs/remotes/upstream/main"),
        }]
    );
    let mut more = state("u");
    more[0].fetch.push(s("+refs/heads/main:refs/remotes/upstream/main"));
    assert_eq!(ensure_remotes(&remotes, &more).len(), 1);
    let mut fetched = state("u");
    fetched[0].fetch = vec![s("+refs/heads/main:refs/remotes/upstream/main")];
    assert_eq!(ensure_remotes(&remotes, &fetched), vec![]);
}

fn apply(states: &mut Vec<RemoteState>, steps: Vec<RemoteStep>) {
    for step in steps {
        let at = |name: &String, states: &Vec<RemoteState>| {
            states.iter().position(|state| &state.name == name).unwrap()
        };
        match step {
            RemoteStep::SetUrl { name, url } => {
                let i = at(&name, states);
                states[i].url = Some(url);
            }
            RemoteStep::Add { name, url, fetch } => {
                let fetch = fetch.unwrap_or(format!("+refs/heads/*:refs/remotes/{name}/*"));
                let fetch = vec![fetch];
                states.push(RemoteState { name, url: Some(url), fetch, push: vec![] });
            }
            RemoteStep::SetFetch { name, fetch } => {
                let i = at(&name, states);
                states[i].fetch = vec![fetch];
            }
            RemoteStep::AddPush { name, push } => {
                let i = at(&name, states);
                states[i].push.push(push);
            }
            RemoteStep::SetConfig { .. } => {}
        }
    }
}

#[test]
fn setting_up_a_list_of_remotes_twice_changes_nothing() {
    let mut upstream = remote("u");
    upstream.fetch = Some(s("+refs/heads/main:refs/remotes/upstream/main"));
    upstream.push = Some(s("refs/heads/main"));
    let remotes = vec![(s("fork"), remote("f")), (s("upstream"), upstream)];
    let other =
        RemoteState { name: s("other"), url: Some(s("o")), fetch: vec![s("x:y")], push: vec![] };
    let mut states = state("old");
    states.push(RemoteState {
        name: s("other"),
        url: Some(s("o")),
        fetch: vec![s("x:y")],
        push: vec![],
    });
    let steps = ensure_remotes(&remotes, &states);
    assert_eq!(steps.len(), 4);
    apply(&mut states, steps);
    assert_eq!(states.len(), 3);
    assert_eq!(states[0].url, Some(s("u")));
    assert_eq!(states[0].fetch, vec![s("+refs/heads/main:refs/remotes/upstream/main")]);
    assert_eq!(states[0].push, vec![s("refs/heads/main")]);
    assert_eq!(states[1], other);
    assert_eq!(states[2].url, Some(s("f")));
    assert_eq!(ensure_remotes(&remotes, &states), vec![]);
}

#[test]
fn a_refspec_for_pushing_is_added_once() {
    let mut upstream = remote("u");
    upstream.push = Some(s("refs/heads/main"));
    let remotes = vec![(s("upstream"), upstream)];
    assert_eq!(
        ensure_remotes(&remotes, &state("u")),
        vec![RemoteStep::AddPush { name: s("upstream"), push: s("refs/heads/main") }]
    );
    let mut pushed = state("u");
    pushed[0].push.push(s("refs/heads/main"));
    assert_eq!(ensure_remotes(&remotes, &pushed), vec![]);
}

fn write(file: ConfigFile, key: &str, value: &str) -> ConfigWrite {
    ConfigWrite { file, key: s(key), value: s(value) }
}

#[test]
fn test_apply_git_config() {
    let entries = pairs(&[("user.email", "work@example.com"), ("core.autocrlf", "true")]);
    let writes = apply_git_config(&GitConfig { entries });
    assert_eq!(
        writes,
        vec![
            write(ConfigFile::Shared, "user.email", "work@example.com"),
            write(ConfigFile::Shared, "core.autocrlf", "true"),
        ]
    );
    assert_eq!(writes[1].note("/r/config"), "  Set config core.autocrlf = true");
}

#[test]
fn test_apply_git_config_idempotent() {
    let config = GitConfig { entries: pairs(&[("user.email", "work@example.com")]) };
    let once = apply_git_config(&config);
    assert_eq!(once, apply_git_config(&config));
    assert_eq!(once, vec![write(ConfigFile::Shared, "user.email", "work@example.com")]);
}

#[test]
fn test_checkout_ref_tag() {
    let mut cfg = config("");
    cfg.tag = Some(s("v1.0.0"));
    cfg.rev = Some(s("abc"));
    assert_eq!(checkout_ref(&cfg), Checkout::Tag(s("v1.0.0")));
    assert_eq!(tag_head("v1.0.0", &Resolved::Object), Ok(HeadMove::Detached));
    assert_eq!(
        tag_head("v1.0.0", &Resolved::Reference(s("refs/tags/v1.0.0"))),
        Ok(HeadMove::Reference(s("refs/tags/v1.0.0")))
    );
    assert_eq!(
        tag_head("v1.0.0", &Resolved::Unnamed),
        Err(s("invalid reference name for tag v1.0.0"))
    );
}

#[test]
fn test_checkout_ref_rev() {
    let mut cfg = config("");
    cfg.rev = Some(s("abc"));
    assert_eq!(checkout_ref(&cfg), Checkout::Rev(s("abc")));
    assert_eq!(checkout_ref(&config("")), Checkout::Nothing);
}

#[test]
fn test_ensure_worktrees_creates_default_branch() {
    let mut cfg = config("");
    cfg.worktree = true;
    assert_eq!(
        wanted_worktrees(&cfg, "main"),
        vec![WantedWorktree { name: s("main"), branch: s("main"), config: None }]
    );
    assert!(ensure_worktree("main", &vec![], false));
    assert_eq!(worktree_path("/r", "main"), "/r/main");
}

#[test]
fn test_ensure_worktrees_creates_named_worktrees() {
    let mut cfg = config("");
    cfg.worktree = true;
    cfg.worktrees =
        Some(vec![(s("dev"), WorktreeEntry { branch: s("develop"), config: None })]);
    assert_eq!(
        wanted_worktrees(&cfg, "main"),
        vec![
            WantedWorktree { name: s("main"), branch: s("main"), config: None },
            WantedWorktree { name: s("dev"), branch: s("develop"), config: None },
        ]
    );
}

#[test]
fn test_ensure_worktrees_idempotent() {
    assert!(!ensure_worktree("main", &vec![s("main")], true));
    assert!(!ensure_worktree("main", &vec![s("main")], false));
    assert!(!ensure_worktree("main", &vec![], true));
}

#[test]
fn branches_of_worktrees_are_local_or_remote() {
    assert_eq!(create_worktree("dev", "develop", true, true), Ok(BranchSource::Local));
    assert_eq!(
        create_worktree("dev", "develop", false, true),
        Ok(BranchSource::Remote(s("refs/remotes/origin/develop")))
    );
    assert_eq!(
        create_worktree("dev", "develop", false, false),
        Err(s("branch 'develop' not found for worktree 'dev'"))
    );
}

#[test]
fn test_detect_default_branch() {
    assert_eq!(detect_default_branch(Some(s("main")), None, false, true), "main");
    assert_eq!(
        detect_default_branch(None, Some(s("refs/remotes/origin/trunk")), true, true),
        "trunk"
    );
    assert_eq!(detect_default_branch(None, Some(s("refs/heads/x")), true, true), "main");
    assert_eq!(detect_default_branch(None, None, false, true), "master");
    assert_eq!(detect_default_branch(None, None, false, false), "main");
}

#[test]
fn test_apply_per_worktree_config() {
    let mut cfg = config("");
    cfg.worktree = true;
    cfg.per_worktree_config = true;
    assert_eq!(
        apply_per_worktree_config(&cfg),
        vec![
            write(ConfigFile::Shared, "extensions.worktreeConfig", "true"),
            write(ConfigFile::Shared, "core.bare", "false"),
            write(ConfigFile::Worktree, "core.bare", "true"),
        ]
    );
}

#[test]
fn test_apply_per_worktree_config_with_user_entries() {
    let mut cfg = config("");
    cfg.worktree = true;
    cfg.per_worktree_config = true;
    cfg.worktree_config = Some(GitConfig { entries: pairs(&[("core.sparseCheckout", "true")]) });
    let writes = apply_per_worktree_config(&cfg);
    assert!(writes.contains(&write(ConfigFile::Worktree, "core.bare", "true")));
    assert!(writes.contains(&write(ConfigFile::Worktree, "core.sparseCheckout", "true")));
}

#[test]
fn test_apply_per_worktree_config_disabled() {
    assert_eq!(apply_per_worktree_config(&config("")), vec![]);
}

#[test]
fn test_ensure_worktrees_with_per_worktree_config() {
    let entries = pairs(&[("user.email", "dev@example.com")]);
    let writes = apply_config_to_file(&GitConfig { entries });
    assert_eq!(writes, vec![write(ConfigFile::Worktree, "user.email", "dev@example.com")]);
    let path = worktree_config_path("/r/bare.git", "dev");
    assert_eq!(path, "/r/bare.git/worktrees/dev/config.worktree");
    assert_eq!(writes[0].note("p"), "  Set p user.email = dev@example.com");
}

fn tracking() -> Head {
    Head {
        is_branch: true,
        shorthand: Some(s("main")),
        upstream: Upstream::Reference(s("refs/remotes/origin/main")),
    }
}

fn analyzed(up_to_date: bool, fast_forward: bool, normal: bool) -> PullEvent {
    PullEvent::Analyzed(Analysis { up_to_date, fast_forward, normal })
}

#[test]
fn pull_with_no_upstream_reports_no_upstream() {
    let head = Head { is_branch: true, shorthand: Some(s("main")), upstream: Upstream::Missing };
    assert_eq!(Pull::start(head), Pull::Done(PullOutcome::NoUpstream));
    let head = Head { is_branch: false, ..tracking() };
    assert_eq!(Pull::start(head), Pull::Done(PullOutcome::NoUpstream));
}

#[test]
fn pull_fails_on_names_that_are_no_text() {
    let head = Head { shorthand: None, ..tracking() };
    assert_eq!(Pull::start(head), Pull::Failed(s("current branch name is not valid UTF-8")));
    let head = Head { upstream: Upstream::Unnamed, ..tracking() };
    assert_eq!(Pull::start(head), Pull::Failed(s("upstream ref name is not valid UTF-8")));
}

#[test]
fn pull_up_to_date_reports_up_to_date() {
    let pull = Pull::start(tracking());
    assert_eq!(
        pull,
        Pull::Fetch { branch: s("main"), upstream: s("refs/remotes/origin/main") }
    );
    assert_eq!(pull.next(analyzed(true, false, false)), Pull::Done(PullOutcome::UpToDate));
}

#[test]
fn pull_fast_forwards_when_only_upstream_moved() {
    let pull = Pull::start(tracking()).next(analyzed(false, true, true));
    assert_eq!(
        pull,
        Pull::FastForward { reference: s("refs/heads/main"), note: s("over sync: fast-forward") }
    );
    assert_eq!(pull.next(PullEvent::Moved), Pull::Done(PullOutcome::FastForwarded));
}

#[test]
fn pull_merges_when_both_sides_advanced_without_conflict() {
    let pull = Pull::start(tracking()).next(analyzed(false, false, true));
    assert_eq!(pull, Pull::Merge { upstream: s("refs/remotes/origin/main") });
    let pull = pull.next(PullEvent::Merged { conflicts: false });
    assert_eq!(
        pull,
        Pull::Commit { message: s("Merge 'refs/remotes/origin/main' via `over sync`") }
    );
    assert_eq!(pull.next(PullEvent::Committed), Pull::Done(PullOutcome::Merged));
}

#[test]
fn pull_leaves_real_conflict_markers_on_conflicting_changes() {
    let pull = Pull::start(tracking()).next(analyzed(false, false, true));
    let pull = pull.next(PullEvent::Merged { conflicts: true });
    assert_eq!(pull, Pull::Done(PullOutcome::Conflict));
    assert_eq!(pull.next(PullEvent::Committed), Pull::Done(PullOutcome::Conflict));
}

#[test]
fn push_branch_sends_local_commits_to_origin() {
    assert_eq!(push_branch("main"), "refs/heads/main:refs/heads/main");
}

#[test]
fn merges_have_an_author() {
    assert_eq!(signature(None), (s("over"), s("over@localhost")));
    assert_eq!(signature(Some((s("a"), s("b")))), (s("a"), s("b")));
}

#[test]
fn clone_progress_is_shown_in_columns() {
    let mut state = CloneState::new();
    assert_eq!(state.update_bar(), None);
    state.update(CloneMessage::Stats(CloneStats {
        total_objects: 200,
        indexed_objects: 50,
        received_objects: 100,
        total_deltas: 0,
        indexed_deltas: 0,
        received_bytes: 2048,
    }));
    state.update(CloneMessage::Progress(CloneProgress {
        total: 4,
        current: 1,
        path: Some(s("a")),
    }));
    let Bar { length, position, message } = state.update_bar().unwrap();
    assert_eq!((length, position), (200, 50));
    assert_eq!(
        message,
        "net  50% (   2 kb,   100/  200)  /  idx  25% (   50/  200)  /  chk  25% (   1/   4) a\r"
    );
}

#[test]
fn settings_that_are_written_again_stay() {
    let mut cfg = config("");
    cfg.worktree = true;
    cfg.per_worktree_config = true;
    cfg.worktree_config =
        Some(GitConfig { entries: pairs(&[("core.bare", "maybe"), ("user.name", "Me")]) });
    let apply = |mut state: Vec<(ConfigFile, String, String)>| {
        for w in apply_per_worktree_config(&cfg) {
            state.retain(|e| e.0 != w.file || e.1 != w.key);
            state.push((w.file, w.key, w.value));
        }
        state
    };
    let once = apply(vec![(ConfigFile::Shared, s("core.bare"), s("true"))]);
    assert_eq!(once, apply(once.clone()));
    assert!(once.contains(&(ConfigFile::Shared, s("core.bare"), s("false"))));
    assert!(once.contains(&(ConfigFile::Worktree, s("core.bare"), s("maybe"))));
}
