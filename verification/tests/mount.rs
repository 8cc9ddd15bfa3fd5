//! Declaring a git repository in an overlay.

use over::actions::git::config::{
    AllGitRepoForms, GitConfig, GitRepoConfig, RemoteConfig, WorktreeEntry,
};
use over::cli::git_over::document::DescriptorError;
use over::cli::git_over::mount::{
    build_git_entry, existing_entry, existing_lines, export_step, exportable_properties,
    exported_bare_settings, exported_settings, exported_worktree_settings, find_descriptor,
    merge_properties, read_worktree_config, update_descriptor_toml, update_descriptor_yaml,
    ExportKey, RemoteFact, RepositoryFacts, WorktreeFact,
};
use over::cli::git_over::value::{
    put_yaml, yaml_mapping_to_toml, yaml_value_to_toml, Number, Toml, Yaml,
};
use over::overlays::Format;

fn s(t: &str) -> String {
    t.to_string()
}

fn text(t: &str) -> Yaml {
    Yaml::Text(s(t))
}

fn pairs(p: &[(&str, &str)]) -> Vec<(String, String)> {
    p.iter().map(|(k, v)| (s(k), s(v))).collect()
}

fn config(url: &str) -> GitRepoConfig {
    GitRepoConfig::from(AllGitRepoForms::Simple(s(url)))
}

fn get<'a>(m: &'a [(Yaml, Yaml)], key: &str) -> Option<&'a Yaml> {
    m.iter().find(|e| e.0 == text(key)).map(|e| &e.1)
}

fn mapping<'a>(m: &'a [(Yaml, Yaml)], key: &str) -> &'a [(Yaml, Yaml)] {
    match get(m, key) {
        Some(Yaml::Mapping(m)) => m,
        other => panic!("expected a mapping, got {other:?}"),
    }
}

#[test]
fn test_build_git_entry_url_only() {
    let entry = build_git_entry(&config("https://github.com/user/repo.git"));
    assert_eq!(get(&entry, "url"), Some(&text("https://github.com/user/repo.git")));
    assert_eq!(entry.len(), 1);
}

#[test]
fn test_build_git_entry_with_branch() {
    let mut c = config("git@github.com:user/repo.git");
    c.branch = Some(s("main"));
    assert_eq!(get(&build_git_entry(&c), "branch"), Some(&text("main")));
}

#[test]
fn test_build_git_entry_with_tag() {
    let mut c = config("https://example.com/repo.git");
    c.tag = Some(s("v1.0.0"));
    assert_eq!(get(&build_git_entry(&c), "tag"), Some(&text("v1.0.0")));
}

#[test]
fn test_build_git_entry_with_rev() {
    let mut c = config("https://example.com/repo.git");
    c.rev = Some(s("abc123"));
    assert_eq!(get(&build_git_entry(&c), "rev"), Some(&text("abc123")));
}

#[test]
fn test_build_git_entry_with_recurse_submodules() {
    let mut c = config("https://example.com/repo.git");
    c.recurse_submodules = true;
    assert_eq!(get(&build_git_entry(&c), "recurse_submodules"), Some(&Yaml::Flag(true)));
}

#[test]
fn test_build_git_entry_with_worktree() {
    let mut c = config("https://example.com/repo.git");
    c.worktree = true;
    c.per_worktree_config = true;
    assert_eq!(get(&build_git_entry(&c), "worktree"), Some(&Yaml::Flag(true)));
}

#[test]
fn test_build_git_entry_with_worktrees() {
    let mut c = config("https://example.com/repo.git");
    c.worktrees = Some(vec![(
        s("feature"),
        WorktreeEntry { branch: s("feature-branch"), config: None },
    )]);
    let entry = build_git_entry(&c);
    assert_eq!(get(mapping(&entry, "worktrees"), "feature"), Some(&text("feature-branch")));
}

#[test]
fn worktrees_with_settings_are_written_out() {
    let mut c = config("u");
    let settings = GitConfig { entries: pairs(&[("user.email", "dev@example.com")]) };
    c.worktrees =
        Some(vec![(s("dev"), WorktreeEntry { branch: s("develop"), config: Some(settings) })]);
    let entry = build_git_entry(&c);
    let dev = mapping(mapping(&entry, "worktrees"), "dev");
    assert_eq!(get(dev, "branch"), Some(&text("develop")));
    assert_eq!(get(mapping(dev, "config"), "user.email"), Some(&text("dev@example.com")));
}

#[test]
fn test_build_git_entry_with_remotes() {
    let mut c = config("git@github.com:user/repo.git");
    c.branch = Some(s("main"));
    c.remotes = Some(vec![(
        s("upstream"),
        RemoteConfig {
            url: s("https://github.com/upstream/repo.git"),
            fetch: Some(s("+refs/heads/*:refs/remotes/upstream/*")),
            push: None,
            tagopt: None,
            extras: vec![],
        },
    )]);
    let entry = build_git_entry(&c);
    let upstream = mapping(mapping(&entry, "remotes"), "upstream");
    assert_eq!(get(upstream, "url"), Some(&text("https://github.com/upstream/repo.git")));
    assert_eq!(get(upstream, "fetch"), Some(&text("+refs/heads/*:refs/remotes/upstream/*")));
}

#[test]
fn test_build_git_entry_with_config() {
    let mut c = config("git@github.com:user/repo.git");
    let entries = pairs(&[("user.name", "Test User"), ("user.email", "test@example.com")]);
    c.config = Some(GitConfig { entries });
    let entry = build_git_entry(&c);
    let config_map = mapping(&entry, "config");
    assert_eq!(get(config_map, "user.name"), Some(&text("Test User")));
    assert_eq!(get(config_map, "user.email"), Some(&text("test@example.com")));
}

#[test]
fn test_yaml_value_to_toml_string() {
    assert_eq!(yaml_value_to_toml(&text("hello")).unwrap(), Toml::Text(s("hello")));
}

#[test]
fn test_yaml_value_to_toml_bool() {
    assert_eq!(yaml_value_to_toml(&Yaml::Flag(true)).unwrap(), Toml::Flag(true));
}

#[test]
fn test_yaml_value_to_toml_integer() {
    let v = Yaml::Number(Number { integer: Some(42), real: Some(42f64.to_bits()) });
    assert_eq!(yaml_value_to_toml(&v).unwrap(), Toml::Integer(42));
}

#[test]
fn test_yaml_value_to_toml_float() {
    let v = Yaml::Number(Number { integer: None, real: Some(3.14f64.to_bits()) });
    match yaml_value_to_toml(&v).unwrap() {
        Toml::Real(bits) => assert!((f64::from_bits(bits) - 3.14).abs() < f64::EPSILON),
        _ => panic!("expected float"),
    }
    let v = Yaml::Number(Number { integer: None, real: None });
    assert!(yaml_value_to_toml(&v).is_err());
}

#[test]
fn test_yaml_value_to_toml_mapping() {
    let v = Yaml::Mapping(vec![(text("key"), text("value"))]);
    assert_eq!(
        yaml_value_to_toml(&v).unwrap(),
        Toml::Table(vec![(s("key"), Toml::Text(s("value")))])
    );
}

#[test]
fn test_yaml_value_to_toml_null_errors() {
    assert!(yaml_value_to_toml(&Yaml::Null).is_err());
}

#[test]
fn test_yaml_value_to_toml_sequence_errors() {
    assert!(yaml_value_to_toml(&Yaml::Sequence(vec![text("a")])).is_err());
    assert!(yaml_value_to_toml(&Yaml::Tagged(s("!a"), Box::new(Yaml::Text(s("x"))))).is_err());
}

#[test]
fn test_yaml_mapping_to_toml_nested() {
    let inner = Yaml::Mapping(vec![(text("nested_key"), Yaml::Flag(true))]);
    let outer = vec![(text("str"), text("hello")), (text("inner"), inner)];
    match yaml_mapping_to_toml(&outer).unwrap() {
        Toml::Table(t) => {
            let at = |k: &str| t.iter().find(|e| e.0 == k).map(|e| &e.1);
            assert_eq!(at("str"), Some(&Toml::Text(s("hello"))));
            assert_eq!(
                at("inner"),
                Some(&Toml::Table(vec![(s("nested_key"), Toml::Flag(true))]))
            );
        }
        _ => panic!("expected table"),
    }
}

#[test]
fn test_yaml_mapping_to_toml_non_string_key_errors() {
    let number = Yaml::Number(Number { integer: Some(42), real: None });
    assert!(yaml_mapping_to_toml(&vec![(number, text("val"))]).is_err());
}

#[test]
fn putting_a_value_replaces_the_one_before() {
    let mut m = vec![(text("a"), text("x")), (text("b"), text("y"))];
    put_yaml(&mut m, "a", text("z"));
    put_yaml(&mut m, "c", Yaml::Null);
    assert_eq!(
        m,
        vec![(text("a"), text("z")), (text("b"), text("y")), (text("c"), Yaml::Null)]
    );
}

#[test]
fn test_find_descriptor_yaml() {
    assert_eq!(find_descriptor("/o", false, true, false), (s("/o/over.yaml"), Format::Yaml));
}

#[test]
fn test_find_descriptor_yml() {
    assert_eq!(find_descriptor("/o", true, true, true), (s("/o/over.yml"), Format::Yaml));
}

#[test]
fn test_find_descriptor_toml() {
    assert_eq!(find_descriptor("/o", false, false, true), (s("/o/over.toml"), Format::Toml));
}

#[test]
fn test_find_descriptor_default_when_none() {
    assert_eq!(find_descriptor("/o", false, false, false), (s("/o/over.yaml"), Format::Yaml));
}

fn main_branch() -> GitRepoConfig {
    let mut c = config("https://github.com/user/repo.git");
    c.branch = Some(s("main"));
    c
}

#[test]
fn tagged_values_of_a_descriptor_are_kept() {
    let c = config("https://example.com/repo.git");
    let a = update_descriptor_yaml("x: !a 1\n", "p", &c).unwrap();
    let b = update_descriptor_yaml("x: !b 2\n", "p", &c).unwrap();
    assert_ne!(a, b);
    assert!(a.contains("!a") && b.contains("!b"));
}

#[test]
fn test_update_descriptor_yaml_new_file() {
    let content = update_descriptor_yaml("", "projects/myapp", &main_branch()).unwrap();
    assert!(content.contains("projects/myapp"));
    assert!(content.contains("https://github.com/user/repo.git"));
    assert!(content.contains("main"));
}

#[test]
fn test_update_descriptor_yaml_existing_file() {
    let before = "target: ~\nuses:\n  - base\n";
    let content =
        update_descriptor_yaml(before, "my/repo", &config("git@github.com:user/repo.git")).unwrap();
    // Should preserve existing content
    assert!(content.contains("target"));
    assert!(content.contains("base"));
    // And add new git entry
    assert!(content.contains("my/repo"));
    assert!(content.contains("git@github.com:user/repo.git"));
}

#[test]
fn test_update_descriptor_toml_new_file() {
    let content = update_descriptor_toml("", "projects/myapp", &main_branch()).unwrap();
    assert!(content.contains("projects/myapp"));
    assert!(content.contains("https://github.com/user/repo.git"));
    assert!(content.contains("main"));
}

#[test]
fn test_update_descriptor_toml_existing_file() {
    let before = "target = \"~\"\nuses = [\"base\"]\n";
    let content =
        update_descriptor_toml(before, "my/repo", &config("git@github.com:user/repo.git")).unwrap();
    // Should preserve existing content
    assert!(content.contains("target"));
    assert!(content.contains("base"));
    // And add new git entry
    assert!(content.contains("my/repo"));
    assert!(content.contains("git@github.com:user/repo.git"));
}

#[test]
fn test_update_overlay_descriptor_detects_yaml() {
    let (path, format) = find_descriptor("/o", false, true, false);
    assert_eq!((path.as_str(), format), ("/o/over.yaml", Format::Yaml));
    let content =
        update_descriptor_yaml("target: ~\n", "my/path", &config("https://example.com/repo.git"))
            .unwrap();
    assert!(content.contains("my/path"));
    assert!(content.contains("https://example.com/repo.git"));
}

#[test]
fn test_update_overlay_descriptor_detects_toml() {
    let (path, format) = find_descriptor("/o", false, false, true);
    assert_eq!((path.as_str(), format), ("/o/over.toml", Format::Toml));
    let content = update_descriptor_toml(
        "target = \"~\"\n",
        "my/path",
        &config("https://example.com/repo.git"),
    )
    .unwrap();
    assert!(content.contains("my/path"));
    assert!(content.contains("https://example.com/repo.git"));
}

fn full() -> GitRepoConfig {
    let mut c = main_branch();
    c.worktree = true;
    c.config = Some(GitConfig { entries: pairs(&[("user.name", "me")]) });
    c
}

#[test]
fn toml_descriptors_read_back_as_written() {
    let before = "target = \"~\"\n\n[git.other]\nurl = \"x\"\n\n[git.\"my/repo\"]\nurl = \"old\"\n";
    let content = update_descriptor_toml(before, "my/repo", &full()).unwrap();
    let doc: toml::Value = toml::from_str(&content).unwrap();
    assert_eq!(doc["target"].as_str(), Some("~"));
    assert_eq!(doc["git"]["other"]["url"].as_str(), Some("x"));
    let entry = &doc["git"]["my/repo"];
    assert_eq!(entry["url"].as_str(), Some("https://github.com/user/repo.git"));
    assert_eq!(entry["branch"].as_str(), Some("main"));
    assert_eq!(entry["worktree"].as_bool(), Some(true));
    assert_eq!(entry["config"]["user.name"].as_str(), Some("me"));
    assert_eq!(entry.as_table().unwrap().len(), 4);
}

#[test]
fn yaml_descriptors_read_back_as_written() {
    let before = "target: \"~\"\ngit:\n  other:\n    url: x\n  my/repo:\n    url: old\n";
    let content = update_descriptor_yaml(before, "my/repo", &full()).unwrap();
    let doc: serde_yml::Value = serde_yml::from_str(&content).unwrap();
    assert_eq!(doc["target"].as_str(), Some("~"));
    assert_eq!(doc["git"]["other"]["url"].as_str(), Some("x"));
    let entry = &doc["git"]["my/repo"];
    assert_eq!(entry["url"].as_str(), Some("https://github.com/user/repo.git"));
    assert_eq!(entry["branch"].as_str(), Some("main"));
    assert_eq!(entry["worktree"].as_bool(), Some(true));
    assert_eq!(entry["config"]["user.name"].as_str(), Some("me"));
    assert_eq!(entry.as_mapping().unwrap().len(), 4);
}

#[test]
fn descriptors_that_cannot_take_the_entry_are_refused() {
    let c = config("u");
    let e = update_descriptor_toml("= broken", "p", &c).unwrap_err();
    assert!(matches!(e, DescriptorError::TomlRead(_)));
    assert_eq!(e.message("/o/over.toml"), "failed to parse /o/over.toml");
    let e = update_descriptor_toml("git = 1", "p", &c).unwrap_err();
    assert_eq!(e.message("/o/over.toml"), "git section is not a table");
    let e = update_descriptor_yaml("a: [", "p", &c).unwrap_err();
    assert!(matches!(e, DescriptorError::YamlRead(_)));
    assert_eq!(e.message("/o/over.yaml"), "failed to parse /o/over.yaml");
    let e = update_descriptor_yaml("- a\n- b\n", "p", &c).unwrap_err();
    assert_eq!(e.message("/o/over.yaml"), "/o/over.yaml root is not a mapping");
    let e = update_descriptor_yaml("git: text\n", "p", &c).unwrap_err();
    assert_eq!(e.message("/o/over.yaml"), "git section is not a mapping");
}

fn facts() -> RepositoryFacts {
    let remote = |name: &str, url: Option<&str>| RemoteFact {
        name: s(name),
        url: url.map(s),
        fetch: Some(s("+f")),
    };
    RepositoryFacts {
        origin_url: Some(s("u")),
        branch: Some(s("main")),
        remotes: vec![remote("origin", Some("u")), remote("up", Some("v")), remote("dead", None)],
        settings: pairs(&[("core.eol", "lf"), ("user.name", "me"), ("x.y", "z")]),
        has_worktrees: true,
        worktrees: vec![
            WorktreeFact { name: s("dev"), branch: Some(s("develop")), settings: vec![] },
            WorktreeFact {
                name: s("old"),
                branch: None,
                settings: pairs(&[("user.email", "e"), ("core.eol", "lf")]),
            },
        ],
        worktree_extension: true,
        own_settings: pairs(&[("core.sparseCheckout", "true")]),
    }
}

#[test]
fn repositories_offer_their_properties() {
    let properties = exportable_properties(&facts());
    let labels: Vec<&str> = properties.iter().map(|p| p.label.as_str()).collect();
    assert_eq!(
        labels,
        vec![
            "origin url: u",
            "branch: main",
            "remote up: v",
            "config user.name: me",
            "config core.eol: lf",
            "worktree: true",
            "worktrees: dev=develop, old=old",
            "per_worktree_config: true",
            "worktree config core.sparseCheckout: true",
        ]
    );
    let defaults: Vec<bool> = properties.iter().map(|p| p.is_default()).collect();
    assert_eq!(defaults, vec![true, true, false, false, false, true, true, true, false]);
    assert_eq!(properties[1].key, ExportKey::Branch(s("main")));
    assert_eq!(exported_settings().len(), 4);
    assert_eq!(exported_bare_settings().len(), 2);
    assert_eq!(exported_worktree_settings().len(), 4);
    assert_eq!(
        read_worktree_config(&facts().worktrees[1].settings).unwrap().entries,
        pairs(&[("user.email", "e")])
    );
    assert_eq!(read_worktree_config(&vec![]), None);
}

#[test]
fn selected_properties_are_merged_into_the_entry() {
    let properties = exportable_properties(&facts());
    let all: Vec<usize> = (0..properties.len()).collect();
    let c = merge_properties(&None, &properties, &all).unwrap();
    assert_eq!(c.url, "u");
    assert_eq!(c.branch.as_deref(), Some("main"));
    assert!(c.worktree && c.per_worktree_config);
    assert_eq!(c.remotes.as_ref().unwrap()[0].1.fetch.as_deref(), Some("+f"));
    assert_eq!(
        c.config.unwrap().entries,
        pairs(&[("user.name", "me"), ("core.eol", "lf")])
    );
    assert_eq!(c.worktree_config.unwrap().entries, pairs(&[("core.sparseCheckout", "true")]));
    assert_eq!(c.worktrees.unwrap()[1].1.branch, "old");

    let mut existing = config("before");
    existing.tag = Some(s("v1"));
    let c = merge_properties(&Some(existing), &properties, &vec![1]).unwrap();
    assert_eq!((c.url.as_str(), c.tag.as_deref()), ("before", Some("v1")));
    assert_eq!(c.branch.as_deref(), Some("main"));

    assert_eq!(
        merge_properties(&None, &properties, &vec![1]).unwrap_err(),
        "no URL available for git entry; add an origin remote first"
    );
}

#[test]
fn picked_properties_are_exported() {
    let properties = exportable_properties(&facts());
    let mut known = config("before");
    known.tag = Some(s("v1"));
    let git = Some(vec![(s("a"), config("other")), (s("b"), known)]);
    assert_eq!(existing_entry(&git, "b").unwrap().tag.as_deref(), Some("v1"));
    assert_eq!(existing_entry(&git, "c"), None);
    assert_eq!(existing_entry(&None, "b"), None);

    assert_eq!(export_step(&git, "b", &vec![], &vec![]), Ok(None));
    assert_eq!(export_step(&git, "b", &properties, &vec![]), Ok(None));
    let c = export_step(&git, "b", &properties, &vec![1]).unwrap().unwrap();
    assert_eq!((c.url.as_str(), c.tag.as_deref()), ("before", Some("v1")));
    assert_eq!(c.branch.as_deref(), Some("main"));
    assert_eq!(
        export_step(&git, "c", &properties, &vec![1]).unwrap_err(),
        "no URL available for git entry; add an origin remote first"
    );
}

#[test]
fn entries_are_shown_line_by_line() {
    assert_eq!(existing_lines(&config("u")), vec!["  url: u"]);
    let mut c = config("https://example.com/r.git");
    c.branch = Some(s("main"));
    c.remotes = Some(vec![(
        s("fork"),
        RemoteConfig {
            url: s("https://example.com/f.git"),
            fetch: None,
            push: None,
            tagopt: None,
            extras: Vec::new(),
        },
    )]);
    c.config = Some(GitConfig { entries: pairs(&[("user.name", "Me"), ("core.eol", "lf")]) });
    c.per_worktree_config = true;
    c.worktree_config = Some(GitConfig { entries: pairs(&[("core.sparseCheckout", "true")]) });
    assert_eq!(
        existing_lines(&c),
        vec![
            "  url: https://example.com/r.git",
            "  branch: main",
            "  remote fork: https://example.com/f.git",
            "  config user.name: Me",
            "  config core.eol: lf",
            "  per_worktree_config: true",
            "  worktree_config core.sparseCheckout: true",
        ]
    );
}
