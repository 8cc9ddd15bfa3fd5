//! The command that mounts a repository to an overlay.

use crate::actions::git::config;
use crate::actions::git::config::{
    copy_worktrees, GitConfig, GitRepoConfig, Pairs, RemoteConfig, RemoteView, RepoView,
    WorktreeEntry, WorktreeView,
};
use crate::cli::git_over::document;
use crate::cli::git_over::document::{write_toml_entry, write_yaml_entry, DescriptorError};
use crate::cli::git_over::value;
use crate::cli::git_over::value::{put_yaml, yaml_mapping_to_toml, Yaml, YamlTree};
use crate::overlays::Format;
use crate::path;
use crate::path::join_path;
use crate::table;
use crate::table::{place_of, put_entry};
use crate::text;
use crate::text::{concat2, concat3, join_texts, same};
use vstd::prelude::*;

verus! {

/// Entries of a mapping.
pub type Fields = Seq<(YamlTree, YamlTree)>;

/// The mapping with a text for `key`, where there is one.
pub open spec fn with_text(m: Fields, key: Seq<char>, value: Option<Seq<char>>) -> Fields {
    match value {
        Some(s) => value::yaml_put(m, key, YamlTree::Text(s)),
        None => m,
    }
}

/// The mapping with the first `n` of the settings.
pub open spec fn with_settings(m: Fields, entries: Pairs, n: nat) -> Fields
    decreases n,
{
    if n == 0 {
        m
    } else {
        value::yaml_put(
            with_settings(m, entries, (n - 1) as nat),
            entries[n - 1].0,
            YamlTree::Text(entries[n - 1].1),
        )
    }
}

/// A configuration as a mapping.
pub open spec fn settings(entries: Pairs) -> YamlTree {
    YamlTree::Mapping(with_settings(Seq::empty(), entries, entries.len()))
}

/// A worktree: its branch, with its configuration where it has one.
pub open spec fn worktree_tree(w: WorktreeView) -> YamlTree {
    match w.config {
        Some(c) => YamlTree::Mapping(
            value::yaml_put(
                value::yaml_put(Seq::empty(), "branch"@, YamlTree::Text(w.branch)),
                "config"@,
                settings(c),
            ),
        ),
        None => YamlTree::Text(w.branch),
    }
}

/// The first `n` worktrees as a mapping.
pub open spec fn worktree_fields(w: Seq<(Seq<char>, WorktreeView)>, n: nat) -> Fields
    decreases n,
{
    if n == 0 {
        Seq::empty()
    } else {
        value::yaml_put(worktree_fields(w, (n - 1) as nat), w[n - 1].0, worktree_tree(w[n - 1].1))
    }
}

/// A remote as a mapping.
pub open spec fn remote_fields(r: RemoteView) -> Fields {
    let m = value::yaml_put(Seq::empty(), "url"@, YamlTree::Text(r.url));
    let m = with_text(m, "fetch"@, r.fetch);
    let m = with_text(m, "push"@, r.push);
    let m = with_text(m, "tagopt"@, r.tagopt);
    with_settings(m, r.extras, r.extras.len())
}

/// The first `n` remotes as a mapping.
pub open spec fn remotes_fields(r: Seq<(Seq<char>, RemoteView)>, n: nat) -> Fields
    decreases n,
{
    if n == 0 {
        Seq::empty()
    } else {
        value::yaml_put(
            remotes_fields(r, (n - 1) as nat),
            r[n - 1].0,
            YamlTree::Mapping(remote_fields(r[n - 1].1)),
        )
    }
}

/// The mapping with a flag for `key`, where it is to be stated.
pub open spec fn with_flag(m: Fields, key: Seq<char>, stated: bool, value: bool) -> Fields {
    if stated {
        value::yaml_put(m, key, YamlTree::Flag(value))
    } else {
        m
    }
}

/// The mapping with a value for `key`, where there is one.
pub open spec fn with_value(m: Fields, key: Seq<char>, value: Option<YamlTree>) -> Fields {
    match value {
        Some(v) => value::yaml_put(m, key, v),
        None => m,
    }
}

/// A repository as a mapping. What is as it is by default is not stated: worktrees
/// have configuration of their own where the default branch has a worktree.
pub open spec fn entry_fields(c: RepoView) -> Fields {
    let m = value::yaml_put(Seq::empty(), "url"@, YamlTree::Text(c.url));
    let m = with_text(m, "branch"@, c.branch);
    let m = with_text(m, "tag"@, c.tag);
    let m = with_text(m, "rev"@, c.rev);
    let m = with_flag(m, "recurse_submodules"@, c.recurse_submodules, true);
    let m = with_flag(m, "worktree"@, c.worktree, true);
    let m = with_flag(
        m,
        "per_worktree_config"@,
        c.per_worktree_config != c.worktree,
        c.per_worktree_config,
    );
    let m = with_value(
        m,
        "worktrees"@,
        match c.worktrees {
            Some(w) => Some(YamlTree::Mapping(worktree_fields(w, w.len()))),
            None => None,
        },
    );
    let m = with_value(
        m,
        "remotes"@,
        match c.remotes {
            Some(r) => Some(YamlTree::Mapping(remotes_fields(r, r.len()))),
            None => None,
        },
    );
    let m = with_value(
        m,
        "config"@,
        match c.config {
            Some(e) => Some(settings(e)),
            None => None,
        },
    );
    with_value(
        m,
        "worktree_config"@,
        match c.worktree_config {
            Some(e) => Some(settings(e)),
            None => None,
        },
    )
}

fn new_mapping() -> (m: Vec<(Yaml, Yaml)>)
    ensures
        value::mapping(m@) == Seq::<(YamlTree, YamlTree)>::empty(),
{
    let m: Vec<(Yaml, Yaml)> = Vec::new();
    assert(value::mapping(m@) =~= Seq::<(YamlTree, YamlTree)>::empty());
    m
}

fn put_text(m: &mut Vec<(Yaml, Yaml)>, key: &str, value: &Option<String>)
    ensures
        value::mapping(final(m)@) == with_text(value::mapping(old(m)@), key@, text::opt_text(*value)),
{
    if let Some(s) = value {
        put_yaml(m, key, Yaml::Text(s.clone()));
    }
}

fn put_flag(m: &mut Vec<(Yaml, Yaml)>, key: &str, stated: bool, value: bool)
    ensures
        value::mapping(final(m)@) == with_flag(value::mapping(old(m)@), key@, stated, value),
{
    if stated {
        put_yaml(m, key, Yaml::Flag(value));
    }
}

fn put_settings(m: &mut Vec<(Yaml, Yaml)>, entries: &Vec<(String, String)>)
    ensures
        value::mapping(final(m)@) == with_settings(value::mapping(old(m)@), table::pairs(entries@), entries@.len()),
{
    let ghost start = value::mapping(m@);
    let mut i: usize = 0;
    while i < entries.len()
        invariant
            i <= entries@.len(),
            value::mapping(m@) == with_settings(start, table::pairs(entries@), i as nat),
        decreases entries@.len() - i,
    {
        assert(table::pairs(entries@)[i as int] == (entries@[i as int].0@, entries@[i as int].1@));
        put_yaml(m, entries[i].0.as_str(), Yaml::Text(entries[i].1.clone()));
        i = i + 1;
    }
}

fn settings_value(c: &GitConfig) -> (r: Yaml)
    ensures
        value::yaml_tree(r) == settings(c@),
{
    let mut m = new_mapping();
    put_settings(&mut m, &c.entries);
    assert(c@.len() == c.entries@.len());
    Yaml::Mapping(m)
}

fn put_config(m: &mut Vec<(Yaml, Yaml)>, key: &str, value: &Option<GitConfig>)
    ensures
        value::mapping(final(m)@) == with_value(
            value::mapping(old(m)@),
            key@,
            match config::opt_pairs(*value) {
                Some(e) => Some(settings(e)),
                None => None,
            },
        ),
{
    if let Some(c) = value {
        put_yaml(m, key, settings_value(c));
    }
}

fn worktree_value(w: &WorktreeEntry) -> (r: Yaml)
    ensures
        value::yaml_tree(r) == worktree_tree(w@),
{
    match &w.config {
        Some(c) => {
            let mut m = new_mapping();
            put_yaml(&mut m, "branch", Yaml::Text(w.branch.clone()));
            put_yaml(&mut m, "config", settings_value(c));
            Yaml::Mapping(m)
        },
        None => Yaml::Text(w.branch.clone()),
    }
}

fn worktrees_value(worktrees: &Vec<(String, WorktreeEntry)>) -> (r: Yaml)
    ensures
        value::yaml_tree(r) == YamlTree::Mapping(
            worktree_fields(config::worktrees_view(worktrees@), worktrees@.len()),
        ),
{
    let mut m = new_mapping();
    let ghost all = config::worktrees_view(worktrees@);
    let mut i: usize = 0;
    while i < worktrees.len()
        invariant
            i <= worktrees@.len(),
            all == config::worktrees_view(worktrees@),
            value::mapping(m@) == worktree_fields(all, i as nat),
        decreases worktrees@.len() - i,
    {
        assert(all[i as int] == (worktrees@[i as int].0@, worktrees@[i as int].1@));
        put_yaml(&mut m, worktrees[i].0.as_str(), worktree_value(&worktrees[i].1));
        i = i + 1;
    }
    Yaml::Mapping(m)
}

fn remotes_value(remotes: &Vec<(String, RemoteConfig)>) -> (r: Yaml)
    ensures
        value::yaml_tree(r) == YamlTree::Mapping(remotes_fields(config::remotes_view(remotes@), remotes@.len())),
{
    let mut m = new_mapping();
    let ghost all = config::remotes_view(remotes@);
    let mut i: usize = 0;
    while i < remotes.len()
        invariant
            i <= remotes@.len(),
            all == config::remotes_view(remotes@),
            value::mapping(m@) == remotes_fields(all, i as nat),
        decreases remotes@.len() - i,
    {
        assert(all[i as int] == (remotes@[i as int].0@, remotes@[i as int].1@));
        let remote = &remotes[i].1;
        let mut fields = new_mapping();
        put_yaml(&mut fields, "url", Yaml::Text(remote.url.clone()));
        put_text(&mut fields, "fetch", &remote.fetch);
        put_text(&mut fields, "push", &remote.push);
        put_text(&mut fields, "tagopt", &remote.tagopt);
        put_settings(&mut fields, &remote.extras);
        assert(remote@.extras.len() == remote.extras@.len());
        put_yaml(&mut m, remotes[i].0.as_str(), Yaml::Mapping(fields));
        i = i + 1;
    }
    Yaml::Mapping(m)
}

/// A repository as a mapping for a descriptor.
pub fn build_git_entry(config: &GitRepoConfig) -> (r: Vec<(Yaml, Yaml)>)
    ensures
        value::mapping(r@) == entry_fields(config@),
{
    let mut m = new_mapping();
    put_yaml(&mut m, "url", Yaml::Text(config.url.clone()));
    put_text(&mut m, "branch", &config.branch);
    put_text(&mut m, "tag", &config.tag);
    put_text(&mut m, "rev", &config.rev);
    put_flag(&mut m, "recurse_submodules", config.recurse_submodules, true);
    put_flag(&mut m, "worktree", config.worktree, true);
    put_flag(
        &mut m,
        "per_worktree_config",
        config.per_worktree_config != config.worktree,
        config.per_worktree_config,
    );
    if let Some(worktrees) = &config.worktrees {
        put_yaml(&mut m, "worktrees", worktrees_value(worktrees));
        assert(config::worktrees_view(worktrees@).len() == worktrees@.len());
    }
    if let Some(remotes) = &config.remotes {
        put_yaml(&mut m, "remotes", remotes_value(remotes));
        assert(config::remotes_view(remotes@).len() == remotes@.len());
    }
    put_config(&mut m, "config", &config.config);
    put_config(&mut m, "worktree_config", &config.worktree_config);
    m
}

proof fn lemma_settings_plain(m: Fields, entries: Pairs, n: nat)
    requires
        n <= entries.len(),
        value::plain_pairs(m, m.len()),
    ensures
        value::plain_pairs(with_settings(m, entries, n), with_settings(m, entries, n).len()),
    decreases n,
{
    if n > 0 {
        lemma_settings_plain(m, entries, (n - 1) as nat);
        value::lemma_put_plain(
            with_settings(m, entries, (n - 1) as nat),
            entries[n - 1].0,
            YamlTree::Text(entries[n - 1].1),
        );
    }
}

proof fn lemma_text_plain(m: Fields, key: Seq<char>, value: Option<Seq<char>>)
    requires
        value::plain_pairs(m, m.len()),
    ensures
        value::plain_pairs(with_text(m, key, value), with_text(m, key, value).len()),
{
    if value is Some {
        value::lemma_put_plain(m, key, YamlTree::Text(value->0));
    }
}

proof fn lemma_flag_plain(m: Fields, key: Seq<char>, stated: bool, value: bool)
    requires
        value::plain_pairs(m, m.len()),
    ensures
        value::plain_pairs(with_flag(m, key, stated, value), with_flag(m, key, stated, value).len()),
{
    if stated {
        value::lemma_put_plain(m, key, YamlTree::Flag(value));
    }
}

proof fn lemma_value_plain(m: Fields, key: Seq<char>, value: Option<YamlTree>)
    requires
        value::plain_pairs(m, m.len()),
        value is Some ==> value::plain(value->0),
    ensures
        value::plain_pairs(with_value(m, key, value), with_value(m, key, value).len()),
{
    if value is Some {
        value::lemma_put_plain(m, key, value->0);
    }
}

proof fn lemma_worktrees_plain(w: Seq<(Seq<char>, WorktreeView)>, n: nat)
    requires
        n <= w.len(),
    ensures
        value::plain_pairs(worktree_fields(w, n), worktree_fields(w, n).len()),
    decreases n,
{
    if n > 0 {
        lemma_worktrees_plain(w, (n - 1) as nat);
        let v = w[n - 1].1;
        if v.config is Some {
            let c = v.config->0;
            lemma_settings_plain(Seq::empty(), c, c.len());
            let m = value::yaml_put(Seq::empty(), "branch"@, YamlTree::Text(v.branch));
            value::lemma_put_plain(Seq::empty(), "branch"@, YamlTree::Text(v.branch));
            value::lemma_put_plain(m, "config"@, settings(c));
        }
        value::lemma_put_plain(worktree_fields(w, (n - 1) as nat), w[n - 1].0, worktree_tree(v));
    }
}

proof fn lemma_remotes_plain(r: Seq<(Seq<char>, RemoteView)>, n: nat)
    requires
        n <= r.len(),
    ensures
        value::plain_pairs(remotes_fields(r, n), remotes_fields(r, n).len()),
    decreases n,
{
    if n > 0 {
        lemma_remotes_plain(r, (n - 1) as nat);
        let v = r[n - 1].1;
        let m = value::yaml_put(Seq::empty(), "url"@, YamlTree::Text(v.url));
        value::lemma_put_plain(Seq::empty(), "url"@, YamlTree::Text(v.url));
        lemma_text_plain(m, "fetch"@, v.fetch);
        let m = with_text(m, "fetch"@, v.fetch);
        lemma_text_plain(m, "push"@, v.push);
        let m = with_text(m, "push"@, v.push);
        lemma_text_plain(m, "tagopt"@, v.tagopt);
        let m = with_text(m, "tagopt"@, v.tagopt);
        lemma_settings_plain(m, v.extras, v.extras.len());
        value::lemma_put_plain(
            remotes_fields(r, (n - 1) as nat),
            r[n - 1].0,
            YamlTree::Mapping(remote_fields(v)),
        );
    }
}

/// The entry of a repository is made of texts, flags and mappings from texts, in
/// which no key occurs twice: every format of a descriptor can hold it.
pub proof fn entries_are_plain(c: RepoView)
    ensures
        value::plain(YamlTree::Mapping(entry_fields(c))),
{
    let m = value::yaml_put(Seq::empty(), "url"@, YamlTree::Text(c.url));
    value::lemma_put_plain(Seq::empty(), "url"@, YamlTree::Text(c.url));
    lemma_text_plain(m, "branch"@, c.branch);
    let m = with_text(m, "branch"@, c.branch);
    lemma_text_plain(m, "tag"@, c.tag);
    let m = with_text(m, "tag"@, c.tag);
    lemma_text_plain(m, "rev"@, c.rev);
    let m = with_text(m, "rev"@, c.rev);
    lemma_flag_plain(m, "recurse_submodules"@, c.recurse_submodules, true);
    let m = with_flag(m, "recurse_submodules"@, c.recurse_submodules, true);
    lemma_flag_plain(m, "worktree"@, c.worktree, true);
    let m = with_flag(m, "worktree"@, c.worktree, true);
    let p = c.per_worktree_config;
    lemma_flag_plain(m, "per_worktree_config"@, p != c.worktree, p);
    let m = with_flag(m, "per_worktree_config"@, p != c.worktree, p);
    let w = match c.worktrees {
        Some(w) => Some(YamlTree::Mapping(worktree_fields(w, w.len()))),
        None => None,
    };
    if c.worktrees is Some {
        lemma_worktrees_plain(c.worktrees->0, c.worktrees->0.len());
    }
    lemma_value_plain(m, "worktrees"@, w);
    let m = with_value(m, "worktrees"@, w);
    let r = match c.remotes {
        Some(r) => Some(YamlTree::Mapping(remotes_fields(r, r.len()))),
        None => None,
    };
    if c.remotes is Some {
        lemma_remotes_plain(c.remotes->0, c.remotes->0.len());
    }
    lemma_value_plain(m, "remotes"@, r);
    let m = with_value(m, "remotes"@, r);
    let e = match c.config {
        Some(e) => Some(settings(e)),
        None => None,
    };
    if c.config is Some {
        lemma_settings_plain(Seq::empty(), c.config->0, c.config->0.len());
    }
    lemma_value_plain(m, "config"@, e);
    let m = with_value(m, "config"@, e);
    let e = match c.worktree_config {
        Some(e) => Some(settings(e)),
        None => None,
    };
    if c.worktree_config is Some {
        lemma_settings_plain(Seq::empty(), c.worktree_config->0, c.worktree_config->0.len());
    }
    lemma_value_plain(m, "worktree_config"@, e);
}

proof fn lemma_with_value(m: Fields, key: Seq<char>, value: Option<YamlTree>)
    ensures
        value::yaml_lookup(with_value(m, key, value), key) == match value {
            Some(v) => Some(v),
            None => value::yaml_lookup(m, key),
        },
        forall|other: Seq<char>|
            other != key ==> #[trigger] value::yaml_lookup(with_value(m, key, value), other)
                == value::yaml_lookup(m, other),
{
    if value is Some {
        assert forall|other: Seq<char>| other != key implies #[trigger] value::yaml_lookup(
            with_value(m, key, value),
            other,
        ) == value::yaml_lookup(m, other) by {
            value::putting_sets_one_entry(m, key, value->0, other);
        }
        value::putting_sets_one_entry(m, key, value->0, key);
    }
}

/// A text as a value, where there is one.
pub open spec fn as_text(s: Option<Seq<char>>) -> Option<YamlTree> {
    match s {
        Some(s) => Some(YamlTree::Text(s)),
        None => None,
    }
}

/// A flag as a value, where it is stated.
pub open spec fn as_flag(stated: bool, value: bool) -> Option<YamlTree> {
    if stated {
        Some(YamlTree::Flag(value))
    } else {
        None
    }
}

/// A configuration as a value, where there is one.
pub open spec fn as_settings(e: Option<Pairs>) -> Option<YamlTree> {
    match e {
        Some(e) => Some(settings(e)),
        None => None,
    }
}

/// The entry of a repository holds each of its properties under its own key, and
/// nothing under the key of one that it does not have.
pub proof fn entries_hold_every_property(c: RepoView)
    ensures
        ({
            let m = entry_fields(c);
            &&& value::yaml_lookup(m, "url"@) == Some(YamlTree::Text(c.url))
            &&& value::yaml_lookup(m, "branch"@) == as_text(c.branch)
            &&& value::yaml_lookup(m, "tag"@) == as_text(c.tag)
            &&& value::yaml_lookup(m, "rev"@) == as_text(c.rev)
            &&& value::yaml_lookup(m, "recurse_submodules"@) == as_flag(c.recurse_submodules, true)
            &&& value::yaml_lookup(m, "worktree"@) == as_flag(c.worktree, true)
            &&& value::yaml_lookup(m, "per_worktree_config"@) == as_flag(
                c.per_worktree_config != c.worktree,
                c.per_worktree_config,
            )
            &&& value::yaml_lookup(m, "worktrees"@) == match c.worktrees {
                Some(w) => Some(YamlTree::Mapping(worktree_fields(w, w.len()))),
                None => None,
            }
            &&& value::yaml_lookup(m, "remotes"@) == match c.remotes {
                Some(r) => Some(YamlTree::Mapping(remotes_fields(r, r.len()))),
                None => None,
            }
            &&& value::yaml_lookup(m, "config"@) == as_settings(c.config)
            &&& value::yaml_lookup(m, "worktree_config"@) == as_settings(c.worktree_config)
        }),
{
    reveal_strlit("url");
    reveal_strlit("branch");
    reveal_strlit("tag");
    reveal_strlit("rev");
    reveal_strlit("recurse_submodules");
    reveal_strlit("worktree");
    reveal_strlit("per_worktree_config");
    reveal_strlit("worktrees");
    reveal_strlit("remotes");
    reveal_strlit("config");
    reveal_strlit("worktree_config");
    assert("url"@[0] == 'u' && "tag"@[0] == 't' && "rev"@[0] == 'r');
    assert("branch"@[0] == 'b' && "config"@[0] == 'c');
    assert("url"@.len() == 3);
    assert("branch"@.len() == 6);
    assert("tag"@.len() == 3);
    assert("rev"@.len() == 3);
    assert("recurse_submodules"@.len() == 18);
    assert("worktree"@.len() == 8);
    assert("per_worktree_config"@.len() == 19);
    assert("worktrees"@.len() == 9);
    assert("remotes"@.len() == 7);
    assert("config"@.len() == 6);
    assert("worktree_config"@.len() == 15);
    assert(value::yaml_lookup(Seq::empty(), "url"@) is None);
    assert(value::yaml_lookup(Seq::empty(), "branch"@) is None);
    assert(value::yaml_lookup(Seq::empty(), "tag"@) is None);
    assert(value::yaml_lookup(Seq::empty(), "rev"@) is None);
    assert(value::yaml_lookup(Seq::empty(), "recurse_submodules"@) is None);
    assert(value::yaml_lookup(Seq::empty(), "worktree"@) is None);
    assert(value::yaml_lookup(Seq::empty(), "per_worktree_config"@) is None);
    assert(value::yaml_lookup(Seq::empty(), "worktrees"@) is None);
    assert(value::yaml_lookup(Seq::empty(), "remotes"@) is None);
    assert(value::yaml_lookup(Seq::empty(), "config"@) is None);
    assert(value::yaml_lookup(Seq::empty(), "worktree_config"@) is None);
    let none: Fields = Seq::empty();
    let url = Some(YamlTree::Text(c.url));
    lemma_with_value(none, "url"@, url);
    let m = with_value(none, "url"@, url);
    lemma_with_value(m, "branch"@, as_text(c.branch));
    let m = with_value(m, "branch"@, as_text(c.branch));
    lemma_with_value(m, "tag"@, as_text(c.tag));
    let m = with_value(m, "tag"@, as_text(c.tag));
    lemma_with_value(m, "rev"@, as_text(c.rev));
    let m = with_value(m, "rev"@, as_text(c.rev));
    let f = as_flag(c.recurse_submodules, true);
    lemma_with_value(m, "recurse_submodules"@, f);
    let m = with_value(m, "recurse_submodules"@, f);
    let f = as_flag(c.worktree, true);
    lemma_with_value(m, "worktree"@, f);
    let m = with_value(m, "worktree"@, f);
    let f = as_flag(c.per_worktree_config != c.worktree, c.per_worktree_config);
    lemma_with_value(m, "per_worktree_config"@, f);
    let m = with_value(m, "per_worktree_config"@, f);
    let w = match c.worktrees {
        Some(w) => Some(YamlTree::Mapping(worktree_fields(w, w.len()))),
        None => None,
    };
    lemma_with_value(m, "worktrees"@, w);
    let m = with_value(m, "worktrees"@, w);
    let r = match c.remotes {
        Some(r) => Some(YamlTree::Mapping(remotes_fields(r, r.len()))),
        None => None,
    };
    lemma_with_value(m, "remotes"@, r);
    let m = with_value(m, "remotes"@, r);
    lemma_with_value(m, "config"@, as_settings(c.config));
    let m = with_value(m, "config"@, as_settings(c.config));
    lemma_with_value(m, "worktree_config"@, as_settings(c.worktree_config));
    let m = with_value(m, "worktree_config"@, as_settings(c.worktree_config));
    assert(m == entry_fields(c));
}

/// The descriptor of an overlay among the files that are there: the first of
/// `over.yml`, `over.yaml` and `over.toml`, or else a new `over.yaml`.
pub fn find_descriptor(overlay_root: &str, yml: bool, yaml: bool, toml: bool) -> (r: (
    String,
    Format,
))
    ensures
        r.0@ == path::joined(
            overlay_root@,
            if yml {
                "over.yml"@
            } else if yaml || !toml {
                "over.yaml"@
            } else {
                "over.toml"@
            },
        ),
        r.1 == if !yml && !yaml && toml {
            Format::Toml
        } else {
            Format::Yaml
        },
{
    if yml {
        (join_path(overlay_root, "over.yml"), Format::Yaml)
    } else if yaml {
        (join_path(overlay_root, "over.yaml"), Format::Yaml)
    } else if toml {
        (join_path(overlay_root, "over.toml"), Format::Toml)
    } else {
        (join_path(overlay_root, "over.yaml"), Format::Yaml)
    }
}

/// The text of a descriptor of TOML with the entry of a repository at `rel_path`.
pub fn update_descriptor_toml(content: &str, rel_path: &str, config: &GitRepoConfig) -> (r: Result<
    String,
    DescriptorError,
>)
    ensures
        ({
            let entry = value::converted(YamlTree::Mapping(entry_fields(config@)));
            entry is Ok && match document::toml_document(content@) {
                None => r matches Err(e) && e is TomlRead,
                Some(doc) => match document::toml_with_entry(doc, rel_path@, entry->Ok_0) {
                    Err(root) => r matches Err(e) && if root {
                        e is RootNotTable
                    } else {
                        e is GitNotTable
                    },
                    Ok(t) => match (document::toml_printed(t), r) {
                        (Some(s), Ok(out)) => out@ == s,
                        (None, Err(e)) => e is TomlWrite,
                        _ => false,
                    },
                },
            }
        }),
{
    let fields = build_git_entry(config);
    proof {
        entries_are_plain(config@);
        crate::cli::git_over::value::lemma_yaml_pairs(fields@, fields@.len());
    }
    match yaml_mapping_to_toml(&fields) {
        Ok(entry) => write_toml_entry(content, rel_path, &entry),
        Err(e) => Err(DescriptorError::Entry(e)),
    }
}

/// The text of a descriptor of YAML with the entry of a repository at `rel_path`.
pub fn update_descriptor_yaml(content: &str, rel_path: &str, config: &GitRepoConfig) -> (r: Result<
    String,
    DescriptorError,
>)
    ensures
        match document::yaml_document(content@) {
            None => r matches Err(e) && e is YamlRead,
            Some(doc) => match document::yaml_with_entry(
                doc,
                rel_path@,
                YamlTree::Mapping(entry_fields(config@)),
            ) {
                Err(root) => r matches Err(e) && if root {
                    e is RootNotMapping
                } else {
                    e is GitNotMapping
                },
                Ok(t) => match (document::yaml_printed(t), r) {
                    (Some(s), Ok(out)) => out@ == s,
                    (None, Err(e)) => e is YamlWrite,
                    _ => false,
                },
            },
        },
{
    let entry = Yaml::Mapping(build_git_entry(config));
    proof {
        entries_are_plain(config@);
    }
    write_yaml_entry(content, rel_path, &entry)
}

/// The settings of a repository that can be exported, in their order.
pub open spec fn setting_keys() -> Seq<Seq<char>> {
    seq!["user.name"@, "user.email"@, "core.autocrlf"@, "core.eol"@]
}

/// The settings of a bare repository's own worktree that can be exported.
pub open spec fn bare_setting_keys() -> Seq<Seq<char>> {
    seq!["core.sparseCheckout"@, "core.sparseCheckoutCone"@]
}

/// The settings of a worktree that can be exported.
pub open spec fn worktree_setting_keys() -> Seq<Seq<char>> {
    seq!["user.name"@, "user.email"@, "core.sparseCheckout"@, "core.sparseCheckoutCone"@]
}

/// The settings of a repository that can be exported, in their order.
pub fn exported_settings() -> (r: Vec<String>)
    ensures
        text::texts(r@) == setting_keys(),
{
    let r = vec![
        "user.name".to_owned(),
        "user.email".to_owned(),
        "core.autocrlf".to_owned(),
        "core.eol".to_owned(),
    ];
    assert(text::texts(r@) =~= setting_keys());
    r
}

/// The settings of a bare repository's own worktree that can be exported.
pub fn exported_bare_settings() -> (r: Vec<String>)
    ensures
        text::texts(r@) == bare_setting_keys(),
{
    let r = vec!["core.sparseCheckout".to_owned(), "core.sparseCheckoutCone".to_owned()];
    assert(text::texts(r@) =~= bare_setting_keys());
    r
}

/// The settings of a worktree that can be exported.
pub fn exported_worktree_settings() -> (r: Vec<String>)
    ensures
        text::texts(r@) == worktree_setting_keys(),
{
    let r = vec![
        "user.name".to_owned(),
        "user.email".to_owned(),
        "core.sparseCheckout".to_owned(),
        "core.sparseCheckoutCone".to_owned(),
    ];
    assert(text::texts(r@) =~= worktree_setting_keys());
    r
}

/// The value of a setting.
pub open spec fn setting(table: Seq<(String, String)>, key: Seq<char>) -> Option<Seq<char>> {
    match table::lookup(table::named(table), key) {
        Some(v) => Some(v@),
        None => None,
    }
}

fn find_setting(table: &Vec<(String, String)>, key: &str) -> (r: Option<String>)
    ensures
        text::opt_text(r) == setting(table@, key@),
{
    let i: usize = place_of(table, key);
    if i < table.len() {
        assert(table::named(table@)[i as int].1 == table@[i as int].1);
        Some(table[i].1.clone())
    } else {
        None
    }
}

/// Those of the first `n` keys that have a value, with it.
pub open spec fn found_settings(keys: Seq<Seq<char>>, table: Seq<(String, String)>, n: nat) -> Pairs
    decreases n,
{
    if n == 0 {
        Seq::empty()
    } else {
        let before = found_settings(keys, table, (n - 1) as nat);
        match setting(table, keys[n - 1]) {
            Some(v) => before.push((keys[n - 1], v)),
            None => before,
        }
    }
}

fn find_settings(keys: &Vec<String>, table: &Vec<(String, String)>) -> (r: Vec<(String, String)>)
    ensures
        table::pairs(r@) == found_settings(text::texts(keys@), table@, keys@.len()),
{
    let mut r: Vec<(String, String)> = Vec::new();
    let ghost all = text::texts(keys@);
    let mut i: usize = 0;
    assert(table::pairs(r@) =~= Seq::<(Seq<char>, Seq<char>)>::empty());
    while i < keys.len()
        invariant
            i <= keys@.len(),
            all == text::texts(keys@),
            table::pairs(r@) == found_settings(all, table@, i as nat),
        decreases keys@.len() - i,
    {
        let ghost before = r@;
        assert(all[i as int] == keys@[i as int]@);
        if let Some(v) = find_setting(table, keys[i].as_str()) {
            r.push((keys[i].clone(), v));
            assert(table::pairs(r@) =~= table::pairs(before).push((all[i as int], v@)));
        }
        i = i + 1;
    }
    r
}

/// The settings of a worktree that are exported; none where it has none of them.
pub open spec fn worktree_settings(table: Seq<(String, String)>) -> Option<Pairs> {
    let found = found_settings(worktree_setting_keys(), table, 4);
    if found.len() == 0 {
        None
    } else {
        Some(found)
    }
}

/// The settings of a worktree that are exported.
pub fn read_worktree_config(table: &Vec<(String, String)>) -> (r: Option<GitConfig>)
    ensures
        config::opt_pairs(r) == worktree_settings(table@),
{
    let keys = exported_worktree_settings();
    assert(text::texts(keys@).len() == keys@.len());
    let entries = find_settings(&keys, table);
    assert(table::pairs(entries@).len() == entries@.len());
    if entries.len() == 0 {
        None
    } else {
        Some(GitConfig { entries })
    }
}

/// A remote of the local repository.
#[derive(Debug, PartialEq, Eq)]
pub struct RemoteFact {
    pub name: String,
    pub url: Option<String>,
    /// Its first refspec.
    pub fetch: Option<String>,
}

/// A worktree of the local repository.
#[derive(Debug, PartialEq, Eq)]
pub struct WorktreeFact {
    pub name: String,
    /// The branch that it has checked out, where that can be told.
    pub branch: Option<String>,
    pub settings: Vec<(String, String)>,
}

/// What is known of the local repository.
#[derive(Debug, PartialEq, Eq)]
pub struct RepositoryFacts {
    pub origin_url: Option<String>,
    pub branch: Option<String>,
    /// All its remotes.
    pub remotes: Vec<RemoteFact>,
    pub settings: Vec<(String, String)>,
    /// Whether it is bare or a worktree.
    pub has_worktrees: bool,
    pub worktrees: Vec<WorktreeFact>,
    /// Whether its worktrees have configuration of their own.
    pub worktree_extension: bool,
    /// The configuration of its own worktree.
    pub own_settings: Vec<(String, String)>,
}

/// What can be exported to an overlay.
#[derive(Debug, PartialEq, Eq)]
pub enum ExportKey {
    Url(String),
    Branch(String),
    Remote { name: String, config: RemoteConfig },
    Config { key: String, value: String },
    WorktreeConfig { key: String, value: String },
    Worktree,
    PerWorktreeConfig,
    Worktrees(Vec<(String, WorktreeEntry)>),
}

/// [`ExportKey`] over text.
#[allow(inconsistent_fields)]
pub enum ExportView {
    Url(Seq<char>),
    Branch(Seq<char>),
    Remote { name: Seq<char>, config: RemoteView },
    Config { key: Seq<char>, value: Seq<char> },
    WorktreeConfig { key: Seq<char>, value: Seq<char> },
    Worktree,
    PerWorktreeConfig,
    Worktrees(Seq<(Seq<char>, WorktreeView)>),
}

impl View for ExportKey {
    type V = ExportView;

    open spec fn view(&self) -> ExportView {
        match *self {
            ExportKey::Url(u) => ExportView::Url(u@),
            ExportKey::Branch(b) => ExportView::Branch(b@),
            ExportKey::Remote { name, config } => ExportView::Remote {
                name: name@,
                config: config@,
            },
            ExportKey::Config { key, value } => ExportView::Config { key: key@, value: value@ },
            ExportKey::WorktreeConfig { key, value } => ExportView::WorktreeConfig {
                key: key@,
                value: value@,
            },
            ExportKey::Worktree => ExportView::Worktree,
            ExportKey::PerWorktreeConfig => ExportView::PerWorktreeConfig,
            ExportKey::Worktrees(w) => ExportView::Worktrees(config::worktrees_view(w@)),
        }
    }
}

/// Something that can be exported, as it is offered.
#[derive(Debug, PartialEq, Eq)]
pub struct ExportableProperty {
    pub label: String,
    pub key: ExportKey,
}

/// [`ExportableProperty`] over text.
pub struct PropertyView {
    pub label: Seq<char>,
    pub key: ExportView,
}

impl View for ExportableProperty {
    type V = PropertyView;

    open spec fn view(&self) -> PropertyView {
        PropertyView { label: self.label@, key: self.key@ }
    }
}

/// What can be exported, over text.
pub open spec fn property_views(v: Seq<ExportableProperty>) -> Seq<PropertyView> {
    v.map_values(|p: ExportableProperty| p@)
}

impl ExportableProperty {
    /// Whether it is exported unless the user says otherwise.
    pub fn is_default(&self) -> (r: bool)
        ensures
            r == (self.key is Url || self.key is Branch || self.key is Worktree
                || self.key is PerWorktreeConfig || self.key is Worktrees),
    {
        matches!(
            self.key,
            ExportKey::Url(_) | ExportKey::Branch(_) | ExportKey::Worktree
                | ExportKey::PerWorktreeConfig | ExportKey::Worktrees(_)
        )
    }
}

/// A remote as it is exported.
pub open spec fn remote_property(r: RemoteFact) -> Seq<PropertyView> {
    if r.name@ == "origin"@ {
        Seq::empty()
    } else {
        match r.url {
            Some(url) => seq![
                PropertyView {
                    label: "remote "@ + r.name@ + ": "@ + url@,
                    key: ExportView::Remote {
                        name: r.name@,
                        config: RemoteView {
                            url: url@,
                            fetch: text::opt_text(r.fetch),
                            push: None,
                            tagopt: None,
                            extras: Seq::empty(),
                        },
                    },
                },
            ],
            None => Seq::empty(),
        }
    }
}

/// The first `n` remotes as they are exported: all but `origin` that have a URL.
pub open spec fn remote_properties(r: Seq<RemoteFact>, n: nat) -> Seq<PropertyView>
    decreases n,
{
    if n == 0 {
        Seq::empty()
    } else {
        remote_properties(r, (n - 1) as nat) + remote_property(r[n - 1])
    }
}

/// The first `n` settings as they are exported.
pub open spec fn setting_properties(found: Pairs, worktree: bool) -> Seq<PropertyView> {
    found.map_values(
        |p: (Seq<char>, Seq<char>)|
            if worktree {
                PropertyView {
                    label: "worktree config "@ + p.0 + ": "@ + p.1,
                    key: ExportView::WorktreeConfig { key: p.0, value: p.1 },
                }
            } else {
                PropertyView {
                    label: "config "@ + p.0 + ": "@ + p.1,
                    key: ExportView::Config { key: p.0, value: p.1 },
                }
            },
    )
}

/// A worktree as it is exported: without a branch it is taken to be named after
/// it.
pub open spec fn exported_worktree(w: WorktreeFact) -> WorktreeView {
    WorktreeView {
        branch: match w.branch {
            Some(b) => b@,
            None => w.name@,
        },
        config: worktree_settings(w.settings@),
    }
}

/// The first `n` worktrees as they are exported.
pub open spec fn exported_worktrees(w: Seq<WorktreeFact>, n: nat) -> Seq<(Seq<char>, WorktreeView)>
    decreases n,
{
    if n == 0 {
        Seq::empty()
    } else {
        table::put(exported_worktrees(w, (n - 1) as nat), w[n - 1].name@, exported_worktree(w[n - 1]))
    }
}

/// The worktrees with their branches, as they are offered.
pub open spec fn worktree_labels(w: Seq<(Seq<char>, WorktreeView)>) -> Seq<Seq<char>> {
    w.map_values(|p: (Seq<char>, WorktreeView)| p.0 + "="@ + p.1.branch)
}

/// The worktrees as they are exported, where there are any.
pub open spec fn worktrees_property(w: Seq<(Seq<char>, WorktreeView)>) -> Seq<PropertyView> {
    if w.len() == 0 {
        Seq::empty()
    } else {
        seq![
            PropertyView {
                label: "worktrees: "@ + text::join(worktree_labels(w), ", "@),
                key: ExportView::Worktrees(w),
            },
        ]
    }
}

/// What is exported of worktrees.
pub open spec fn worktree_properties(f: RepositoryFacts) -> Seq<PropertyView> {
    if !f.has_worktrees {
        Seq::empty()
    } else {
        seq![PropertyView { label: "worktree: true"@, key: ExportView::Worktree }]
            + worktrees_property(exported_worktrees(f.worktrees@, f.worktrees@.len())) + (
        if f.worktree_extension {
            seq![
                PropertyView {
                    label: "per_worktree_config: true"@,
                    key: ExportView::PerWorktreeConfig,
                },
            ] + setting_properties(found_settings(bare_setting_keys(), f.own_settings@, 2), true)
        } else {
            Seq::empty()
        })
    }
}

/// What can be exported of a repository, in the order in which it is offered.
pub open spec fn exportable(f: RepositoryFacts) -> Seq<PropertyView> {
    (match f.origin_url {
        Some(u) => seq![PropertyView { label: "origin url: "@ + u@, key: ExportView::Url(u@) }],
        None => Seq::empty(),
    }) + (match f.branch {
        Some(b) => seq![PropertyView { label: "branch: "@ + b@, key: ExportView::Branch(b@) }],
        None => Seq::empty(),
    }) + remote_properties(f.remotes@, f.remotes@.len()) + setting_properties(
        found_settings(setting_keys(), f.settings@, 4),
        false,
    ) + worktree_properties(f)
}

fn push_property(r: &mut Vec<ExportableProperty>, label: String, key: ExportKey)
    ensures
        property_views(final(r)@) == property_views(old(r)@) + seq![
            PropertyView { label: label@, key: key@ },
        ],
{
    r.push(ExportableProperty { label, key });
    assert(property_views(r@) =~= property_views(old(r)@) + seq![
        PropertyView { label: label@, key: key@ },
    ]);
}

fn push_settings(
    r: &mut Vec<ExportableProperty>,
    keys: &Vec<String>,
    table: &Vec<(String, String)>,
    worktree: bool,
)
    ensures
        property_views(final(r)@) == property_views(old(r)@) + setting_properties(
            found_settings(text::texts(keys@), table@, keys@.len()),
            worktree,
        ),
{
    let ghost start = property_views(r@);
    let found = find_settings(keys, table);
    let ghost all = setting_properties(table::pairs(found@), worktree);
    let mut i: usize = 0;
    assert(start =~= start + all.take(0));
    while i < found.len()
        invariant
            i <= found@.len(),
            all == setting_properties(table::pairs(found@), worktree),
            property_views(r@) == start + all.take(i as int),
        decreases found@.len() - i,
    {
        let key = found[i].0.as_str();
        let value = found[i].1.as_str();
        assert(table::pairs(found@)[i as int] == (key@, value@));
        if worktree {
            let mut label = concat3("worktree config ", key, ": ");
            label.append(value);
            push_property(
                r,
                label,
                ExportKey::WorktreeConfig { key: key.to_owned(), value: value.to_owned() },
            );
        } else {
            let mut label = concat3("config ", key, ": ");
            label.append(value);
            push_property(
                r,
                label,
                ExportKey::Config { key: key.to_owned(), value: value.to_owned() },
            );
        }
        assert(start + all.take(i as int) + seq![all[i as int]] =~= start + all.take(i + 1));
        i = i + 1;
    }
    assert(all.take(found@.len() as int) =~= all);
}

fn push_remotes(r: &mut Vec<ExportableProperty>, remotes: &Vec<RemoteFact>)
    ensures
        property_views(final(r)@) == property_views(old(r)@) + remote_properties(
            remotes@,
            remotes@.len(),
        ),
{
    let ghost start = property_views(r@);
    let mut i: usize = 0;
    assert(start =~= start + remote_properties(remotes@, 0));
    while i < remotes.len()
        invariant
            i <= remotes@.len(),
            property_views(r@) == start + remote_properties(remotes@, i as nat),
        decreases remotes@.len() - i,
    {
        let ghost before = property_views(r@);
        let name = remotes[i].name.as_str();
        if !same(name, "origin") {
            if let Some(url) = &remotes[i].url {
                let mut label = concat3("remote ", name, ": ");
                label.append(url.as_str());
                let config = RemoteConfig {
                    url: url.clone(),
                    fetch: remotes[i].fetch.clone(),
                    push: None,
                    tagopt: None,
                    extras: Vec::new(),
                };
                assert(config@.extras =~= Seq::<(Seq<char>, Seq<char>)>::empty());
                push_property(r, label, ExportKey::Remote { name: name.to_owned(), config });
            }
        }
        assert(property_views(r@) =~= before + remote_property(remotes@[i as int]));
        assert(property_views(r@) =~= start + remote_properties(remotes@, (i + 1) as nat));
        i = i + 1;
    }
}

proof fn lemma_put_worktrees(
    before: Seq<(String, WorktreeEntry)>,
    after: Seq<(String, WorktreeEntry)>,
    key: Seq<char>,
    value: WorktreeEntry,
)
    requires
        table::named(after) == table::put(table::named(before), key, value),
    ensures
        config::worktrees_view(after) == table::put(config::worktrees_view(before), key, value@),
{
    let f = |w: WorktreeEntry| w@;
    table::lemma_put_mapped(table::named(before), key, value, f);
    assert(table::mapped(table::named(before), f) =~= config::worktrees_view(before));
    assert(table::mapped(table::named(after), f) =~= config::worktrees_view(after));
}

fn collect_worktrees(worktrees: &Vec<WorktreeFact>) -> (r: Vec<(String, WorktreeEntry)>)
    ensures
        config::worktrees_view(r@) == exported_worktrees(worktrees@, worktrees@.len()),
{
    let mut r: Vec<(String, WorktreeEntry)> = Vec::new();
    let mut i: usize = 0;
    assert(config::worktrees_view(r@) =~= Seq::<(Seq<char>, WorktreeView)>::empty());
    while i < worktrees.len()
        invariant
            i <= worktrees@.len(),
            config::worktrees_view(r@) == exported_worktrees(worktrees@, i as nat),
        decreases worktrees@.len() - i,
    {
        let ghost before = r@;
        let branch = match &worktrees[i].branch {
            Some(b) => b.clone(),
            None => worktrees[i].name.clone(),
        };
        let entry = WorktreeEntry {
            branch,
            config: read_worktree_config(&worktrees[i].settings),
        };
        assert(entry@ == exported_worktree(worktrees@[i as int]));
        put_entry(&mut r, worktrees[i].name.clone(), entry);
        proof {
            lemma_put_worktrees(before, r@, worktrees@[i as int].name@, entry);
        }
        i = i + 1;
    }
    r
}

fn worktrees_label(w: &Vec<(String, WorktreeEntry)>) -> (r: String)
    ensures
        r@ == "worktrees: "@ + text::join(worktree_labels(config::worktrees_view(w@)), ", "@),
{
    let mut parts: Vec<String> = Vec::new();
    let ghost all = worktree_labels(config::worktrees_view(w@));
    let mut i: usize = 0;
    assert(text::texts(parts@) =~= all.take(0));
    while i < w.len()
        invariant
            i <= w@.len(),
            all == worktree_labels(config::worktrees_view(w@)),
            text::texts(parts@) == all.take(i as int),
        decreases w@.len() - i,
    {
        let ghost before = parts@;
        assert(config::worktrees_view(w@)[i as int] == (w@[i as int].0@, w@[i as int].1@));
        parts.push(concat3(w[i].0.as_str(), "=", w[i].1.branch.as_str()));
        assert(text::texts(parts@) =~= text::texts(before).push(all[i as int]));
        assert(text::texts(parts@) =~= all.take(i + 1));
        i = i + 1;
    }
    assert(all.take(w@.len() as int) =~= all);
    concat2("worktrees: ", join_texts(&parts, ", ").as_str())
}

/// What can be exported of a repository, in the order in which it is offered.
pub fn exportable_properties(f: &RepositoryFacts) -> (r: Vec<ExportableProperty>)
    ensures
        property_views(r@) == exportable(*f),
{
    let mut r: Vec<ExportableProperty> = Vec::new();
    if let Some(url) = &f.origin_url {
        push_property(&mut r, concat2("origin url: ", url.as_str()), ExportKey::Url(url.clone()));
    }
    if let Some(branch) = &f.branch {
        push_property(
            &mut r,
            concat2("branch: ", branch.as_str()),
            ExportKey::Branch(branch.clone()),
        );
    }
    let ghost start = property_views(r@);
    assert(start =~= (match f.origin_url {
        Some(u) => seq![PropertyView { label: "origin url: "@ + u@, key: ExportView::Url(u@) }],
        None => Seq::empty(),
    }) + (match f.branch {
        Some(b) => seq![PropertyView { label: "branch: "@ + b@, key: ExportView::Branch(b@) }],
        None => Seq::empty(),
    }));
    push_remotes(&mut r, &f.remotes);
    let keys = exported_settings();
    assert(text::texts(keys@).len() == keys@.len());
    push_settings(&mut r, &keys, &f.settings, false);
    let ghost middle = property_views(r@);
    if f.has_worktrees {
        push_property(&mut r, "worktree: true".to_owned(), ExportKey::Worktree);
        let ghost a = property_views(r@);
        let worktrees = collect_worktrees(&f.worktrees);
        let ghost w = config::worktrees_view(worktrees@);
        assert(w.len() == worktrees@.len());
        if worktrees.len() > 0 {
            push_property(&mut r, worktrees_label(&worktrees), ExportKey::Worktrees(worktrees));
        }
        assert(property_views(r@) =~= a + worktrees_property(w));
        let ghost b = property_views(r@);
        if f.worktree_extension {
            push_property(
                &mut r,
                "per_worktree_config: true".to_owned(),
                ExportKey::PerWorktreeConfig,
            );
            let own = exported_bare_settings();
            assert(text::texts(own@).len() == own@.len());
            push_settings(&mut r, &own, &f.own_settings, true);
        }
        assert(property_views(r@) =~= middle + worktree_properties(*f));
    } else {
        assert(property_views(r@) =~= middle + worktree_properties(*f));
    }
    assert(property_views(r@) =~= exportable(*f));
    r
}

/// The entry of a repository with one more property.
pub open spec fn with_property(c: RepoView, p: ExportView) -> RepoView {
    match p {
        ExportView::Url(u) => RepoView { url: u, ..c },
        ExportView::Branch(b) => RepoView { branch: Some(b), ..c },
        ExportView::Remote { name, config } => RepoView {
            remotes: Some(table::put(entries_of(c.remotes), name, config)),
            ..c
        },
        ExportView::Config { key, value } => RepoView {
            config: Some(table::put(entries_of(c.config), key, value)),
            ..c
        },
        ExportView::WorktreeConfig { key, value } => RepoView {
            worktree_config: Some(table::put(entries_of(c.worktree_config), key, value)),
            ..c
        },
        ExportView::Worktree => RepoView { worktree: true, ..c },
        ExportView::PerWorktreeConfig => RepoView { per_worktree_config: true, ..c },
        ExportView::Worktrees(w) => RepoView { worktrees: Some(w), ..c },
    }
}

/// What a table that may be missing holds.
pub open spec fn entries_of<V>(t: Option<Seq<(Seq<char>, V)>>) -> Seq<(Seq<char>, V)> {
    match t {
        Some(m) => m,
        None => Seq::empty(),
    }
}

/// A table, or nothing where it is empty.
pub open spec fn unless_empty<V>(t: Option<Seq<(Seq<char>, V)>>) -> Option<Seq<(Seq<char>, V)>> {
    match t {
        Some(m) => if m.len() == 0 {
            None
        } else {
            t
        },
        None => None,
    }
}

/// The entry of a repository of which nothing is known.
pub open spec fn blank_entry() -> RepoView {
    RepoView {
        url: Seq::empty(),
        branch: None,
        tag: None,
        rev: None,
        recurse_submodules: false,
        worktree: false,
        per_worktree_config: false,
        worktrees: None,
        remotes: None,
        config: None,
        worktree_config: None,
    }
}

/// The entry of a repository with the first `n` selected properties.
pub open spec fn with_selected(
    start: RepoView,
    properties: Seq<PropertyView>,
    selected: Seq<usize>,
    n: nat,
) -> RepoView
    decreases n,
{
    if n == 0 {
        start
    } else {
        with_property(
            with_selected(start, properties, selected, (n - 1) as nat),
            properties[selected[n - 1] as int].key,
        )
    }
}

/// The entry of a repository: what it was before, with the selected properties,
/// and without empty tables.
pub open spec fn merged(
    existing: Option<RepoView>,
    properties: Seq<PropertyView>,
    selected: Seq<usize>,
) -> RepoView {
    let start = match existing {
        Some(c) => c,
        None => blank_entry(),
    };
    let c = with_selected(start, properties, selected, selected.len());
    RepoView {
        remotes: unless_empty(c.remotes),
        config: unless_empty(c.config),
        worktree_config: unless_empty(c.worktree_config),
        ..c
    }
}

proof fn lemma_put_remotes(
    before: Seq<(String, RemoteConfig)>,
    after: Seq<(String, RemoteConfig)>,
    key: Seq<char>,
    value: RemoteConfig,
)
    requires
        table::named(after) == table::put(table::named(before), key, value),
    ensures
        config::remotes_view(after) == table::put(config::remotes_view(before), key, value@),
{
    let f = |w: RemoteConfig| w@;
    table::lemma_put_mapped(table::named(before), key, value, f);
    assert(table::mapped(table::named(before), f) =~= config::remotes_view(before));
    assert(table::mapped(table::named(after), f) =~= config::remotes_view(after));
}

proof fn lemma_put_settings(
    before: Seq<(String, String)>,
    after: Seq<(String, String)>,
    key: Seq<char>,
    value: String,
)
    requires
        table::named(after) == table::put(table::named(before), key, value),
    ensures
        table::pairs(after) == table::put(table::pairs(before), key, value@),
{
    let f = |s: String| s@;
    table::lemma_put_mapped(table::named(before), key, value, f);
    assert(table::mapped(table::named(before), f) =~= table::pairs(before));
    assert(table::mapped(table::named(after), f) =~= table::pairs(after));
}

fn with_setting(config: Option<GitConfig>, key: &String, value: &String) -> (r: Option<GitConfig>)
    ensures
        config::opt_pairs(r) == Some(table::put(entries_of(config::opt_pairs(config)), key@, value@)),
{
    let mut entries = match config {
        Some(c) => c.entries,
        None => Vec::new(),
    };
    let ghost before = entries@;
    assert(table::pairs(before) =~= entries_of(config::opt_pairs(config)));
    put_entry(&mut entries, key.clone(), value.clone());
    proof {
        lemma_put_settings(before, entries@, key@, *value);
    }
    Some(GitConfig { entries })
}

fn with_remote(
    remotes: Option<Vec<(String, RemoteConfig)>>,
    name: &String,
    config: &RemoteConfig,
) -> (r: Option<Vec<(String, RemoteConfig)>>)
    ensures
        r is Some,
        config::remotes_view(r->0@) == table::put(
            match remotes {
                Some(m) => config::remotes_view(m@),
                None => Seq::empty(),
            },
            name@,
            config@,
        ),
{
    let mut m = match remotes {
        Some(m) => m,
        None => Vec::new(),
    };
    let ghost before = m@;
    assert(config::remotes_view(before) =~= match remotes {
        Some(m) => config::remotes_view(m@),
        None => Seq::empty(),
    });
    let copy = config.clone();
    put_entry(&mut m, name.clone(), copy);
    proof {
        lemma_put_remotes(before, m@, name@, copy);
    }
    Some(m)
}

fn add_property(c: GitRepoConfig, p: &ExportKey) -> (r: GitRepoConfig)
    ensures
        r@ == with_property(c@, p@),
{
    let mut c = c;
    match p {
        ExportKey::Url(u) => {
            c.url = u.clone();
        },
        ExportKey::Branch(b) => {
            c.branch = Some(b.clone());
        },
        ExportKey::Remote { name, config } => {
            c.remotes = with_remote(c.remotes, name, config);
        },
        ExportKey::Config { key, value } => {
            c.config = with_setting(c.config, key, value);
        },
        ExportKey::WorktreeConfig { key, value } => {
            c.worktree_config = with_setting(c.worktree_config, key, value);
        },
        ExportKey::Worktree => {
            c.worktree = true;
        },
        ExportKey::PerWorktreeConfig => {
            c.per_worktree_config = true;
        },
        ExportKey::Worktrees(w) => {
            c.worktrees = Some(copy_worktrees(w));
        },
    }
    c
}

/// The entry of a repository: what it was before, with the selected properties. It
/// must have a URL.
pub fn merge_properties(
    existing: &Option<GitRepoConfig>,
    properties: &Vec<ExportableProperty>,
    selected: &Vec<usize>,
) -> (r: Result<GitRepoConfig, String>)
    requires
        forall|k: int| 0 <= k < selected@.len() ==> (#[trigger] selected@[k]) < properties@.len(),
    ensures
        ({
            let c = merged(
                match *existing {
                    Some(e) => Some(e@),
                    None => None,
                },
                property_views(properties@),
                selected@,
            );
            match r {
                Ok(v) => c.url.len() > 0 && v@ == c,
                Err(e) => c.url.len() == 0 && e@
                    == "no URL available for git entry; add an origin remote first"@,
            }
        }),
{
    let mut c = match existing {
        Some(e) => e.clone(),
        None => GitRepoConfig {
            url: String::new(),
            branch: None,
            tag: None,
            rev: None,
            recurse_submodules: false,
            worktree: false,
            per_worktree_config: false,
            worktrees: None,
            remotes: None,
            config: None,
            worktree_config: None,
        },
    };
    let ghost start = match existing {
        Some(e) => e@,
        None => blank_entry(),
    };
    assert(c@.url =~= start.url);
    assert(c@ == start);
    let ghost all = property_views(properties@);
    let mut i: usize = 0;
    while i < selected.len()
        invariant
            i <= selected@.len(),
            all == property_views(properties@),
            forall|k: int|
                0 <= k < selected@.len() ==> (#[trigger] selected@[k]) < properties@.len(),
            c@ == with_selected(start, all, selected@, i as nat),
        decreases selected@.len() - i,
    {
        assert(selected@[i as int] < properties@.len());
        c = add_property(c, &properties[selected[i]].key);
        i = i + 1;
    }
    let ghost full = c@;
    if c.url.as_str().unicode_len() == 0 {
        return Err("no URL available for git entry; add an origin remote first".to_owned());
    }
    if let Some(m) = &c.remotes {
        assert(config::remotes_view(m@).len() == m@.len());
        if m.len() == 0 {
            c.remotes = None;
        }
    }
    assert(c@ == (RepoView { remotes: unless_empty(full.remotes), ..full }));
    if let Some(m) = &c.config {
        assert(m@.len() == m.entries@.len());
        if m.entries.len() == 0 {
            c.config = None;
        }
    }
    if let Some(m) = &c.worktree_config {
        assert(m@.len() == m.entries@.len());
        if m.entries.len() == 0 {
            c.worktree_config = None;
        }
    }
    Ok(c)
}

/// The repositories of an overlay, by their path.
pub open spec fn repositories(git: Option<Vec<(String, GitRepoConfig)>>) -> Seq<
    (Seq<char>, RepoView),
> {
    match git {
        Some(m) => m@.map_values(|p: (String, GitRepoConfig)| (p.0@, p.1@)),
        None => Seq::empty(),
    }
}

/// The entry of the repository at `path`.
pub fn existing_entry(git: &Option<Vec<(String, GitRepoConfig)>>, path: &str) -> (r: Option<
    GitRepoConfig,
>)
    ensures
        match r {
            Some(c) => table::lookup(repositories(*git), path@) == Some(c@),
            None => table::lookup(repositories(*git), path@) is None,
        },
{
    let m = match git {
        Some(m) => m,
        None => return None,
    };
    let ghost all = repositories(*git);
    let mut i: usize = 0;
    while i < m.len()
        invariant
            i <= m@.len(),
            all == repositories(*git),
            *git == Some(*m),
            all.len() == m@.len(),
            table::place(all, path@, 0) == table::place(all, path@, i as int),
        decreases m@.len() - i,
    {
        assert(all[i as int] == (m@[i as int].0@, m@[i as int].1@));
        if same(m[i].0.as_str(), path) {
            return Some(m[i].1.clone());
        }
        i = i + 1;
    }
    None
}

/// What is written for the repository at `path` once properties are picked: nothing
/// where there is none to pick or none is picked, and else the entry that stood
/// there with those that are. An entry without a URL is an error.
pub fn export_step(
    git: &Option<Vec<(String, GitRepoConfig)>>,
    path: &str,
    properties: &Vec<ExportableProperty>,
    picked: &Vec<usize>,
) -> (r: Result<Option<GitRepoConfig>, String>)
    requires
        forall|k: int| 0 <= k < picked@.len() ==> (#[trigger] picked@[k]) < properties@.len(),
    ensures
        ({
            let c = merged(
                table::lookup(repositories(*git), path@),
                property_views(properties@),
                picked@,
            );
            let skipped = properties@.len() == 0 || picked@.len() == 0;
            match r {
                Ok(None) => skipped,
                Ok(Some(v)) => !skipped && c.url.len() > 0 && v@ == c,
                Err(e) => !skipped && c.url.len() == 0 && e@
                    == "no URL available for git entry; add an origin remote first"@,
            }
        }),
{
    if properties.len() == 0 || picked.len() == 0 {
        return Ok(None);
    }
    match merge_properties(&existing_entry(git, path), properties, picked) {
        Ok(c) => Ok(Some(c)),
        Err(e) => Err(e),
    }
}

/// A line for each pair: its key behind a heading, and its value.
pub open spec fn pair_lines(heading: Seq<char>, entries: Pairs) -> Seq<Seq<char>> {
    entries.map_values(|p: (Seq<char>, Seq<char>)| heading + p.0 + ": "@ + p.1)
}

/// The remotes by name, with the URL of each.
pub open spec fn remote_urls(remotes: Seq<(Seq<char>, RemoteView)>) -> Pairs {
    remotes.map_values(|p: (Seq<char>, RemoteView)| (p.0, p.1.url))
}

/// The lines of pairs that may be missing.
pub open spec fn optional_lines(heading: Seq<char>, entries: Option<Pairs>) -> Seq<Seq<char>> {
    match entries {
        Some(e) => pair_lines(heading, e),
        None => Seq::empty(),
    }
}

/// The lines that show the entry that an overlay has for a repository.
pub open spec fn entry_lines(c: RepoView) -> Seq<Seq<char>> {
    seq!["  url: "@ + c.url] + (match c.branch {
        Some(b) => seq!["  branch: "@ + b],
        None => Seq::empty(),
    }) + optional_lines(
        "  remote "@,
        match c.remotes {
            Some(m) => Some(remote_urls(m)),
            None => None,
        },
    ) + optional_lines("  config "@, c.config) + (if c.per_worktree_config {
        seq!["  per_worktree_config: true"@]
    } else {
        Seq::empty()
    }) + optional_lines("  worktree_config "@, c.worktree_config)
}

fn push_line(r: &mut Vec<String>, line: String)
    ensures
        text::texts(final(r)@) == text::texts(old(r)@).push(line@),
{
    r.push(line);
    assert(text::texts(r@) =~= text::texts(old(r)@).push(line@));
}

fn push_pair(r: &mut Vec<String>, heading: &str, key: &str, value: &str)
    ensures
        text::texts(final(r)@) == text::texts(old(r)@).push(heading@ + key@ + ": "@ + value@),
{
    let mut line = concat3(heading, key, ": ");
    line.append(value);
    push_line(r, line);
}

fn push_config(r: &mut Vec<String>, heading: &str, c: &Option<GitConfig>)
    ensures
        text::texts(final(r)@) == text::texts(old(r)@) + optional_lines(
            heading@,
            config::opt_pairs(*c),
        ),
{
    let ghost start = text::texts(r@);
    let entries = match c {
        Some(c) => &c.entries,
        None => {
            assert(start =~= start + Seq::<Seq<char>>::empty());
            return;
        },
    };
    let ghost all = pair_lines(heading@, table::pairs(entries@));
    let mut i: usize = 0;
    assert(start =~= start + all.take(0));
    while i < entries.len()
        invariant
            i <= entries@.len(),
            all == pair_lines(heading@, table::pairs(entries@)),
            text::texts(r@) == start + all.take(i as int),
        decreases entries@.len() - i,
    {
        push_pair(r, heading, entries[i].0.as_str(), entries[i].1.as_str());
        assert(table::pairs(entries@)[i as int] == (entries@[i as int].0@, entries@[i as int].1@));
        assert(text::texts(r@) =~= start + all.take(i + 1));
        i = i + 1;
    }
    assert(all.take(entries@.len() as int) =~= all);
}

/// The lines that show the entry that an overlay has for a repository.
pub fn existing_lines(entry: &GitRepoConfig) -> (r: Vec<String>)
    ensures
        text::texts(r@) == entry_lines(entry@),
{
    let mut r: Vec<String> = Vec::new();
    assert(text::texts(r@) =~= Seq::<Seq<char>>::empty());
    push_line(&mut r, concat2("  url: ", entry.url.as_str()));
    if let Some(branch) = &entry.branch {
        push_line(&mut r, concat2("  branch: ", branch.as_str()));
    }
    let ghost start = text::texts(r@);
    assert(start =~= seq!["  url: "@ + entry@.url] + (match entry@.branch {
        Some(b) => seq!["  branch: "@ + b],
        None => Seq::empty(),
    }));
    match &entry.remotes {
        Some(remotes) => {
            let ghost urls = remote_urls(config::remotes_view(remotes@));
            let ghost all = pair_lines("  remote "@, urls);
            let mut i: usize = 0;
            assert(start =~= start + all.take(0));
            while i < remotes.len()
                invariant
                    i <= remotes@.len(),
                    urls == remote_urls(config::remotes_view(remotes@)),
                    all == pair_lines("  remote "@, urls),
                    text::texts(r@) == start + all.take(i as int),
                decreases remotes@.len() - i,
            {
                push_pair(&mut r, "  remote ", remotes[i].0.as_str(), remotes[i].1.url.as_str());
                assert(config::remotes_view(remotes@)[i as int] == (
                    remotes@[i as int].0@,
                    remotes@[i as int].1@,
                ));
                assert(urls[i as int] == (remotes@[i as int].0@, remotes@[i as int].1.url@));
                assert(text::texts(r@) =~= start + all.take(i + 1));
                i = i + 1;
            }
            assert(all.take(remotes@.len() as int) =~= all);
        },
        None => {
            assert(start =~= start + Seq::<Seq<char>>::empty());
        },
    }
    push_config(&mut r, "  config ", &entry.config);
    let ghost middle = text::texts(r@);
    if entry.per_worktree_config {
        push_line(&mut r, "  per_worktree_config: true".to_owned());
        assert(text::texts(r@) =~= middle + seq!["  per_worktree_config: true"@]);
    } else {
        assert(middle =~= middle + Seq::<Seq<char>>::empty());
    }
    push_config(&mut r, "  worktree_config ", &entry.worktree_config);
    r
}

// What merging and exporting do, told from the picks and the facts.

/// Whether the pick at `j` is of this remote.
spec fn picks_remote(properties: Seq<PropertyView>, selected: Seq<usize>, j: int, name: Seq<char>) -> bool {
    properties[selected[j] as int].key matches ExportView::Remote { name: n, .. } && n == name
}

/// Whether the pick at `j` is of this setting.
spec fn picks_setting(
    properties: Seq<PropertyView>,
    selected: Seq<usize>,
    j: int,
    key: Seq<char>,
    worktree: bool,
) -> bool {
    match properties[selected[j] as int].key {
        ExportView::Config { key: k, .. } => !worktree && k == key,
        ExportView::WorktreeConfig { key: k, .. } => worktree && k == key,
        _ => false,
    }
}

proof fn lemma_remotes_picked(
    start: RepoView,
    properties: Seq<PropertyView>,
    selected: Seq<usize>,
    n: nat,
    name: Seq<char>,
)
    requires
        n <= selected.len(),
    ensures
        ({
            let found = table::lookup(
                entries_of(with_selected(start, properties, selected, n).remotes),
                name,
            );
            &&& (forall|j: int| 0 <= j < n ==> !#[trigger] picks_remote(properties, selected, j, name))
                ==> found == table::lookup(entries_of(start.remotes), name)
            &&& forall|k: int|
                0 <= k < n && #[trigger] picks_remote(properties, selected, k, name) && (forall|j: int|
                    k < j < n ==> !#[trigger] picks_remote(properties, selected, j, name)) ==> found
                    == Some(properties[selected[k] as int].key->Remote_config)
        }),
    decreases n,
{
    if n > 0 {
        lemma_remotes_picked(start, properties, selected, (n - 1) as nat, name);
        let before = with_selected(start, properties, selected, (n - 1) as nat);
        let found = table::lookup(
            entries_of(with_selected(start, properties, selected, n).remotes),
            name,
        );
        if let ExportView::Remote { name: other, config } = properties[selected[n - 1] as int].key {
            table::putting_sets_one_key(entries_of(before.remotes), other, config, name);
        }
        let here = picks_remote(properties, selected, n - 1, name);
        assert forall|k: int|
            0 <= k < n && #[trigger] picks_remote(properties, selected, k, name) && (forall|j: int|
                k < j < n ==> !#[trigger] picks_remote(properties, selected, j, name)) implies found
            == Some(properties[selected[k] as int].key->Remote_config) by {
            if k < n - 1 {
                assert(!here);
            }
        }
    }
}

proof fn lemma_settings_picked(
    start: RepoView,
    properties: Seq<PropertyView>,
    selected: Seq<usize>,
    n: nat,
    key: Seq<char>,
)
    requires
        n <= selected.len(),
    ensures
        ({
            let after = with_selected(start, properties, selected, n);
            let found = table::lookup(entries_of(after.config), key);
            let own = table::lookup(entries_of(after.worktree_config), key);
            &&& (forall|j: int|
                0 <= j < n ==> !#[trigger] picks_setting(properties, selected, j, key, false))
                ==> found == table::lookup(entries_of(start.config), key)
            &&& (forall|j: int|
                0 <= j < n ==> !#[trigger] picks_setting(properties, selected, j, key, true)) ==> own
                == table::lookup(entries_of(start.worktree_config), key)
            &&& forall|k: int|
                0 <= k < n && #[trigger] picks_setting(properties, selected, k, key, false) && (
                forall|j: int|
                    k < j < n ==> !#[trigger] picks_setting(properties, selected, j, key, false))
                    ==> found == Some(properties[selected[k] as int].key->Config_value)
            &&& forall|k: int|
                0 <= k < n && #[trigger] picks_setting(properties, selected, k, key, true) && (
                forall|j: int|
                    k < j < n ==> !#[trigger] picks_setting(properties, selected, j, key, true))
                    ==> own == Some(properties[selected[k] as int].key->WorktreeConfig_value)
        }),
    decreases n,
{
    if n > 0 {
        lemma_settings_picked(start, properties, selected, (n - 1) as nat, key);
        let before = with_selected(start, properties, selected, (n - 1) as nat);
        let after = with_selected(start, properties, selected, n);
        let found = table::lookup(entries_of(after.config), key);
        let own = table::lookup(entries_of(after.worktree_config), key);
        if let ExportView::Config { key: other, value } = properties[selected[n - 1] as int].key {
            table::putting_sets_one_key(entries_of(before.config), other, value, key);
        }
        if let ExportView::WorktreeConfig { key: other, value } = properties[selected[n - 1] as int].key {
            table::putting_sets_one_key(entries_of(before.worktree_config), other, value, key);
        }
        let here = picks_setting(properties, selected, n - 1, key, false);
        let there = picks_setting(properties, selected, n - 1, key, true);
        assert forall|k: int|
            0 <= k < n && #[trigger] picks_setting(properties, selected, k, key, false) && (
            forall|j: int|
                k < j < n ==> !#[trigger] picks_setting(properties, selected, j, key, false))
            implies found == Some(properties[selected[k] as int].key->Config_value) by {
            if k < n - 1 {
                assert(!here);
            }
        }
        assert forall|k: int|
            0 <= k < n && #[trigger] picks_setting(properties, selected, k, key, true) && (
            forall|j: int|
                k < j < n ==> !#[trigger] picks_setting(properties, selected, j, key, true))
            implies own == Some(properties[selected[k] as int].key->WorktreeConfig_value) by {
            if k < n - 1 {
                assert(!there);
            }
        }
    }
}

/// Picked remotes are added to those that the entry had: every picked name has what
/// its last pick says, and every other name what it had before. None is missing.
pub proof fn merging_keeps_every_remote(
    existing: Option<RepoView>,
    properties: Seq<PropertyView>,
    selected: Seq<usize>,
    name: Seq<char>,
    k: int,
)
    ensures
        ({
            let after = merged(existing, properties, selected).remotes;
            let found = if after is Some {
                table::lookup(after->0, name)
            } else {
                None
            };
            let before = if existing is Some && existing->0.remotes is Some {
                table::lookup(existing->0.remotes->0, name)
            } else {
                None
            };
            &&& (forall|j: int|
                0 <= j < selected.len() ==> !((#[trigger] properties[selected[j] as int]).key is Remote
                    && properties[selected[j] as int].key->Remote_name == name)) ==> found == before
            &&& 0 <= k < selected.len() && properties[selected[k] as int].key is Remote
                && properties[selected[k] as int].key->Remote_name == name && (forall|j: int|
                k < j < selected.len() ==> !((#[trigger] properties[selected[j] as int]).key is Remote
                    && properties[selected[j] as int].key->Remote_name == name)) ==> found == Some(
                properties[selected[k] as int].key->Remote_config,
            )
        }),
{
    let start = match existing {
        Some(c) => c,
        None => blank_entry(),
    };
    lemma_remotes_picked(start, properties, selected, selected.len(), name);
    let full = with_selected(start, properties, selected, selected.len());
    assert(table::lookup(Seq::<(Seq<char>, RemoteView)>::empty(), name) is None);
    if full.remotes is Some && full.remotes->0.len() == 0 {
        assert(full.remotes->0 =~= Seq::<(Seq<char>, RemoteView)>::empty());
    }
    if 0 <= k < selected.len() && properties[selected[k] as int].key is Remote
        && properties[selected[k] as int].key->Remote_name == name {
        assert(picks_remote(properties, selected, k, name));
    }
    assert forall|j: int|
        #![trigger picks_remote(properties, selected, j, name)]
        0 <= j < selected.len() && !(properties[selected[j] as int].key is Remote
            && properties[selected[j] as int].key->Remote_name == name) implies !picks_remote(
        properties,
        selected,
        j,
        name,
    ) by {}
}

/// Picked settings are added to those that the entry had, of the repository and of
/// its worktrees alike: every picked key has the value of its last pick, and every
/// other key what it had before.
pub proof fn merging_keeps_every_setting(
    existing: Option<RepoView>,
    properties: Seq<PropertyView>,
    selected: Seq<usize>,
    key: Seq<char>,
    k: int,
)
    ensures
        ({
            let after = merged(existing, properties, selected).config;
            let found = if after is Some {
                table::lookup(after->0, key)
            } else {
                None
            };
            let before = if existing is Some && existing->0.config is Some {
                table::lookup(existing->0.config->0, key)
            } else {
                None
            };
            &&& (forall|j: int|
                0 <= j < selected.len() ==> !((#[trigger] properties[selected[j] as int]).key is Config
                    && properties[selected[j] as int].key->Config_key == key)) ==> found == before
            &&& 0 <= k < selected.len() && properties[selected[k] as int].key is Config
                && properties[selected[k] as int].key->Config_key == key && (forall|j: int|
                k < j < selected.len() ==> !((#[trigger] properties[selected[j] as int]).key is Config
                    && properties[selected[j] as int].key->Config_key == key)) ==> found == Some(
                properties[selected[k] as int].key->Config_value,
            )
        }),
        ({
            let after = merged(existing, properties, selected).worktree_config;
            let found = if after is Some {
                table::lookup(after->0, key)
            } else {
                None
            };
            let before = if existing is Some && existing->0.worktree_config is Some {
                table::lookup(existing->0.worktree_config->0, key)
            } else {
                None
            };
            &&& (forall|j: int|
                0 <= j < selected.len() ==> !((#[trigger] properties[selected[j] as int]).key
                    is WorktreeConfig && properties[selected[j] as int].key->WorktreeConfig_key
                    == key)) ==> found == before
            &&& 0 <= k < selected.len() && properties[selected[k] as int].key is WorktreeConfig
                && properties[selected[k] as int].key->WorktreeConfig_key == key && (forall|j: int|
                k < j < selected.len() ==> !((#[trigger] properties[selected[j] as int]).key
                    is WorktreeConfig && properties[selected[j] as int].key->WorktreeConfig_key
                    == key)) ==> found == Some(
                properties[selected[k] as int].key->WorktreeConfig_value,
            )
        }),
{
    let start = match existing {
        Some(c) => c,
        None => blank_entry(),
    };
    lemma_settings_picked(start, properties, selected, selected.len(), key);
    let full = with_selected(start, properties, selected, selected.len());
    let none = Seq::<(Seq<char>, Seq<char>)>::empty();
    assert(table::lookup(none, key) is None);
    if full.config is Some && full.config->0.len() == 0 {
        assert(full.config->0 =~= none);
    }
    if full.worktree_config is Some && full.worktree_config->0.len() == 0 {
        assert(full.worktree_config->0 =~= none);
    }
    if 0 <= k < selected.len() {
        let here = picks_setting(properties, selected, k, key, false);
        let there = picks_setting(properties, selected, k, key, true);
        assert(here || !here || there);
    }
}

/// What is merged has no empty tables.
pub proof fn merged_entries_have_no_empty_tables(
    existing: Option<RepoView>,
    properties: Seq<PropertyView>,
    selected: Seq<usize>,
)
    ensures
        ({
            let c = merged(existing, properties, selected);
            &&& c.remotes is Some ==> c.remotes->0.len() > 0
            &&& c.config is Some ==> c.config->0.len() > 0
            &&& c.worktree_config is Some ==> c.worktree_config->0.len() > 0
        }),
{
}

proof fn lemma_url_picked(
    start: RepoView,
    properties: Seq<PropertyView>,
    selected: Seq<usize>,
    picks: Seq<ExportView>,
    n: nat,
    k: int,
)
    requires
        n <= selected.len(),
        picks.len() == selected.len(),
        forall|j: int|
            0 <= j < selected.len() ==> #[trigger] picks[j] == properties[selected[j] as int].key,
    ensures
        ({
            let c = with_selected(start, properties, selected, n);
            &&& (forall|j: int| 0 <= j < n ==> !((#[trigger] picks[j]) is Url)) ==> c.url
                == start.url
            &&& 0 <= k < n && picks[k] is Url && (forall|j: int|
                k < j < n ==> !((#[trigger] picks[j]) is Url)) ==> c.url == picks[k]->Url_0
        }),
    decreases n,
{
    if n > 0 {
        lemma_url_picked(start, properties, selected, picks, (n - 1) as nat, k);
        assert(picks[n - 1] == properties[selected[n - 1] as int].key);
    }
}

proof fn lemma_branch_picked(
    start: RepoView,
    properties: Seq<PropertyView>,
    selected: Seq<usize>,
    picks: Seq<ExportView>,
    n: nat,
    k: int,
)
    requires
        n <= selected.len(),
        picks.len() == selected.len(),
        forall|j: int|
            0 <= j < selected.len() ==> #[trigger] picks[j] == properties[selected[j] as int].key,
    ensures
        ({
            let c = with_selected(start, properties, selected, n);
            &&& (forall|j: int| 0 <= j < n ==> !((#[trigger] picks[j]) is Branch)) ==> c.branch
                == start.branch
            &&& 0 <= k < n && picks[k] is Branch && (forall|j: int|
                k < j < n ==> !((#[trigger] picks[j]) is Branch)) ==> c.branch == Some(picks[k]->Branch_0)
        }),
    decreases n,
{
    if n > 0 {
        lemma_branch_picked(start, properties, selected, picks, (n - 1) as nat, k);
        assert(picks[n - 1] == properties[selected[n - 1] as int].key);
    }
}

proof fn lemma_worktrees_picked(
    start: RepoView,
    properties: Seq<PropertyView>,
    selected: Seq<usize>,
    picks: Seq<ExportView>,
    n: nat,
    k: int,
)
    requires
        n <= selected.len(),
        picks.len() == selected.len(),
        forall|j: int|
            0 <= j < selected.len() ==> #[trigger] picks[j] == properties[selected[j] as int].key,
    ensures
        ({
            let c = with_selected(start, properties, selected, n);
            &&& (forall|j: int| 0 <= j < n ==> !((#[trigger] picks[j]) is Worktrees)) ==> c.worktrees
                == start.worktrees
            &&& 0 <= k < n && picks[k] is Worktrees && (forall|j: int|
                k < j < n ==> !((#[trigger] picks[j]) is Worktrees)) ==> c.worktrees == Some(picks[k]->Worktrees_0)
        }),
    decreases n,
{
    if n > 0 {
        lemma_worktrees_picked(start, properties, selected, picks, (n - 1) as nat, k);
        assert(picks[n - 1] == properties[selected[n - 1] as int].key);
    }
}

proof fn lemma_flags_picked(
    start: RepoView,
    properties: Seq<PropertyView>,
    selected: Seq<usize>,
    picks: Seq<ExportView>,
    n: nat,
)
    requires
        n <= selected.len(),
        picks.len() == selected.len(),
        forall|j: int|
            0 <= j < selected.len() ==> #[trigger] picks[j] == properties[selected[j] as int].key,
    ensures
        ({
            let c = with_selected(start, properties, selected, n);
            &&& c.tag == start.tag
            &&& c.rev == start.rev
            &&& c.recurse_submodules == start.recurse_submodules
            &&& c.worktree == (start.worktree || exists|j: int|
                0 <= j < n && (#[trigger] picks[j]) is Worktree)
            &&& c.per_worktree_config == (start.per_worktree_config || exists|j: int|
                0 <= j < n && (#[trigger] picks[j]) is PerWorktreeConfig)
        }),
    decreases n,
{
    if n > 0 {
        lemma_flags_picked(start, properties, selected, picks, (n - 1) as nat);
        assert(picks[n - 1] == properties[selected[n - 1] as int].key);
    }
}

/// A picked URL, branch or list of worktrees takes the place of the one that the
/// entry had, the last pick counting, a picked flag is set, and everything that is
/// not picked stays as it was: the tag, the revision and the submodules always.
pub proof fn merging_replaces_what_is_picked(
    existing: Option<RepoView>,
    properties: Seq<PropertyView>,
    selected: Seq<usize>,
    picks: Seq<ExportView>,
    k: int,
)
    requires
        picks.len() == selected.len(),
        forall|j: int|
            0 <= j < selected.len() ==> #[trigger] picks[j] == properties[selected[j] as int].key,
    ensures
        ({
            let c = merged(existing, properties, selected);
            let n = picks.len();
            &&& existing is Some ==> c.tag == existing->0.tag && c.rev == existing->0.rev
                && c.recurse_submodules == existing->0.recurse_submodules
            &&& existing is None ==> c.tag is None && c.rev is None && !c.recurse_submodules
            &&& (forall|j: int| 0 <= j < n ==> !((#[trigger] picks[j]) is Url)) ==> c.url == if existing
                is Some {
                existing->0.url
            } else {
                Seq::empty()
            }
            &&& 0 <= k < n && picks[k] is Url && (forall|j: int|
                k < j < n ==> !((#[trigger] picks[j]) is Url)) ==> c.url == picks[k]->Url_0
            &&& (forall|j: int| 0 <= j < n ==> !((#[trigger] picks[j]) is Branch)) ==> c.branch
                == if existing is Some {
                existing->0.branch
            } else {
                None
            }
            &&& 0 <= k < n && picks[k] is Branch && (forall|j: int|
                k < j < n ==> !((#[trigger] picks[j]) is Branch)) ==> c.branch == Some(
                picks[k]->Branch_0,
            )
            &&& (forall|j: int| 0 <= j < n ==> !((#[trigger] picks[j]) is Worktrees)) ==> c.worktrees
                == if existing is Some {
                existing->0.worktrees
            } else {
                None
            }
            &&& 0 <= k < n && picks[k] is Worktrees && (forall|j: int|
                k < j < n ==> !((#[trigger] picks[j]) is Worktrees)) ==> c.worktrees == Some(
                picks[k]->Worktrees_0,
            )
            &&& c.worktree == ((existing is Some && existing->0.worktree) || exists|j: int|
                0 <= j < n && (#[trigger] picks[j]) is Worktree)
            &&& c.per_worktree_config == ((existing is Some && existing->0.per_worktree_config)
                || exists|j: int| 0 <= j < n && (#[trigger] picks[j]) is PerWorktreeConfig)
        }),
{
    let start = match existing {
        Some(c) => c,
        None => blank_entry(),
    };
    lemma_url_picked(start, properties, selected, picks, selected.len(), k);
    lemma_branch_picked(start, properties, selected, picks, selected.len(), k);
    lemma_worktrees_picked(start, properties, selected, picks, selected.len(), k);
    lemma_flags_picked(start, properties, selected, picks, selected.len());
}

proof fn lemma_remote_properties(r: Seq<RemoteFact>, n: nat)
    requires
        n <= r.len(),
    ensures
        forall|k: int|
            0 <= k < n && (#[trigger] r[k]).name@ != "origin"@ && r[k].url is Some
                ==> remote_properties(r, n).contains(remote_property(r[k])[0]),
        forall|m: int|
            0 <= m < remote_properties(r, n).len() ==> exists|k: int|
                0 <= k < n && (#[trigger] r[k]).name@ != "origin"@ && r[k].url is Some
                    && #[trigger] remote_properties(r, n)[m] == remote_property(r[k])[0],
    decreases n,
{
    if n > 0 {
        lemma_remote_properties(r, (n - 1) as nat);
        let before = remote_properties(r, (n - 1) as nat);
        let all = remote_properties(r, n);
        let here = remote_property(r[n - 1]);
        assert forall|k: int|
            0 <= k < n && (#[trigger] r[k]).name@ != "origin"@ && r[k].url is Some implies all.contains(
            remote_property(r[k])[0],
        ) by {
            if k == n - 1 {
                assert(all[before.len() as int] == here[0]);
            } else {
                let m = choose|m: int| 0 <= m < before.len() && before[m] == remote_property(r[k])[0];
                assert(all[m] == before[m]);
            }
        }
        assert forall|m: int| 0 <= m < all.len() implies exists|k: int|
            0 <= k < n && (#[trigger] r[k]).name@ != "origin"@ && r[k].url is Some
                && #[trigger] all[m] == remote_property(r[k])[0] by {
            if m < before.len() {
                assert(all[m] == before[m]);
            } else {
                assert(all[m] == here[m - before.len()]);
                assert(r[n - 1].url is Some);
            }
        }
    }
}

proof fn lemma_found_settings(keys: Seq<Seq<char>>, table: Seq<(String, String)>, n: nat)
    requires
        n <= keys.len(),
    ensures
        forall|k: int|
            0 <= k < n && setting(table, #[trigger] keys[k]) is Some ==> found_settings(
                keys,
                table,
                n,
            ).contains((keys[k], setting(table, keys[k])->0)),
        forall|m: int|
            0 <= m < found_settings(keys, table, n).len() ==> {
                let p = #[trigger] found_settings(keys, table, n)[m];
                keys.contains(p.0) && setting(table, p.0) == Some(p.1)
            },
    decreases n,
{
    if n > 0 {
        lemma_found_settings(keys, table, (n - 1) as nat);
        let before = found_settings(keys, table, (n - 1) as nat);
        let all = found_settings(keys, table, n);
        assert forall|k: int| 0 <= k < n && setting(table, #[trigger] keys[k]) is Some implies all.contains(
            (keys[k], setting(table, keys[k])->0),
        ) by {
            let p = (keys[k], setting(table, keys[k])->0);
            if k == n - 1 {
                assert(all[before.len() as int] == p);
            } else {
                let m = choose|m: int| 0 <= m < before.len() && before[m] == p;
                assert(all[m] == p);
            }
        }
        assert forall|m: int| 0 <= m < all.len() implies keys.contains((#[trigger] all[m]).0)
            && setting(table, all[m].0) == Some(all[m].1) by {
            if m < before.len() {
                assert(all[m] == before[m]);
            } else {
                assert(all[m].0 == keys[n - 1]);
            }
        }
    }
}

/// Whatever of a repository can be exported is offered: the URL of origin, the
/// branch, every other remote that has a URL, with what it fetches, the settings of
/// user and line ends, and where there are worktrees these, and the settings of
/// sparse checkouts where worktrees have settings of their own.
pub proof fn everything_exportable_is_offered(f: RepositoryFacts, k: int, key: Seq<char>)
    ensures
        ({
            let offered = exportable(f);
            let has = |e: ExportView| exists|m: int| 0 <= m < offered.len() && (#[trigger] offered[m]).key == e;
            &&& f.origin_url is Some ==> has(ExportView::Url(f.origin_url->0@))
            &&& f.branch is Some ==> has(ExportView::Branch(f.branch->0@))
            &&& 0 <= k < f.remotes@.len() && f.remotes@[k].name@ != "origin"@ && f.remotes@[k].url
                is Some ==> has(
                ExportView::Remote {
                    name: f.remotes@[k].name@,
                    config: RemoteView {
                        url: f.remotes@[k].url->0@,
                        fetch: text::opt_text(f.remotes@[k].fetch),
                        push: None,
                        tagopt: None,
                        extras: Seq::empty(),
                    },
                },
            )
            &&& (key == "user.name"@ || key == "user.email"@ || key == "core.autocrlf"@ || key
                == "core.eol"@) ==> (table::lookup(table::named(f.settings@), key) matches Some(v)
                ==> has(ExportView::Config { key, value: v@ }))
            &&& f.has_worktrees ==> has(ExportView::Worktree)
            &&& f.has_worktrees && f.worktrees@.len() > 0 ==> has(
                ExportView::Worktrees(exported_worktrees(f.worktrees@, f.worktrees@.len())),
            )
            &&& f.has_worktrees && f.worktree_extension ==> has(ExportView::PerWorktreeConfig)
            &&& f.has_worktrees && f.worktree_extension && (key == "core.sparseCheckout"@ || key
                == "core.sparseCheckoutCone"@) ==> (table::lookup(
                table::named(f.own_settings@),
                key,
            ) matches Some(v) ==> has(ExportView::WorktreeConfig { key, value: v@ }))
        }),
{
    let offered = exportable(f);
    let a = (match f.origin_url {
        Some(u) => seq![PropertyView { label: "origin url: "@ + u@, key: ExportView::Url(u@) }],
        None => Seq::<PropertyView>::empty(),
    });
    let b = (match f.branch {
        Some(x) => seq![PropertyView { label: "branch: "@ + x@, key: ExportView::Branch(x@) }],
        None => Seq::<PropertyView>::empty(),
    });
    let c = remote_properties(f.remotes@, f.remotes@.len());
    let found = found_settings(setting_keys(), f.settings@, 4);
    let d = setting_properties(found, false);
    let e = worktree_properties(f);
    assert(offered == a + b + c + d + e);
    let nc = (a.len() + b.len()) as int;
    let nd = nc + c.len();
    let ne = nd + d.len();
    if f.origin_url is Some {
        assert(offered[0] == a[0]);
    }
    if f.branch is Some {
        assert(offered[a.len() as int] == b[0]);
    }
    lemma_remote_properties(f.remotes@, f.remotes@.len());
    if 0 <= k < f.remotes@.len() && f.remotes@[k].name@ != "origin"@ && f.remotes@[k].url is Some {
        let p = remote_property(f.remotes@[k])[0];
        let m = choose|m: int| 0 <= m < c.len() && c[m] == p;
        assert(offered[nc + m] == p);
    }
    lemma_found_settings(setting_keys(), f.settings@, 4);
    if (key == "user.name"@ || key == "user.email"@ || key == "core.autocrlf"@ || key
        == "core.eol"@) && table::lookup(table::named(f.settings@), key) is Some {
        let v = table::lookup(table::named(f.settings@), key)->0;
        let keys = setting_keys();
        assert(keys[0] == "user.name"@ && keys[1] == "user.email"@ && keys[2] == "core.autocrlf"@
            && keys[3] == "core.eol"@);
        let m = choose|m: int| 0 <= m < found.len() && found[m] == (key, v@);
        assert(offered[nd + m] == d[m]);
    }
    if f.has_worktrees {
        let w = exported_worktrees(f.worktrees@, f.worktrees@.len());
        lemma_exported_worktrees(f.worktrees@, f.worktrees@.len(), 0);
        let x = worktrees_property(w);
        assert(offered[ne] == e[0]);
        if f.worktrees@.len() > 0 {
            assert(w.len() > 0);
            assert(e[1] == x[0]);
            assert(offered[ne + 1] == e[1]);
        }
        if f.worktree_extension {
            let own = found_settings(bare_setting_keys(), f.own_settings@, 2);
            let y = setting_properties(own, true);
            let at = 1 + x.len() as int;
            assert(e[at].key == ExportView::PerWorktreeConfig);
            assert(offered[ne + at] == e[at]);
            lemma_found_settings(bare_setting_keys(), f.own_settings@, 2);
            if (key == "core.sparseCheckout"@ || key == "core.sparseCheckoutCone"@)
                && table::lookup(table::named(f.own_settings@), key) is Some {
                let v = table::lookup(table::named(f.own_settings@), key)->0;
                let keys = bare_setting_keys();
                assert(keys[0] == "core.sparseCheckout"@ && keys[1] == "core.sparseCheckoutCone"@);
                let m = choose|m: int| 0 <= m < own.len() && own[m] == (key, v@);
                assert(e[at + 1 + m] == y[m]);
                assert(offered[ne + at + 1 + m] == e[at + 1 + m]);
            }
        }
    }
}

proof fn lemma_exported_worktrees(w: Seq<WorktreeFact>, n: nat, k: int)
    requires
        n <= w.len(),
    ensures
        n > 0 ==> exported_worktrees(w, n).len() > 0,
        0 <= k < n && (forall|j: int| k < j < n ==> (#[trigger] w[j]).name@ != w[k].name@)
            ==> table::lookup(exported_worktrees(w, n), w[k].name@) == Some(exported_worktree(w[k])),
    decreases n,
{
    if n > 0 {
        lemma_exported_worktrees(w, (n - 1) as nat, k);
        let before = exported_worktrees(w, (n - 1) as nat);
        if 0 <= k < n {
            table::putting_sets_one_key(
                before,
                w[n - 1].name@,
                exported_worktree(w[n - 1]),
                w[k].name@,
            );
        }
        table::lemma_place(before, w[n - 1].name@, 0);
    }
}

/// Every worktree is exported under its name, with its branch, or its name where it
/// has none, and with its own settings of user and sparse checkout, where it has
/// any.
pub proof fn every_worktree_is_exported(w: Seq<WorktreeFact>, k: int, key: Seq<char>)
    requires
        0 <= k < w.len(),
        forall|j: int| k < j < w.len() ==> (#[trigger] w[j]).name@ != w[k].name@,
    ensures
        table::lookup(exported_worktrees(w, w.len()), w[k].name@) matches Some(v) && {
            &&& w[k].branch is Some ==> v.branch == w[k].branch->0@
            &&& w[k].branch is None ==> v.branch == w[k].name@
            &&& v.config is Some ==> v.config->0.len() > 0
            &&& (key == "user.name"@ || key == "user.email"@ || key == "core.sparseCheckout"@ || key
                == "core.sparseCheckoutCone"@) ==> (table::lookup(
                table::named(w[k].settings@),
                key,
            ) matches Some(value) ==> v.config is Some && v.config->0.contains((key, value@)))
            &&& v.config is Some ==> forall|m: int|
                0 <= m < v.config->0.len() ==> (table::lookup(
                    table::named(w[k].settings@),
                    (#[trigger] v.config->0[m]).0,
                ) matches Some(value) && value@ == v.config->0[m].1)
        },
{
    lemma_exported_worktrees(w, w.len(), k);
    lemma_found_settings(worktree_setting_keys(), w[k].settings@, 4);
    let keys = worktree_setting_keys();
    assert(keys[0] == "user.name"@ && keys[1] == "user.email"@ && keys[2] == "core.sparseCheckout"@
        && keys[3] == "core.sparseCheckoutCone"@);
    let found = found_settings(keys, w[k].settings@, 4);
    if (key == "user.name"@ || key == "user.email"@ || key == "core.sparseCheckout"@ || key
        == "core.sparseCheckoutCone"@) && table::lookup(table::named(w[k].settings@), key) is Some {
        let value = table::lookup(table::named(w[k].settings@), key)->0;
        let m = choose|m: int| 0 <= m < found.len() && found[m] == (key, value@);
        assert(found.len() > 0);
    }
}

/// Nothing is offered that the repository does not have, and origin is not offered as
/// a remote of its own.
pub proof fn nothing_else_is_offered(f: RepositoryFacts, m: int)
    requires
        0 <= m < exportable(f).len(),
    ensures
        match exportable(f)[m].key {
            ExportView::Url(u) => f.origin_url is Some && u == f.origin_url->0@,
            ExportView::Branch(b) => f.branch is Some && b == f.branch->0@,
            ExportView::Remote { name, config } => name != "origin"@ && exists|k: int|
                0 <= k < f.remotes@.len() && (#[trigger] f.remotes@[k]).name@ == name
                    && f.remotes@[k].url is Some && config.url == f.remotes@[k].url->0@,
            ExportView::Config { key, value } => table::lookup(
                table::named(f.settings@),
                key,
            ) matches Some(v) && v@ == value,
            ExportView::WorktreeConfig { key, value } => f.has_worktrees && f.worktree_extension && (
            table::lookup(table::named(f.own_settings@), key) matches Some(v) && v@ == value),
            ExportView::Worktree => f.has_worktrees,
            ExportView::PerWorktreeConfig => f.has_worktrees && f.worktree_extension,
            ExportView::Worktrees(w) => f.has_worktrees && w == exported_worktrees(
                f.worktrees@,
                f.worktrees@.len(),
            ),
        },
{
    let offered = exportable(f);
    let a = (match f.origin_url {
        Some(u) => seq![PropertyView { label: "origin url: "@ + u@, key: ExportView::Url(u@) }],
        None => Seq::<PropertyView>::empty(),
    });
    let b = (match f.branch {
        Some(x) => seq![PropertyView { label: "branch: "@ + x@, key: ExportView::Branch(x@) }],
        None => Seq::<PropertyView>::empty(),
    });
    let c = remote_properties(f.remotes@, f.remotes@.len());
    let found = found_settings(setting_keys(), f.settings@, 4);
    let d = setting_properties(found, false);
    let e = worktree_properties(f);
    let nc = (a.len() + b.len()) as int;
    let nd = nc + c.len();
    let ne = nd + d.len();
    lemma_remote_properties(f.remotes@, f.remotes@.len());
    lemma_found_settings(setting_keys(), f.settings@, 4);
    lemma_found_settings(bare_setting_keys(), f.own_settings@, 2);
    if m < a.len() {
        assert(offered[m] == a[m]);
    } else if m < nc {
        assert(offered[m] == b[m - a.len()]);
    } else if m < nd {
        assert(offered[m] == c[m - nc]);
        let k = choose|k: int|
            0 <= k < f.remotes@.len() && (#[trigger] f.remotes@[k]).name@ != "origin"@
                && f.remotes@[k].url is Some && c[m - nc] == remote_property(f.remotes@[k])[0];
        assert(f.remotes@[k].name@ == offered[m].key->Remote_name);
    } else if m < ne {
        assert(offered[m] == d[m - nd]);
        assert(found[m - nd].0 == offered[m].key->Config_key);
    } else {
        assert(offered[m] == e[m - ne]);
        let x = worktrees_property(exported_worktrees(f.worktrees@, f.worktrees@.len()));
        let own = found_settings(bare_setting_keys(), f.own_settings@, 2);
        let i = m - ne;
        if i > 0 && i < 1 + x.len() {
            assert(e[i] == x[i - 1]);
        } else if i > 1 + x.len() {
            assert(e[i] == setting_properties(own, true)[i - 2 - x.len()]);
            assert(own[i - 2 - x.len()].0 == offered[m].key->WorktreeConfig_key);
        }
    }
}

proof fn lemma_with_settings(m: Fields, entries: Pairs, n: nat, key: Seq<char>)
    requires
        n <= entries.len(),
    ensures
        ({
            let found = value::yaml_lookup(with_settings(m, entries, n), key);
            &&& (forall|j: int| 0 <= j < n ==> (#[trigger] entries[j]).0 != key) ==> found
                == value::yaml_lookup(m, key)
            &&& forall|k: int|
                0 <= k < n && (#[trigger] entries[k]).0 == key && (forall|j: int|
                    k < j < n ==> (#[trigger] entries[j]).0 != key) ==> found == Some(
                    YamlTree::Text(entries[k].1),
                )
        }),
    decreases n,
{
    if n > 0 {
        lemma_with_settings(m, entries, (n - 1) as nat, key);
        value::putting_sets_one_entry(
            with_settings(m, entries, (n - 1) as nat),
            entries[n - 1].0,
            YamlTree::Text(entries[n - 1].1),
            key,
        );
    }
}

/// A configuration is written with the last value of every key, and with no other
/// key.
pub proof fn configurations_are_written_whole(entries: Pairs, key: Seq<char>, k: int)
    ensures
        settings(entries) matches YamlTree::Mapping(m) && {
            &&& (forall|j: int| 0 <= j < entries.len() ==> (#[trigger] entries[j]).0 != key)
                ==> value::yaml_lookup(m, key) is None
            &&& 0 <= k < entries.len() && entries[k].0 == key && (forall|j: int|
                k < j < entries.len() ==> (#[trigger] entries[j]).0 != key) ==> value::yaml_lookup(
                m,
                key,
            ) == Some(YamlTree::Text(entries[k].1))
        },
{
    lemma_with_settings(Seq::empty(), entries, entries.len(), key);
    assert(value::yaml_lookup(Seq::empty(), key) is None);
}

/// A remote is written with its URL, what it fetches and pushes, its option for tags
/// and everything further, of which what is declared under one of these names wins.
pub proof fn remotes_are_written_whole(r: RemoteView, key: Seq<char>, k: int)
    ensures
        ({
            let m = remote_fields(r);
            let apart = forall|j: int| 0 <= j < r.extras.len() ==> (#[trigger] r.extras[j]).0 != key;
            &&& apart && key == "url"@ ==> value::yaml_lookup(m, key) == Some(YamlTree::Text(r.url))
            &&& apart && key == "fetch"@ ==> value::yaml_lookup(m, key) == match r.fetch {
                Some(v) => Some(YamlTree::Text(v)),
                None => None,
            }
            &&& apart && key == "push"@ ==> value::yaml_lookup(m, key) == match r.push {
                Some(v) => Some(YamlTree::Text(v)),
                None => None,
            }
            &&& apart && key == "tagopt"@ ==> value::yaml_lookup(m, key) == match r.tagopt {
                Some(v) => Some(YamlTree::Text(v)),
                None => None,
            }
            &&& 0 <= k < r.extras.len() && r.extras[k].0 == key && (forall|j: int|
                k < j < r.extras.len() ==> (#[trigger] r.extras[j]).0 != key) ==> value::yaml_lookup(
                m,
                key,
            ) == Some(YamlTree::Text(r.extras[k].1))
        }),
{
    reveal_strlit("url");
    reveal_strlit("fetch");
    reveal_strlit("push");
    reveal_strlit("tagopt");
    assert("url"@.len() == 3 && "fetch"@.len() == 5 && "push"@.len() == 4 && "tagopt"@.len() == 6);
    let none: Fields = Seq::empty();
    assert(value::yaml_lookup(none, key) is None);
    let a = value::yaml_put(none, "url"@, YamlTree::Text(r.url));
    value::putting_sets_one_entry(none, "url"@, YamlTree::Text(r.url), key);
    let b = with_text(a, "fetch"@, r.fetch);
    if let Some(v) = r.fetch {
        value::putting_sets_one_entry(a, "fetch"@, YamlTree::Text(v), key);
    }
    let c = with_text(b, "push"@, r.push);
    if let Some(v) = r.push {
        value::putting_sets_one_entry(b, "push"@, YamlTree::Text(v), key);
    }
    let d = with_text(c, "tagopt"@, r.tagopt);
    if let Some(v) = r.tagopt {
        value::putting_sets_one_entry(c, "tagopt"@, YamlTree::Text(v), key);
    }
    lemma_with_settings(d, r.extras, r.extras.len(), key);
}

/// Every worktree is written under its name: its branch alone where it has no
/// settings, and else its branch and its settings.
pub proof fn worktrees_are_written_whole(w: Seq<(Seq<char>, WorktreeView)>, k: int)
    requires
        0 <= k < w.len(),
        forall|j: int| k < j < w.len() ==> (#[trigger] w[j]).0 != w[k].0,
    ensures
        value::yaml_lookup(worktree_fields(w, w.len()), w[k].0) matches Some(t) && {
            &&& w[k].1.config is None ==> t == YamlTree::Text(w[k].1.branch)
            &&& w[k].1.config is Some ==> (t matches YamlTree::Mapping(m) && value::yaml_lookup(
                m,
                "branch"@,
            ) == Some(YamlTree::Text(w[k].1.branch)) && value::yaml_lookup(m, "config"@) == Some(
                settings(w[k].1.config->0),
            ))
        },
{
    lemma_worktree_fields(w, w.len(), k);
    reveal_strlit("branch");
    reveal_strlit("config");
    assert("branch"@[0] != "config"@[0]);
    if let Some(c) = w[k].1.config {
        let none: Fields = Seq::empty();
        let branch = YamlTree::Text(w[k].1.branch);
        value::putting_sets_one_entry(none, "branch"@, branch, "branch"@);
        value::putting_sets_one_entry(
            value::yaml_put(none, "branch"@, branch),
            "config"@,
            settings(c),
            "branch"@,
        );
    }
}

proof fn lemma_worktree_fields(w: Seq<(Seq<char>, WorktreeView)>, n: nat, k: int)
    requires
        0 <= k < n <= w.len(),
        forall|j: int| k < j < n ==> (#[trigger] w[j]).0 != w[k].0,
    ensures
        value::yaml_lookup(worktree_fields(w, n), w[k].0) == Some(worktree_tree(w[k].1)),
    decreases n,
{
    value::putting_sets_one_entry(
        worktree_fields(w, (n - 1) as nat),
        w[n - 1].0,
        worktree_tree(w[n - 1].1),
        w[k].0,
    );
    if k < n - 1 {
        lemma_worktree_fields(w, (n - 1) as nat, k);
    }
}

/// Every remote is written under its name.
pub proof fn every_remote_is_written(r: Seq<(Seq<char>, RemoteView)>, n: nat, k: int)
    requires
        0 <= k < n <= r.len(),
        forall|j: int| k < j < n ==> (#[trigger] r[j]).0 != r[k].0,
    ensures
        value::yaml_lookup(remotes_fields(r, n), r[k].0) == Some(
            YamlTree::Mapping(remote_fields(r[k].1)),
        ),
    decreases n,
{
    value::putting_sets_one_entry(
        remotes_fields(r, (n - 1) as nat),
        r[n - 1].0,
        YamlTree::Mapping(remote_fields(r[n - 1].1)),
        r[k].0,
    );
    if k < n - 1 {
        every_remote_is_written(r, (n - 1) as nat, k);
    }
}

/// An entry is shown with its URL first, then its branch, a line for every remote
/// and every setting, and a line for each setting of its worktrees.
pub proof fn entries_are_shown_whole(c: RepoView, k: int)
    ensures
        ({
            let shown = entry_lines(c);
            &&& shown[0] == "  url: "@ + c.url
            &&& c.branch is Some ==> shown.contains("  branch: "@ + c.branch->0)
            &&& c.remotes is Some && 0 <= k < c.remotes->0.len() ==> shown.contains(
                "  remote "@ + c.remotes->0[k].0 + ": "@ + c.remotes->0[k].1.url,
            )
            &&& c.config is Some && 0 <= k < c.config->0.len() ==> shown.contains(
                "  config "@ + c.config->0[k].0 + ": "@ + c.config->0[k].1,
            )
            &&& c.per_worktree_config ==> shown.contains("  per_worktree_config: true"@)
            &&& c.worktree_config is Some && 0 <= k < c.worktree_config->0.len() ==> shown.contains(
                "  worktree_config "@ + c.worktree_config->0[k].0 + ": "@ + c.worktree_config->0[k].1,
            )
        }),
{
    let shown = entry_lines(c);
    let b: int = if c.branch is Some {
        1
    } else {
        0
    };
    let r: int = if c.remotes is Some {
        c.remotes->0.len() as int
    } else {
        0
    };
    let s: int = if c.config is Some {
        c.config->0.len() as int
    } else {
        0
    };
    let p: int = if c.per_worktree_config {
        1
    } else {
        0
    };
    if c.branch is Some {
        assert(shown[1] == "  branch: "@ + c.branch->0);
    }
    if c.remotes is Some && 0 <= k < r {
        assert(shown[1 + b + k] == "  remote "@ + c.remotes->0[k].0 + ": "@ + c.remotes->0[k].1.url);
    }
    if c.config is Some && 0 <= k < s {
        assert(shown[1 + b + r + k] == "  config "@ + c.config->0[k].0 + ": "@ + c.config->0[k].1);
    }
    if c.per_worktree_config {
        assert(shown[1 + b + r + s] == "  per_worktree_config: true"@);
    }
    if c.worktree_config is Some && 0 <= k < c.worktree_config->0.len() {
        assert(shown[1 + b + r + s + p + k] == "  worktree_config "@ + c.worktree_config->0[k].0
            + ": "@ + c.worktree_config->0[k].1);
    }
}

} // verus!
