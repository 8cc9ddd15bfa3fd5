//! Descriptors as documents of TOML and YAML.

use crate::cli::git_over::value;
use crate::cli::git_over::value::{Toml, TomlTree, Yaml, YamlTree};
use crate::text::concat2;
use vstd::prelude::*;

verus! {

#[verifier::external_type_specification]
#[verifier::external_body]
pub struct ExTomlValue(toml::Value);

#[verifier::external_type_specification]
#[verifier::external_body]
pub struct ExTomlReadError(toml::de::Error);

#[verifier::external_type_specification]
#[verifier::external_body]
pub struct ExTomlWriteError(toml::ser::Error);

#[verifier::external_type_specification]
#[verifier::external_body]
pub struct ExYamlValue(serde_yml::Value);

#[verifier::external_type_specification]
#[verifier::external_body]
pub struct ExYamlError(serde_yml::Error);

/// What a `toml::Value` holds. A table is a map: its keys are kept in order.
pub uninterp spec fn toml_value(v: toml::Value) -> TomlTree;

/// What `toml::from_str` reads as a document, where it does.
pub uninterp spec fn toml_parsed(text: Seq<char>) -> Option<TomlTree>;

/// What `toml::to_string_pretty` writes for a value, where it does.
pub uninterp spec fn toml_printed(v: TomlTree) -> Option<Seq<char>>;

/// `toml::from_str` for a `toml::Value`. It reads the same text always in the same
/// way.
#[verifier::external_body]
fn toml_parse(text: &str) -> (r: Result<toml::Value, toml::de::Error>)
    ensures
        match r {
            Ok(v) => toml_parsed(text@) == Some(toml_value(v)),
            Err(_) => toml_parsed(text@) is None,
        },
{
    toml::from_str(text)
}

/// `toml::to_string_pretty` for a `toml::Value`. It writes the same contents
/// always in the same way.
#[verifier::external_body]
fn toml_print(v: &toml::Value) -> (r: Result<String, toml::ser::Error>)
    ensures
        match r {
            Ok(s) => toml_printed(toml_value(*v)) == Some(s@),
            Err(_) => toml_printed(toml_value(*v)) is None,
        },
{
    toml::to_string_pretty(v)
}

/// `toml::Value::String`: a text.
#[verifier::external_body]
fn toml_text(s: String) -> (r: toml::Value)
    ensures
        toml_value(r) == TomlTree::Text(s@),
{
    toml::Value::String(s)
}

/// `toml::Value::Boolean`: a flag.
#[verifier::external_body]
fn toml_flag(b: bool) -> (r: toml::Value)
    ensures
        toml_value(r) == TomlTree::Flag(b),
{
    toml::Value::Boolean(b)
}

/// `toml::Table::new`: an empty table.
#[verifier::external_body]
fn toml_new() -> (r: toml::Value)
    ensures
        toml_value(r) == TomlTree::Table(Map::empty()),
{
    toml::Value::Table(toml::Table::new())
}

/// `toml::Value::is_table`.
#[verifier::external_body]
fn toml_is_table(v: &toml::Value) -> (r: bool)
    ensures
        r == (toml_value(*v) is Table),
{
    v.is_table()
}

/// `toml::Value::get` with a key: what a table holds for it, as a copy.
#[verifier::external_body]
fn toml_get(v: &toml::Value, key: &str) -> (r: Option<toml::Value>)
    requires
        toml_value(*v) is Table,
    ensures
        ({
            let t = toml_value(*v)->Table_0;
            match r {
                Some(x) => t.contains_key(key@) && t[key@] == toml_value(x),
                None => !t.contains_key(key@),
            }
        }),
{
    v.get(key).cloned()
}

/// `toml::Table::insert`: a table holds the value for the key from then on, and
/// for every other key what it held before.
#[verifier::external_body]
fn toml_insert(v: &mut toml::Value, key: String, value: toml::Value)
    requires
        toml_value(*old(v)) is Table,
    ensures
        toml_value(*final(v)) == TomlTree::Table(
            toml_value(*old(v))->Table_0.insert(key@, toml_value(value)),
        ),
{
    if let toml::Value::Table(t) = v {
        t.insert(key, value);
    }
}

/// What a `serde_yml::Value` holds: a mapping its entries in the order in which they
/// came, and a tagged value its tag and the value behind it.
pub uninterp spec fn yaml_value(v: serde_yml::Value) -> YamlTree;

/// What `serde_yml::from_str` reads as a document, where it does.
pub uninterp spec fn yaml_parsed(text: Seq<char>) -> Option<YamlTree>;

/// What `serde_yml::to_string` writes for a value, where it does.
pub uninterp spec fn yaml_printed(v: YamlTree) -> Option<Seq<char>>;

/// `serde_yml::from_str` for a `serde_yml::Value`. It reads the same text always
/// in the same way.
#[verifier::external_body]
fn yaml_parse(text: &str) -> (r: Result<serde_yml::Value, serde_yml::Error>)
    ensures
        match r {
            Ok(v) => yaml_parsed(text@) == Some(yaml_value(v)),
            Err(_) => yaml_parsed(text@) is None,
        },
{
    serde_yml::from_str(text)
}

/// `serde_yml::to_string` for a `serde_yml::Value`. It writes the same contents
/// always in the same way.
#[verifier::external_body]
fn yaml_print(v: &serde_yml::Value) -> (r: Result<String, serde_yml::Error>)
    ensures
        match r {
            Ok(s) => yaml_printed(yaml_value(*v)) == Some(s@),
            Err(_) => yaml_printed(yaml_value(*v)) is None,
        },
{
    serde_yml::to_string(v)
}

/// `serde_yml::Value::String`: a text.
#[verifier::external_body]
fn yaml_text(s: String) -> (r: serde_yml::Value)
    ensures
        yaml_value(r) == YamlTree::Text(s@),
{
    serde_yml::Value::String(s)
}

/// `serde_yml::Value::Bool`: a flag.
#[verifier::external_body]
fn yaml_flag(b: bool) -> (r: serde_yml::Value)
    ensures
        yaml_value(r) == YamlTree::Flag(b),
{
    serde_yml::Value::Bool(b)
}

/// `serde_yml::Mapping::new`: an empty mapping.
#[verifier::external_body]
fn yaml_new() -> (r: serde_yml::Value)
    ensures
        yaml_value(r) == YamlTree::Mapping(Seq::empty()),
{
    serde_yml::Value::Mapping(serde_yml::Mapping::new())
}

/// `serde_yml::Value::is_mapping`.
#[verifier::external_body]
fn yaml_is_mapping(v: &serde_yml::Value) -> (r: bool)
    ensures
        r == (yaml_value(*v) is Mapping),
{
    v.is_mapping()
}

/// `serde_yml::Value::get` with a key: what a mapping holds for it, as a copy.
#[verifier::external_body]
fn yaml_get(v: &serde_yml::Value, key: &str) -> (r: Option<serde_yml::Value>)
    requires
        yaml_value(*v) is Mapping,
    ensures
        match r {
            Some(x) => value::yaml_lookup(yaml_value(*v)->Mapping_0, key@) == Some(yaml_value(x)),
            None => value::yaml_lookup(yaml_value(*v)->Mapping_0, key@) is None,
        },
{
    v.get(key).cloned()
}

/// `serde_yml::Mapping::insert`: a mapping holds the value in the place of what it
/// held for the key, or else at its end.
#[verifier::external_body]
fn yaml_insert(v: &mut serde_yml::Value, key: String, value: serde_yml::Value)
    requires
        yaml_value(*old(v)) is Mapping,
    ensures
        yaml_value(*final(v)) == YamlTree::Mapping(
            value::yaml_put(yaml_value(*old(v))->Mapping_0, key@, yaml_value(value)),
        ),
{
    if let serde_yml::Value::Mapping(m) = v {
        m.insert(key, value);
    }
}

/// Why a descriptor cannot be changed.
#[derive(Debug)]
pub enum DescriptorError {
    TomlRead(toml::de::Error),
    TomlWrite(toml::ser::Error),
    YamlRead(serde_yml::Error),
    YamlWrite(serde_yml::Error),
    /// The document is no table of TOML.
    RootNotTable,
    /// The document is no mapping of YAML.
    RootNotMapping,
    /// What it holds for `git` is no table of TOML.
    GitNotTable,
    /// What it holds for `git` is no mapping of YAML.
    GitNotMapping,
    /// The entry cannot be written as TOML.
    Entry(String),
}

impl DescriptorError {
    /// What is said of it, for the descriptor at `path`, but for what TOML and
    /// YAML say themselves.
    pub fn message(&self, path: &str) -> (r: String)
        ensures
            r@ == match *self {
                DescriptorError::TomlRead(_) | DescriptorError::YamlRead(_) => "failed to parse "@
                    + path@,
                DescriptorError::TomlWrite(_) | DescriptorError::YamlWrite(_) =>
                    "failed to serialize "@ + path@,
                DescriptorError::RootNotTable => path@ + " root is not a table"@,
                DescriptorError::RootNotMapping => path@ + " root is not a mapping"@,
                DescriptorError::GitNotTable => "git section is not a table"@,
                DescriptorError::GitNotMapping => "git section is not a mapping"@,
                DescriptorError::Entry(e) => e@,
            },
    {
        match self {
            DescriptorError::TomlRead(_) => concat2("failed to parse ", path),
            DescriptorError::YamlRead(_) => concat2("failed to parse ", path),
            DescriptorError::TomlWrite(_) => concat2("failed to serialize ", path),
            DescriptorError::YamlWrite(_) => concat2("failed to serialize ", path),
            DescriptorError::RootNotTable => concat2(path, " root is not a table"),
            DescriptorError::RootNotMapping => concat2(path, " root is not a mapping"),
            DescriptorError::GitNotTable => "git section is not a table".to_owned(),
            DescriptorError::GitNotMapping => "git section is not a mapping".to_owned(),
            DescriptorError::Entry(e) => e.clone(),
        }
    }
}

/// A value of the library as one of TOML.
fn export_toml(v: &Toml) -> (r: toml::Value)
    requires
        value::simple(*v),
    ensures
        toml_value(r) == value::toml_tree(*v),
    decreases v,
{
    match v {
        Toml::Text(s) => toml_text(s.clone()),
        Toml::Flag(b) => toml_flag(*b),
        Toml::Table(t) => export_toml_table(t),
        _ => toml_new(),
    }
}

fn export_toml_table(t: &Vec<(String, Toml)>) -> (r: toml::Value)
    requires
        value::simple_table(t@, t@.len()),
    ensures
        toml_value(r) == TomlTree::Table(value::toml_table(t@, t@.len())),
    decreases t,
{
    let mut r = toml_new();
    let mut i: usize = 0;
    while i < t.len()
        invariant
            i <= t@.len(),
            value::simple_table(t@, t@.len()),
            toml_value(r) == TomlTree::Table(value::toml_table(t@, i as nat)),
        decreases t@.len() - i,
    {
        proof {
            lemma_simple_entry(t@, t@.len(), i as int);
        }
        assert(decreases_to!(t => t@[i as int].1));
        let value = export_toml(&t[i].1);
        toml_insert(&mut r, t[i].0.clone(), value);
        i = i + 1;
    }
    r
}

proof fn lemma_simple_entry(t: Seq<(String, Toml)>, n: nat, i: int)
    requires
        n <= t.len(),
        value::simple_table(t, n),
        0 <= i < n,
    ensures
        value::simple(t[i].1),
    decreases n,
{
    if i < n - 1 {
        lemma_simple_entry(t, (n - 1) as nat, i);
    }
}

/// A value of the library as one of YAML.
fn export_yaml(v: &Yaml) -> (r: serde_yml::Value)
    requires
        value::plain(value::yaml_tree(*v)),
    ensures
        yaml_value(r) == value::yaml_tree(*v),
    decreases v,
{
    match v {
        Yaml::Text(s) => yaml_text(s.clone()),
        Yaml::Flag(b) => yaml_flag(*b),
        Yaml::Mapping(m) => {
            proof {
                value::lemma_yaml_pairs(m@, m@.len());
            }
            export_yaml_mapping(m)
        },
        _ => yaml_new(),
    }
}

fn export_yaml_mapping(m: &Vec<(Yaml, Yaml)>) -> (r: serde_yml::Value)
    requires
        value::plain_pairs(value::mapping(m@), m@.len()),
    ensures
        yaml_value(r) == YamlTree::Mapping(value::mapping(m@)),
    decreases m,
{
    let ghost all = value::mapping(m@);
    proof {
        value::lemma_yaml_pairs(m@, m@.len());
    }
    let mut r = yaml_new();
    let mut i: usize = 0;
    assert(all.take(0) =~= Seq::<(YamlTree, YamlTree)>::empty());
    while i < m.len()
        invariant
            i <= m@.len(),
            all == value::mapping(m@),
            all.len() == m@.len(),
            forall|k: int|
                0 <= k < m@.len() ==> #[trigger] all[k] == (
                    value::yaml_tree(m@[k].0),
                    value::yaml_tree(m@[k].1),
                ),
            value::plain_pairs(all, all.len()),
            yaml_value(r) == YamlTree::Mapping(all.take(i as int)),
        decreases m@.len() - i,
    {
        proof {
            value::lemma_plain_pair(all, all.len(), i as int);
            assert(all[i as int] == (value::yaml_tree(m@[i as int].0), value::yaml_tree(m@[i as int].1)));
            let key = all[i as int].0->Text_0;
            let front = all.take(i as int);
            value::lemma_yaml_place(all, key, 0);
            assert forall|k: int| 0 <= k < front.len() implies (#[trigger] front[k]).0
                != YamlTree::Text(key) by {
                assert(front[k] == all[k]);
            }
            value::lemma_yaml_place_is(front, key, 0, front.len() as int);
            assert(all.take(i + 1) =~= front.push(all[i as int]));
        }
        assert(decreases_to!(m => m@[i as int].1));
        let value = export_yaml(&m[i].1);
        match &m[i].0 {
            Yaml::Text(key) => yaml_insert(&mut r, key.clone(), value),
            _ => {},
        }
        i = i + 1;
    }
    assert(all.take(all.len() as int) =~= all);
    r
}

/// A document of TOML with an entry for `path` in its section `git`, or why that
/// cannot be.
pub open spec fn toml_with_entry(
    doc: TomlTree,
    path: Seq<char>,
    entry: TomlTree,
) -> Result<TomlTree, bool> {
    match doc {
        TomlTree::Table(root) => {
            let git = if root.contains_key("git"@) {
                root["git"@]
            } else {
                TomlTree::Table(Map::empty())
            };
            match git {
                TomlTree::Table(g) => Ok(
                    TomlTree::Table(root.insert("git"@, TomlTree::Table(g.insert(path, entry)))),
                ),
                _ => Err(false),
            }
        },
        _ => Err(true),
    }
}

/// Puts an entry for `path` into the section `git` of a document of TOML.
pub fn put_toml_entry(doc: toml::Value, path: &str, entry: &Toml) -> (r: Result<
    toml::Value,
    DescriptorError,
>)
    requires
        value::simple(*entry),
    ensures
        match (toml_with_entry(toml_value(doc), path@, value::toml_tree(*entry)), r) {
            (Ok(t), Ok(v)) => toml_value(v) == t,
            (Err(root), Err(e)) => if root {
                e is RootNotTable
            } else {
                e is GitNotTable
            },
            _ => false,
        },
{
    let mut doc = doc;
    if !toml_is_table(&doc) {
        return Err(DescriptorError::RootNotTable);
    }
    let mut git = match toml_get(&doc, "git") {
        Some(g) => g,
        None => toml_new(),
    };
    if !toml_is_table(&git) {
        return Err(DescriptorError::GitNotTable);
    }
    toml_insert(&mut git, path.to_owned(), export_toml(entry));
    toml_insert(&mut doc, "git".to_owned(), git);
    Ok(doc)
}

/// A document of YAML with an entry for `path` in its section `git`, or why that
/// cannot be.
pub open spec fn yaml_with_entry(
    doc: YamlTree,
    path: Seq<char>,
    entry: YamlTree,
) -> Result<YamlTree, bool> {
    match doc {
        YamlTree::Mapping(root) => {
            let git = match value::yaml_lookup(root, "git"@) {
                Some(g) => g,
                None => YamlTree::Mapping(Seq::empty()),
            };
            match git {
                YamlTree::Mapping(g) => Ok(
                    YamlTree::Mapping(
                        value::yaml_put(root, "git"@, YamlTree::Mapping(value::yaml_put(g, path, entry))),
                    ),
                ),
                _ => Err(false),
            }
        },
        _ => Err(true),
    }
}

/// Puts an entry for `path` into the section `git` of a document of YAML.
pub fn put_yaml_entry(doc: serde_yml::Value, path: &str, entry: &Yaml) -> (r: Result<
    serde_yml::Value,
    DescriptorError,
>)
    requires
        value::plain(value::yaml_tree(*entry)),
    ensures
        match (yaml_with_entry(yaml_value(doc), path@, value::yaml_tree(*entry)), r) {
            (Ok(t), Ok(v)) => yaml_value(v) == t,
            (Err(root), Err(e)) => if root {
                e is RootNotMapping
            } else {
                e is GitNotMapping
            },
            _ => false,
        },
{
    let mut doc = doc;
    if !yaml_is_mapping(&doc) {
        return Err(DescriptorError::RootNotMapping);
    }
    let mut git = match yaml_get(&doc, "git") {
        Some(g) => g,
        None => yaml_new(),
    };
    if !yaml_is_mapping(&git) {
        return Err(DescriptorError::GitNotMapping);
    }
    yaml_insert(&mut git, path.to_owned(), export_yaml(entry));
    yaml_insert(&mut doc, "git".to_owned(), git);
    Ok(doc)
}

/// The document that a descriptor of TOML holds: an empty one holds an empty
/// table.
pub open spec fn toml_document(content: Seq<char>) -> Option<TomlTree> {
    if content.len() == 0 {
        Some(TomlTree::Table(Map::empty()))
    } else {
        toml_parsed(content)
    }
}

/// The text of a descriptor of TOML with an entry for `path`.
pub fn write_toml_entry(content: &str, path: &str, entry: &Toml) -> (r: Result<
    String,
    DescriptorError,
>)
    requires
        value::simple(*entry),
    ensures
        match toml_document(content@) {
            None => r matches Err(e) && e is TomlRead,
            Some(doc) => match toml_with_entry(doc, path@, value::toml_tree(*entry)) {
                Err(root) => r matches Err(e) && if root {
                    e is RootNotTable
                } else {
                    e is GitNotTable
                },
                Ok(t) => match (toml_printed(t), r) {
                    (Some(s), Ok(out)) => out@ == s,
                    (None, Err(e)) => e is TomlWrite,
                    _ => false,
                },
            },
        },
{
    let doc = if content.unicode_len() == 0 {
        toml_new()
    } else {
        match toml_parse(content) {
            Ok(v) => v,
            Err(e) => return Err(DescriptorError::TomlRead(e)),
        }
    };
    let doc = match put_toml_entry(doc, path, entry) {
        Ok(d) => d,
        Err(e) => return Err(e),
    };
    match toml_print(&doc) {
        Ok(s) => Ok(s),
        Err(e) => Err(DescriptorError::TomlWrite(e)),
    }
}

/// The document that a descriptor of YAML holds: an empty one holds an empty
/// mapping.
pub open spec fn yaml_document(content: Seq<char>) -> Option<YamlTree> {
    if content.len() == 0 {
        Some(YamlTree::Mapping(Seq::empty()))
    } else {
        yaml_parsed(content)
    }
}

/// The text of a descriptor of YAML with an entry for `path`.
pub fn write_yaml_entry(content: &str, path: &str, entry: &Yaml) -> (r: Result<
    String,
    DescriptorError,
>)
    requires
        value::plain(value::yaml_tree(*entry)),
    ensures
        match yaml_document(content@) {
            None => r matches Err(e) && e is YamlRead,
            Some(doc) => match yaml_with_entry(doc, path@, value::yaml_tree(*entry)) {
                Err(root) => r matches Err(e) && if root {
                    e is RootNotMapping
                } else {
                    e is GitNotMapping
                },
                Ok(t) => match (yaml_printed(t), r) {
                    (Some(s), Ok(out)) => out@ == s,
                    (None, Err(e)) => e is YamlWrite,
                    _ => false,
                },
            },
        },
{
    let doc = if content.unicode_len() == 0 {
        yaml_new()
    } else {
        match yaml_parse(content) {
            Ok(v) => v,
            Err(e) => return Err(DescriptorError::YamlRead(e)),
        }
    };
    let doc = match put_yaml_entry(doc, path, entry) {
        Ok(d) => d,
        Err(e) => return Err(e),
    };
    match yaml_print(&doc) {
        Ok(s) => Ok(s),
        Err(e) => Err(DescriptorError::YamlWrite(e)),
    }
}

/// An entry is put where it belongs and nothing else changes in a document of
/// TOML: every other key outside `git`, and every other entry in it, stays.
pub proof fn toml_keeps_the_rest(doc: TomlTree, path: Seq<char>, entry: TomlTree)
    requires
        toml_with_entry(doc, path, entry) is Ok,
    ensures
        ({
            let root = doc->Table_0;
            let after = toml_with_entry(doc, path, entry)->Ok_0->Table_0;
            let before = if root.contains_key("git"@) {
                root["git"@]->Table_0
            } else {
                Map::empty()
            };
            &&& after.contains_key("git"@)
            &&& after.remove("git"@) == root.remove("git"@)
            &&& after["git"@]->Table_0.contains_key(path)
            &&& after["git"@]->Table_0[path] == entry
            &&& after["git"@]->Table_0.remove(path) == before.remove(path)
        }),
{
    let root = doc->Table_0;
    let after = toml_with_entry(doc, path, entry)->Ok_0->Table_0;
    let before = if root.contains_key("git"@) {
        root["git"@]->Table_0
    } else {
        Map::empty()
    };
    assert(after.remove("git"@) =~= root.remove("git"@));
    assert(after["git"@]->Table_0.remove(path) =~= before.remove(path));
}

/// An entry is put where it belongs and nothing else changes in a document of
/// YAML: what is found for every other key outside `git`, and for every other
/// path in it, stays.
pub proof fn yaml_keeps_the_rest(
    doc: YamlTree,
    path: Seq<char>,
    entry: YamlTree,
    key: Seq<char>,
    other: Seq<char>,
)
    requires
        yaml_with_entry(doc, path, entry) is Ok,
    ensures
        ({
            let root = doc->Mapping_0;
            let after = yaml_with_entry(doc, path, entry)->Ok_0->Mapping_0;
            let before = match value::yaml_lookup(root, "git"@) {
                Some(g) => g->Mapping_0,
                None => Seq::empty(),
            };
            let git = value::yaml_lookup(after, "git"@);
            &&& key != "git"@ ==> value::yaml_lookup(after, key) == value::yaml_lookup(root, key)
            &&& git is Some && git->0 is Mapping
            &&& value::yaml_lookup(git->0->Mapping_0, path) == Some(entry)
            &&& other != path ==> value::yaml_lookup(git->0->Mapping_0, other) == value::yaml_lookup(
                before,
                other,
            )
        }),
{
    let root = doc->Mapping_0;
    let before = match value::yaml_lookup(root, "git"@) {
        Some(g) => g->Mapping_0,
        None => Seq::empty(),
    };
    value::putting_sets_one_entry(before, path, entry, other);
    value::putting_sets_one_entry(root, "git"@, YamlTree::Mapping(value::yaml_put(before, path, entry)), key);
}

/// An empty file is an empty document, and any other is what it is read as.
pub proof fn empty_files_are_empty_documents(content: Seq<char>)
    ensures
        toml_document(Seq::empty()) == Some(TomlTree::Table(Map::empty())),
        yaml_document(Seq::empty()) == Some(YamlTree::Mapping(Seq::empty())),
        content.len() > 0 ==> toml_document(content) == toml_parsed(content),
        content.len() > 0 ==> yaml_document(content) == yaml_parsed(content),
{
}

/// An entry is put into every document that is a table, where its section for
/// repositories is one or is not there; elsewhere the fault lies with the document,
/// which `true` stands for, or with the section, which `false` does.
pub proof fn entries_are_put_into_tables(
    toml: TomlTree,
    yaml: YamlTree,
    path: Seq<char>,
    a: TomlTree,
    b: YamlTree,
)
    ensures
        !(toml is Table) ==> toml_with_entry(toml, path, a) == Err::<TomlTree, bool>(true),
        toml matches TomlTree::Table(root) ==> {
            &&& root.contains_key("git"@) && !(root["git"@] is Table) ==> toml_with_entry(
                toml,
                path,
                a,
            ) == Err::<TomlTree, bool>(false)
            &&& !root.contains_key("git"@) || root["git"@] is Table ==> toml_with_entry(
                toml,
                path,
                a,
            ) is Ok
        },
        !(yaml is Mapping) ==> yaml_with_entry(yaml, path, b) == Err::<YamlTree, bool>(true),
        yaml matches YamlTree::Mapping(root) ==> match value::yaml_lookup(root, "git"@) {
            Some(git) => if git is Mapping {
                yaml_with_entry(yaml, path, b) is Ok
            } else {
                yaml_with_entry(yaml, path, b) == Err::<YamlTree, bool>(false)
            },
            None => yaml_with_entry(yaml, path, b) is Ok,
        },
{
}

} // verus!
