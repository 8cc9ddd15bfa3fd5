//! Overlays as their descriptors declare them.

use crate::actions::git::config::GitRepoConfig;
use crate::actions::install::config::InstallConfig;
use crate::text;
use crate::uses::Node;
use vstd::prelude::*;

verus! {

/// The permission bits of a file.
#[derive(Debug, Clone, Copy, PartialEq, Eq, Structural)]
pub struct FileMode {
    pub bits: u32,
}

/// The format of a descriptor.
#[derive(Debug, Clone, Copy, PartialEq, Eq, Structural)]
pub enum Format {
    Toml,
    Yaml,
}

impl Default for Format {
    fn default() -> (r: Self)
        ensures
            r == Format::Toml,
    {
        Format::Toml
    }
}

impl Format {
    /// The extension of a descriptor, which also names the format.
    pub open spec fn name(self) -> Seq<char> {
        match self {
            Format::Toml => "toml"@,
            Format::Yaml => "yaml"@,
        }
    }

    /// The extension of a descriptor, which also names the format.
    pub fn extension(&self) -> (r: String)
        ensures
            r@ == self.name(),
    {
        match self {
            Format::Toml => "toml".to_owned(),
            Format::Yaml => "yaml".to_owned(),
        }
    }
}

/// The directory that an overlay covers where nothing else is declared.
pub open spec fn default_target() -> Seq<char> {
    "~"@
}

/// How the files of an overlay come to exist where no rule says otherwise.
#[derive(Debug, PartialEq, Eq)]
pub struct Defaults {
    pub materialization: String,
}

/// How the files at some path of an overlay come to exist.
#[derive(Debug, PartialEq, Eq)]
pub struct Rule {
    pub path: String,
    pub materialization: String,
}

/// An overlay.
#[derive(Debug, PartialEq, Eq)]
pub struct Overlay {
    pub name: String,
    /// The directory that holds it.
    pub root: String,
    /// The directory that it covers, as declared.
    pub target: String,
    pub description: Option<String>,
    /// The overlays that it uses.
    pub uses: Option<Vec<String>>,
    /// The directories that it links as a unit.
    pub link_dirs: Option<Vec<String>>,
    pub defaults: Option<Defaults>,
    pub rules: Option<Vec<Rule>>,
    /// Its git repositories by path.
    pub git: Option<Vec<(String, GitRepoConfig)>>,
    /// The applications that go with it.
    pub install: Option<InstallConfig>,
}

impl Overlay {
    /// The names of the overlays that it uses.
    pub open spec fn use_names(&self) -> Seq<Seq<char>> {
        match self.uses {
            Some(u) => text::texts(u@),
            None => Seq::empty(),
        }
    }

    /// The overlay as one that can always be taken in.
    pub open spec fn node(&self) -> Node {
        Node { name: self.name@, uses: self.use_names(), placed: true, readable: true }
    }
}

/// The overlays of a repository.
pub open spec fn overlay_nodes(repo: Seq<Overlay>) -> Seq<Node> {
    repo.map_values(|o: Overlay| o.node())
}

/// An overlay uses what it declares to, in that order, and nothing where it declares
/// nothing; for its uses alone it can always be placed and read.
pub proof fn overlays_use_what_they_declare(repo: Seq<Overlay>, i: int)
    requires
        0 <= i < repo.len(),
    ensures
        overlay_nodes(repo).len() == repo.len(),
        overlay_nodes(repo)[i].name == repo[i].name@,
        repo[i].uses is Some ==> overlay_nodes(repo)[i].uses == text::texts(repo[i].uses->0@),
        repo[i].uses is None ==> overlay_nodes(repo)[i].uses.len() == 0,
        overlay_nodes(repo)[i].placed && overlay_nodes(repo)[i].readable,
{
}

/// A descriptor ends in the name of its format, and the two formats in different ones.
pub proof fn formats_are_told_apart()
    ensures
        Format::Toml.name() == "toml"@,
        Format::Yaml.name() == "yaml"@,
        Format::Toml.name() != Format::Yaml.name(),
{
    reveal_strlit("toml");
    reveal_strlit("yaml");
    assert("toml"@[0] != "yaml"@[0]);
}

} // verus!
