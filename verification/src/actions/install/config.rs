//! What an overlay declares about the applications that go with it.

use crate::text;
use vstd::prelude::*;
use vstd::std_specs::convert::{FromSpec, FromSpecImpl};

verus! {

/// A list of texts that may be missing, over text.
pub open spec fn opt_texts(v: Option<Vec<String>>) -> Option<Seq<Seq<char>>> {
    match v {
        Some(l) => Some(text::texts(l@)),
        None => None,
    }
}

/// A package manager of the system.
#[derive(Debug, Copy, Clone, Eq, PartialEq, Hash, Structural)]
pub enum SystemManager {
    Archlinux,
    Apt,
    Brew,
    Winget,
}

/// A tool that installs Python applications.
#[derive(Debug, Copy, Clone, Eq, PartialEq, Hash, Structural)]
pub enum PythonTool {
    Uv,
    Pipx,
    Pip,
}

/// Packages for apt, with scripts around their installation.
#[derive(Debug, PartialEq, Eq)]
pub struct AptConfig {
    pub packages: Vec<String>,
    pub pre: Option<Vec<String>>,
    pub post: Option<Vec<String>>,
}

/// The ways in which packages for apt are written down.
#[derive(Debug)]
pub enum AllAptForms {
    Flat(Vec<String>),
    Full { packages: Vec<String>, pre: Option<Vec<String>>, post: Option<Vec<String>> },
}

impl FromSpecImpl<AllAptForms> for AptConfig {
    open spec fn obeys_from_spec() -> bool {
        true
    }

    open spec fn from_spec(f: AllAptForms) -> Self {
        match f {
            AllAptForms::Flat(packages) => AptConfig { packages, pre: None, post: None },
            AllAptForms::Full { packages, pre, post } => AptConfig { packages, pre, post },
        }
    }
}

impl From<AllAptForms> for AptConfig {
    fn from(f: AllAptForms) -> (r: Self) {
        match f {
            AllAptForms::Flat(packages) => AptConfig { packages, pre: None, post: None },
            AllAptForms::Full { packages, pre, post } => AptConfig { packages, pre, post },
        }
    }
}

/// Packages for Arch Linux, with scripts around their installation.
#[derive(Debug, PartialEq, Eq)]
pub struct ArchlinuxConfig {
    pub packages: Vec<String>,
    pub pre: Option<Vec<String>>,
    pub post: Option<Vec<String>>,
}

/// The ways in which packages for Arch Linux are written down.
#[derive(Debug)]
pub enum AllArchlinuxForms {
    Flat(Vec<String>),
    Full { packages: Vec<String>, pre: Option<Vec<String>>, post: Option<Vec<String>> },
}

impl FromSpecImpl<AllArchlinuxForms> for ArchlinuxConfig {
    open spec fn obeys_from_spec() -> bool {
        true
    }

    open spec fn from_spec(f: AllArchlinuxForms) -> Self {
        match f {
            AllArchlinuxForms::Flat(packages) => ArchlinuxConfig { packages, pre: None, post: None },
            AllArchlinuxForms::Full { packages, pre, post } => ArchlinuxConfig { packages, pre, post },
        }
    }
}

impl From<AllArchlinuxForms> for ArchlinuxConfig {
    fn from(f: AllArchlinuxForms) -> (r: Self) {
        match f {
            AllArchlinuxForms::Flat(packages) => ArchlinuxConfig { packages, pre: None, post: None },
            AllArchlinuxForms::Full { packages, pre, post } => ArchlinuxConfig { packages, pre, post },
        }
    }
}

/// A Homebrew formula or cask.
#[derive(Debug, PartialEq, Eq)]
pub struct BrewPackage {
    pub name: String,
    pub options: Option<String>,
    pub cask: Option<bool>,
}

/// [`BrewPackage`] over text.
pub struct BrewView {
    pub name: Seq<char>,
    pub options: Option<Seq<char>>,
    pub cask: Option<bool>,
}

impl View for BrewPackage {
    type V = BrewView;

    open spec fn view(&self) -> BrewView {
        BrewView {
            name: self.name@,
            options: text::opt_text(self.options),
            cask: self.cask,
        }
    }
}

/// The ways in which a Homebrew formula or cask is written down.
#[derive(Debug)]
pub enum AllBrewPackageForms {
    Str(String),
    Full {
        name: String,
        options: Option<String>,
        cask: Option<bool>,
    },
}

impl FromSpecImpl<AllBrewPackageForms> for BrewPackage {
    open spec fn obeys_from_spec() -> bool {
        true
    }

    open spec fn from_spec(f: AllBrewPackageForms) -> Self {
        match f {
            AllBrewPackageForms::Str(name) => BrewPackage { name, options: None, cask: None },
            AllBrewPackageForms::Full { name, options, cask } => BrewPackage { name, options, cask },
        }
    }
}

impl From<AllBrewPackageForms> for BrewPackage {
    fn from(f: AllBrewPackageForms) -> (r: Self) {
        match f {
            AllBrewPackageForms::Str(name) => BrewPackage { name, options: None, cask: None },
            AllBrewPackageForms::Full { name, options, cask } => BrewPackage { name, options, cask },
        }
    }
}

/// The packages over text.
pub open spec fn brew_views(v: Seq<BrewPackage>) -> Seq<BrewView> {
    v.map_values(|p: BrewPackage| p@)
}

/// The package that a bare name stands for.
pub open spec fn brew_named(name: Seq<char>) -> BrewView {
    BrewView { name, options: None, cask: None }
}

fn brew_packages(names: Vec<String>) -> (r: Vec<BrewPackage>)
    ensures
        brew_views(r@) == text::texts(names@).map_values(|s: Seq<char>| brew_named(s)),
{
    let ghost given = names@;
    let ghost all = text::texts(given).map_values(|s: Seq<char>| brew_named(s));
    let mut r: Vec<BrewPackage> = Vec::new();
    for name in it: names
        invariant
            it.seq() == given,
            all == text::texts(given).map_values(|s: Seq<char>| brew_named(s)),
            brew_views(r@) == all.take(it.index() as int),
    {
        let ghost before = r@;
        r.push(BrewPackage { name, options: None, cask: None });
        assert(brew_views(r@) =~= brew_views(before).push(all[it.index() as int]));
        assert(brew_views(r@) =~= all.take(it.index() + 1));
    }
    assert(all.take(given.len() as int) =~= all);
    r
}

/// Homebrew packages, with scripts around their installation.
#[derive(Debug, PartialEq, Eq)]
pub struct BrewConfig {
    pub taps: Option<Vec<String>>,
    pub packages: Option<Vec<BrewPackage>>,
    pub pre: Option<Vec<String>>,
    pub post: Option<Vec<String>>,
}

/// The ways in which Homebrew packages are written down.
#[derive(Debug)]
pub enum AllBrewForms {
    Flat(Vec<String>),
    Full {
        taps: Option<Vec<String>>,
        packages: Option<Vec<BrewPackage>>,
        pre: Option<Vec<String>>,
        post: Option<Vec<String>>,
    },
}

impl FromSpecImpl<AllBrewForms> for BrewConfig {
    open spec fn obeys_from_spec() -> bool {
        false
    }

    open spec fn from_spec(f: AllBrewForms) -> Self {
        arbitrary()
    }
}

impl From<AllBrewForms> for BrewConfig {
    fn from(f: AllBrewForms) -> (r: Self)
        ensures
            match f {
                AllBrewForms::Flat(names) => {
                    &&& r.taps is None
                    &&& r.packages is Some
                    &&& brew_views(r.packages->0@) == text::texts(names@).map_values(
                        |s: Seq<char>| brew_named(s),
                    )
                    &&& r.pre is None
                    &&& r.post is None
                },
                AllBrewForms::Full { taps, packages, pre, post } => r == (BrewConfig {
                    taps, packages,
                    pre,
                    post,
                }),
            },
    {
        match f {
            AllBrewForms::Flat(names) => BrewConfig { taps: None, packages: Some(brew_packages(names)), pre: None, post: None },
            AllBrewForms::Full { taps, packages, pre, post } => BrewConfig { taps, packages, pre, post },
        }
    }
}

/// A Rust application.
#[derive(Debug, PartialEq, Eq)]
pub struct CargoPackage {
    pub name: Option<String>,
    pub version: Option<String>,
    pub git: Option<String>,
    pub tag: Option<String>,
    pub branch: Option<String>,
    pub rev: Option<String>,
    pub path: Option<String>,
    pub features: Option<Vec<String>>,
    pub locked: Option<bool>,
    pub options: Option<String>,
}

/// [`CargoPackage`] over text.
pub struct CargoView {
    pub name: Option<Seq<char>>,
    pub version: Option<Seq<char>>,
    pub git: Option<Seq<char>>,
    pub tag: Option<Seq<char>>,
    pub branch: Option<Seq<char>>,
    pub rev: Option<Seq<char>>,
    pub path: Option<Seq<char>>,
    pub features: Option<Seq<Seq<char>>>,
    pub locked: Option<bool>,
    pub options: Option<Seq<char>>,
}

impl View for CargoPackage {
    type V = CargoView;

    open spec fn view(&self) -> CargoView {
        CargoView {
            name: text::opt_text(self.name),
            version: text::opt_text(self.version),
            git: text::opt_text(self.git),
            tag: text::opt_text(self.tag),
            branch: text::opt_text(self.branch),
            rev: text::opt_text(self.rev),
            path: text::opt_text(self.path),
            features: opt_texts(self.features),
            locked: self.locked,
            options: text::opt_text(self.options),
        }
    }
}

/// The ways in which a Rust application is written down.
#[derive(Debug)]
pub enum AllCargoPackageForms {
    Str(String),
    Full {
        name: Option<String>,
        version: Option<String>,
        git: Option<String>,
        tag: Option<String>,
        branch: Option<String>,
        rev: Option<String>,
        path: Option<String>,
        features: Option<Vec<String>>,
        locked: Option<bool>,
        options: Option<String>,
    },
}

impl FromSpecImpl<AllCargoPackageForms> for CargoPackage {
    open spec fn obeys_from_spec() -> bool {
        true
    }

    open spec fn from_spec(f: AllCargoPackageForms) -> Self {
        match f {
            AllCargoPackageForms::Str(name) => CargoPackage { name: Some(name), version: None, git: None, tag: None, branch: None, rev: None, path: None, features: None, locked: None, options: None },
            AllCargoPackageForms::Full { name, version, git, tag, branch, rev, path, features, locked, options } => CargoPackage { name, version, git, tag, branch, rev, path, features, locked, options },
        }
    }
}

impl From<AllCargoPackageForms> for CargoPackage {
    fn from(f: AllCargoPackageForms) -> (r: Self) {
        match f {
            AllCargoPackageForms::Str(name) => CargoPackage { name: Some(name), version: None, git: None, tag: None, branch: None, rev: None, path: None, features: None, locked: None, options: None },
            AllCargoPackageForms::Full { name, version, git, tag, branch, rev, path, features, locked, options } => CargoPackage { name, version, git, tag, branch, rev, path, features, locked, options },
        }
    }
}

/// The packages over text.
pub open spec fn cargo_views(v: Seq<CargoPackage>) -> Seq<CargoView> {
    v.map_values(|p: CargoPackage| p@)
}

/// The package that a bare name stands for.
pub open spec fn cargo_named(name: Seq<char>) -> CargoView {
    CargoView { name: Some(name), version: None, git: None, tag: None, branch: None, rev: None, path: None, features: None, locked: None, options: None }
}

fn cargo_packages(names: Vec<String>) -> (r: Vec<CargoPackage>)
    ensures
        cargo_views(r@) == text::texts(names@).map_values(|s: Seq<char>| cargo_named(s)),
{
    let ghost given = names@;
    let ghost all = text::texts(given).map_values(|s: Seq<char>| cargo_named(s));
    let mut r: Vec<CargoPackage> = Vec::new();
    for name in it: names
        invariant
            it.seq() == given,
            all == text::texts(given).map_values(|s: Seq<char>| cargo_named(s)),
            cargo_views(r@) == all.take(it.index() as int),
    {
        let ghost before = r@;
        r.push(CargoPackage { name: Some(name), version: None, git: None, tag: None, branch: None, rev: None, path: None, features: None, locked: None, options: None });
        assert(cargo_views(r@) =~= cargo_views(before).push(all[it.index() as int]));
        assert(cargo_views(r@) =~= all.take(it.index() + 1));
    }
    assert(all.take(given.len() as int) =~= all);
    r
}

/// Rust applications, with scripts around their installation.
#[derive(Debug, PartialEq, Eq)]
pub struct CargoConfig {
    pub packages: Vec<CargoPackage>,
    pub pre: Option<Vec<String>>,
    pub post: Option<Vec<String>>,
}

/// The ways in which Rust applications are written down.
#[derive(Debug)]
pub enum AllCargoForms {
    Flat(Vec<String>),
    Full {
        packages: Vec<CargoPackage>,
        pre: Option<Vec<String>>,
        post: Option<Vec<String>>,
    },
}

impl FromSpecImpl<AllCargoForms> for CargoConfig {
    open spec fn obeys_from_spec() -> bool {
        false
    }

    open spec fn from_spec(f: AllCargoForms) -> Self {
        arbitrary()
    }
}

impl From<AllCargoForms> for CargoConfig {
    fn from(f: AllCargoForms) -> (r: Self)
        ensures
            match f {
                AllCargoForms::Flat(names) => {
                    &&& cargo_views(r.packages@) == text::texts(names@).map_values(
                        |s: Seq<char>| cargo_named(s),
                    )
                    &&& r.pre is None
                    &&& r.post is None
                },
                AllCargoForms::Full { packages, pre, post } => r == (CargoConfig {
                    packages,
                    pre,
                    post,
                }),
            },
    {
        match f {
            AllCargoForms::Flat(names) => CargoConfig { packages: cargo_packages(names), pre: None, post: None },
            AllCargoForms::Full { packages, pre, post } => CargoConfig { packages, pre, post },
        }
    }
}

/// A Python application.
#[derive(Debug, PartialEq, Eq)]
pub struct PythonPackage {
    pub name: String,
    pub tool: Option<PythonTool>,
    pub extras: Option<Vec<String>>,
    pub options: Option<String>,
}

/// [`PythonPackage`] over text.
pub struct PythonView {
    pub name: Seq<char>,
    pub tool: Option<PythonTool>,
    pub extras: Option<Seq<Seq<char>>>,
    pub options: Option<Seq<char>>,
}

impl View for PythonPackage {
    type V = PythonView;

    open spec fn view(&self) -> PythonView {
        PythonView {
            name: self.name@,
            tool: self.tool,
            extras: opt_texts(self.extras),
            options: text::opt_text(self.options),
        }
    }
}

/// The ways in which a Python application is written down.
#[derive(Debug)]
pub enum AllPythonPackageForms {
    Str(String),
    Full {
        name: String,
        tool: Option<PythonTool>,
        extras: Option<Vec<String>>,
        options: Option<String>,
    },
}

impl FromSpecImpl<AllPythonPackageForms> for PythonPackage {
    open spec fn obeys_from_spec() -> bool {
        true
    }

    open spec fn from_spec(f: AllPythonPackageForms) -> Self {
        match f {
            AllPythonPackageForms::Str(name) => PythonPackage { name, tool: None, extras: None, options: None },
            AllPythonPackageForms::Full { name, tool, extras, options } => PythonPackage { name, tool, extras, options },
        }
    }
}

impl From<AllPythonPackageForms> for PythonPackage {
    fn from(f: AllPythonPackageForms) -> (r: Self) {
        match f {
            AllPythonPackageForms::Str(name) => PythonPackage { name, tool: None, extras: None, options: None },
            AllPythonPackageForms::Full { name, tool, extras, options } => PythonPackage { name, tool, extras, options },
        }
    }
}

/// The packages over text.
pub open spec fn python_views(v: Seq<PythonPackage>) -> Seq<PythonView> {
    v.map_values(|p: PythonPackage| p@)
}

/// The package that a bare name stands for.
pub open spec fn python_named(name: Seq<char>) -> PythonView {
    PythonView { name, tool: None, extras: None, options: None }
}

fn python_packages(names: Vec<String>) -> (r: Vec<PythonPackage>)
    ensures
        python_views(r@) == text::texts(names@).map_values(|s: Seq<char>| python_named(s)),
{
    let ghost given = names@;
    let ghost all = text::texts(given).map_values(|s: Seq<char>| python_named(s));
    let mut r: Vec<PythonPackage> = Vec::new();
    for name in it: names
        invariant
            it.seq() == given,
            all == text::texts(given).map_values(|s: Seq<char>| python_named(s)),
            python_views(r@) == all.take(it.index() as int),
    {
        let ghost before = r@;
        r.push(PythonPackage { name, tool: None, extras: None, options: None });
        assert(python_views(r@) =~= python_views(before).push(all[it.index() as int]));
        assert(python_views(r@) =~= all.take(it.index() + 1));
    }
    assert(all.take(given.len() as int) =~= all);
    r
}

/// Python applications, with scripts around their installation.
#[derive(Debug, PartialEq, Eq)]
pub struct PythonConfig {
    pub packages: Vec<PythonPackage>,
    pub pre: Option<Vec<String>>,
    pub post: Option<Vec<String>>,
}

/// The ways in which Python applications are written down.
#[derive(Debug)]
pub enum AllPythonForms {
    Flat(Vec<String>),
    Full {
        packages: Vec<PythonPackage>,
        pre: Option<Vec<String>>,
        post: Option<Vec<String>>,
    },
}

impl FromSpecImpl<AllPythonForms> for PythonConfig {
    open spec fn obeys_from_spec() -> bool {
        false
    }

    open spec fn from_spec(f: AllPythonForms) -> Self {
        arbitrary()
    }
}

impl From<AllPythonForms> for PythonConfig {
    fn from(f: AllPythonForms) -> (r: Self)
        ensures
            match f {
                AllPythonForms::Flat(names) => {
                    &&& python_views(r.packages@) == text::texts(names@).map_values(
                        |s: Seq<char>| python_named(s),
                    )
                    &&& r.pre is None
                    &&& r.post is None
                },
                AllPythonForms::Full { packages, pre, post } => r == (PythonConfig {
                    packages,
                    pre,
                    post,
                }),
            },
    {
        match f {
            AllPythonForms::Flat(names) => PythonConfig { packages: python_packages(names), pre: None, post: None },
            AllPythonForms::Full { packages, pre, post } => PythonConfig { packages, pre, post },
        }
    }
}

/// A Node application.
#[derive(Debug, PartialEq, Eq)]
pub struct NodePackage {
    pub name: String,
    pub options: Option<String>,
}

/// [`NodePackage`] over text.
pub struct NodeView {
    pub name: Seq<char>,
    pub options: Option<Seq<char>>,
}

impl View for NodePackage {
    type V = NodeView;

    open spec fn view(&self) -> NodeView {
        NodeView {
            name: self.name@,
            options: text::opt_text(self.options),
        }
    }
}

/// The ways in which a Node application is written down.
#[derive(Debug)]
pub enum AllNodePackageForms {
    Str(String),
    Full {
        name: String,
        options: Option<String>,
    },
}

impl FromSpecImpl<AllNodePackageForms> for NodePackage {
    open spec fn obeys_from_spec() -> bool {
        true
    }

    open spec fn from_spec(f: AllNodePackageForms) -> Self {
        match f {
            AllNodePackageForms::Str(name) => NodePackage { name, options: None },
            AllNodePackageForms::Full { name, options } => NodePackage { name, options },
        }
    }
}

impl From<AllNodePackageForms> for NodePackage {
    fn from(f: AllNodePackageForms) -> (r: Self) {
        match f {
            AllNodePackageForms::Str(name) => NodePackage { name, options: None },
            AllNodePackageForms::Full { name, options } => NodePackage { name, options },
        }
    }
}

/// The packages over text.
pub open spec fn node_views(v: Seq<NodePackage>) -> Seq<NodeView> {
    v.map_values(|p: NodePackage| p@)
}

/// The package that a bare name stands for.
pub open spec fn node_named(name: Seq<char>) -> NodeView {
    NodeView { name, options: None }
}

fn node_packages(names: Vec<String>) -> (r: Vec<NodePackage>)
    ensures
        node_views(r@) == text::texts(names@).map_values(|s: Seq<char>| node_named(s)),
{
    let ghost given = names@;
    let ghost all = text::texts(given).map_values(|s: Seq<char>| node_named(s));
    let mut r: Vec<NodePackage> = Vec::new();
    for name in it: names
        invariant
            it.seq() == given,
            all == text::texts(given).map_values(|s: Seq<char>| node_named(s)),
            node_views(r@) == all.take(it.index() as int),
    {
        let ghost before = r@;
        r.push(NodePackage { name, options: None });
        assert(node_views(r@) =~= node_views(before).push(all[it.index() as int]));
        assert(node_views(r@) =~= all.take(it.index() + 1));
    }
    assert(all.take(given.len() as int) =~= all);
    r
}

/// Node applications, with scripts around their installation.
#[derive(Debug, PartialEq, Eq)]
pub struct NodeConfig {
    pub packages: Vec<NodePackage>,
    pub pre: Option<Vec<String>>,
    pub post: Option<Vec<String>>,
}

/// The ways in which Node applications are written down.
#[derive(Debug)]
pub enum AllNodeForms {
    Flat(Vec<String>),
    Full {
        packages: Vec<NodePackage>,
        pre: Option<Vec<String>>,
        post: Option<Vec<String>>,
    },
}

impl FromSpecImpl<AllNodeForms> for NodeConfig {
    open spec fn obeys_from_spec() -> bool {
        false
    }

    open spec fn from_spec(f: AllNodeForms) -> Self {
        arbitrary()
    }
}

impl From<AllNodeForms> for NodeConfig {
    fn from(f: AllNodeForms) -> (r: Self)
        ensures
            match f {
                AllNodeForms::Flat(names) => {
                    &&& node_views(r.packages@) == text::texts(names@).map_values(
                        |s: Seq<char>| node_named(s),
                    )
                    &&& r.pre is None
                    &&& r.post is None
                },
                AllNodeForms::Full { packages, pre, post } => r == (NodeConfig {
                    packages,
                    pre,
                    post,
                }),
            },
    {
        match f {
            AllNodeForms::Flat(names) => NodeConfig { packages: node_packages(names), pre: None, post: None },
            AllNodeForms::Full { packages, pre, post } => NodeConfig { packages, pre, post },
        }
    }
}

/// A package for winget.
#[derive(Debug, PartialEq, Eq)]
pub struct WingetPackage {
    pub name: Option<String>,
    pub id: Option<String>,
    pub options: Option<String>,
}

/// [`WingetPackage`] over text.
pub struct WingetView {
    pub name: Option<Seq<char>>,
    pub id: Option<Seq<char>>,
    pub options: Option<Seq<char>>,
}

impl View for WingetPackage {
    type V = WingetView;

    open spec fn view(&self) -> WingetView {
        WingetView {
            name: text::opt_text(self.name),
            id: text::opt_text(self.id),
            options: text::opt_text(self.options),
        }
    }
}

/// The ways in which a package for winget is written down.
#[derive(Debug)]
pub enum AllWingetPackageForms {
    Str(String),
    Full {
        name: Option<String>,
        id: Option<String>,
        options: Option<String>,
    },
}

impl FromSpecImpl<AllWingetPackageForms> for WingetPackage {
    open spec fn obeys_from_spec() -> bool {
        true
    }

    open spec fn from_spec(f: AllWingetPackageForms) -> Self {
        match f {
            AllWingetPackageForms::Str(name) => WingetPackage { name: Some(name), id: None, options: None },
            AllWingetPackageForms::Full { name, id, options } => WingetPackage { name, id, options },
        }
    }
}

impl From<AllWingetPackageForms> for WingetPackage {
    fn from(f: AllWingetPackageForms) -> (r: Self) {
        match f {
            AllWingetPackageForms::Str(name) => WingetPackage { name: Some(name), id: None, options: None },
            AllWingetPackageForms::Full { name, id, options } => WingetPackage { name, id, options },
        }
    }
}

/// The packages over text.
pub open spec fn winget_views(v: Seq<WingetPackage>) -> Seq<WingetView> {
    v.map_values(|p: WingetPackage| p@)
}

/// The package that a bare name stands for.
pub open spec fn winget_named(name: Seq<char>) -> WingetView {
    WingetView { name: Some(name), id: None, options: None }
}

fn winget_packages(names: Vec<String>) -> (r: Vec<WingetPackage>)
    ensures
        winget_views(r@) == text::texts(names@).map_values(|s: Seq<char>| winget_named(s)),
{
    let ghost given = names@;
    let ghost all = text::texts(given).map_values(|s: Seq<char>| winget_named(s));
    let mut r: Vec<WingetPackage> = Vec::new();
    for name in it: names
        invariant
            it.seq() == given,
            all == text::texts(given).map_values(|s: Seq<char>| winget_named(s)),
            winget_views(r@) == all.take(it.index() as int),
    {
        let ghost before = r@;
        r.push(WingetPackage { name: Some(name), id: None, options: None });
        assert(winget_views(r@) =~= winget_views(before).push(all[it.index() as int]));
        assert(winget_views(r@) =~= all.take(it.index() + 1));
    }
    assert(all.take(given.len() as int) =~= all);
    r
}

/// Packages for winget, with scripts around their installation.
#[derive(Debug, PartialEq, Eq)]
pub struct WingetConfig {
    pub packages: Vec<WingetPackage>,
    pub pre: Option<Vec<String>>,
    pub post: Option<Vec<String>>,
}

/// The ways in which packages for winget are written down.
#[derive(Debug)]
pub enum AllWingetForms {
    Flat(Vec<String>),
    Full {
        packages: Vec<WingetPackage>,
        pre: Option<Vec<String>>,
        post: Option<Vec<String>>,
    },
}

impl FromSpecImpl<AllWingetForms> for WingetConfig {
    open spec fn obeys_from_spec() -> bool {
        false
    }

    open spec fn from_spec(f: AllWingetForms) -> Self {
        arbitrary()
    }
}

impl From<AllWingetForms> for WingetConfig {
    fn from(f: AllWingetForms) -> (r: Self)
        ensures
            match f {
                AllWingetForms::Flat(names) => {
                    &&& winget_views(r.packages@) == text::texts(names@).map_values(
                        |s: Seq<char>| winget_named(s),
                    )
                    &&& r.pre is None
                    &&& r.post is None
                },
                AllWingetForms::Full { packages, pre, post } => r == (WingetConfig {
                    packages,
                    pre,
                    post,
                }),
            },
    {
        match f {
            AllWingetForms::Flat(names) => WingetConfig { packages: winget_packages(names), pre: None, post: None },
            AllWingetForms::Full { packages, pre, post } => WingetConfig { packages, pre, post },
        }
    }
}

/// What is installed on one platform.
#[derive(Debug, PartialEq, Eq)]
pub struct PlatformInstallConfig {
    pub pre: Option<Vec<String>>,
    pub apt: Option<AptConfig>,
    pub archlinux: Option<ArchlinuxConfig>,
    pub brew: Option<BrewConfig>,
    pub cargo: Option<CargoConfig>,
    pub python: Option<PythonConfig>,
    pub node: Option<NodeConfig>,
    pub winget: Option<WingetConfig>,
    pub post: Option<Vec<String>>,
}

/// What is installed, and what is different on some platforms.
#[derive(Debug, PartialEq, Eq)]
pub struct InstallConfig {
    pub pre: Option<Vec<String>>,
    pub apt: Option<AptConfig>,
    pub archlinux: Option<ArchlinuxConfig>,
    pub brew: Option<BrewConfig>,
    pub cargo: Option<CargoConfig>,
    pub python: Option<PythonConfig>,
    pub node: Option<NodeConfig>,
    pub winget: Option<WingetConfig>,
    pub post: Option<Vec<String>>,
    pub platforms: Vec<(String, PlatformInstallConfig)>,
}

/// The ways in which a list of scripts is written down.
#[derive(Debug)]
pub enum StringOrVec {
    List(Vec<String>),
    Str(String),
}

/// The list that one text or a list of texts stands for.
pub fn option_string_or_vec(form: Option<StringOrVec>) -> (r: Option<Vec<String>>)
    ensures
        match form {
            None => r is None,
            Some(StringOrVec::List(v)) => r == Some(v),
            Some(StringOrVec::Str(s)) => opt_texts(r) == Some(seq![s@]),
        },
{
    match form {
        None => None,
        Some(StringOrVec::List(v)) => Some(v),
        Some(StringOrVec::Str(s)) => {
            let mut v: Vec<String> = Vec::new();
            v.push(s);
            assert(text::texts(v@) =~= seq![s@]);
            Some(v)
        },
    }
}

/// A flat list declares packages by name and nothing else; the full form declares
/// what it says.
pub proof fn flat_lists_only_name_packages(
    names: Vec<String>,
    name: String,
    pre: Option<Vec<String>>,
    post: Option<Vec<String>>,
)
    ensures
        ({
            let flat = <AptConfig as FromSpec<AllAptForms>>::from_spec(AllAptForms::Flat(names));
            let full = <AptConfig as FromSpec<AllAptForms>>::from_spec(
                AllAptForms::Full { packages: names, pre, post },
            );
            &&& flat.packages == names && flat.pre is None && flat.post is None
            &&& full.packages == names && full.pre == pre && full.post == post
        }),
        ({
            let flat = <ArchlinuxConfig as FromSpec<AllArchlinuxForms>>::from_spec(
                AllArchlinuxForms::Flat(names),
            );
            let full = <ArchlinuxConfig as FromSpec<AllArchlinuxForms>>::from_spec(
                AllArchlinuxForms::Full { packages: names, pre, post },
            );
            &&& flat.packages == names && flat.pre is None && flat.post is None
            &&& full.packages == names && full.pre == pre && full.post == post
        }),
        ({
            let b = <BrewPackage as FromSpec<AllBrewPackageForms>>::from_spec(
                AllBrewPackageForms::Str(name),
            );
            b.name == name && b.options is None && b.cask is None
        }),
        ({
            let c = <CargoPackage as FromSpec<AllCargoPackageForms>>::from_spec(
                AllCargoPackageForms::Str(name),
            );
            c.name == Some(name) && c.version is None && c.git is None && c.tag is None && c.branch
                is None && c.rev is None && c.path is None && c.features is None && c.locked is None
                && c.options is None
        }),
        ({
            let p = <PythonPackage as FromSpec<AllPythonPackageForms>>::from_spec(
                AllPythonPackageForms::Str(name),
            );
            p.name == name && p.tool is None && p.extras is None && p.options is None
        }),
        ({
            let n = <NodePackage as FromSpec<AllNodePackageForms>>::from_spec(
                AllNodePackageForms::Str(name),
            );
            n.name == name && n.options is None
        }),
        ({
            let w = <WingetPackage as FromSpec<AllWingetPackageForms>>::from_spec(
                AllWingetPackageForms::Str(name),
            );
            w.name == Some(name) && w.id is None && w.options is None
        }),
        brew_named(name@).name == name@ && brew_named(name@).options is None && brew_named(
            name@,
        ).cask is None,
        cargo_named(name@).name == Some(name@) && cargo_named(name@).git is None && cargo_named(
            name@,
        ).path is None && cargo_named(name@).version is None && cargo_named(name@).tag is None
            && cargo_named(name@).branch is None && cargo_named(name@).rev is None && cargo_named(
            name@,
        ).features is None
            && cargo_named(name@).locked is None && cargo_named(name@).options is None,
        python_named(name@).name == name@ && python_named(name@).tool is None && python_named(
            name@,
        ).extras is None && python_named(name@).options is None,
        node_named(name@).name == name@ && node_named(name@).options is None,
        winget_named(name@).name == Some(name@) && winget_named(name@).id is None && winget_named(
            name@,
        ).options is None,
{
}

/// The full form of a package keeps everything that it says.
pub proof fn full_packages_keep_everything(
    b: BrewPackage,
    c: CargoPackage,
    p: PythonPackage,
    n: NodePackage,
    w: WingetPackage,
)
    ensures
        <BrewPackage as FromSpec<AllBrewPackageForms>>::from_spec(
            AllBrewPackageForms::Full { name: b.name, options: b.options, cask: b.cask },
        ) == b,
        <CargoPackage as FromSpec<AllCargoPackageForms>>::from_spec(
            AllCargoPackageForms::Full {
                name: c.name,
                version: c.version,
                git: c.git,
                tag: c.tag,
                branch: c.branch,
                rev: c.rev,
                path: c.path,
                features: c.features,
                locked: c.locked,
                options: c.options,
            },
        ) == c,
        <PythonPackage as FromSpec<AllPythonPackageForms>>::from_spec(
            AllPythonPackageForms::Full {
                name: p.name,
                tool: p.tool,
                extras: p.extras,
                options: p.options,
            },
        ) == p,
        <NodePackage as FromSpec<AllNodePackageForms>>::from_spec(
            AllNodePackageForms::Full { name: n.name, options: n.options },
        ) == n,
        <WingetPackage as FromSpec<AllWingetPackageForms>>::from_spec(
            AllWingetPackageForms::Full { name: w.name, id: w.id, options: w.options },
        ) == w,
{
}

} // verus!
