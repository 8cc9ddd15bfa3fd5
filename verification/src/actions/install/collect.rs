//! Which packages an overlay and everything that it uses ask for.

use crate::actions::install::config::{
    BrewPackage, CargoPackage, InstallConfig, NodePackage, PlatformInstallConfig, PythonPackage,
    WingetPackage,
};
use crate::actions::install::package;
use crate::actions::install::package::{put_packages, Field, Package};
use crate::overlays;
use crate::overlays::Overlay;
use crate::table;
use crate::table::place_of;
use crate::text;
use crate::text::same;
use crate::uses;
use crate::uses::Node;
use vstd::prelude::*;

verus! {

/// An operating system.
#[derive(Debug, Clone, Copy, PartialEq, Eq, Structural)]
pub enum Os {
    Linux,
    Macos,
    Windows,
    Other,
}

/// What a run is on.
#[derive(Debug, PartialEq, Eq)]
pub struct Platform {
    pub os: Os,
    /// The Linux distribution, where it is known.
    pub distro: Option<String>,
}

/// What is declared for the platform `key`.
pub open spec fn declared_for(install: InstallConfig, key: Seq<char>) -> Option<
    PlatformInstallConfig,
> {
    table::lookup(table::named(install.platforms@), key)
}

/// What is declared for the platform `key`.
pub fn platform_config<'a>(install: &'a InstallConfig, key: &str) -> (r: Option<
    &'a PlatformInstallConfig,
>)
    ensures
        match r {
            Some(p) => declared_for(*install, key@) == Some(*p),
            None => declared_for(*install, key@) is None,
        },
{
    let i: usize = place_of(&install.platforms, key);
    if i < install.platforms.len() {
        assert(table::named(install.platforms@)[i as int].1 == install.platforms@[i as int].1);
        Some(&install.platforms[i].1)
    } else {
        None
    }
}

/// What is declared for the platform of a run.
pub open spec fn override_of(install: InstallConfig, platform: Platform) -> Option<
    PlatformInstallConfig,
> {
    match platform.os {
        Os::Macos => declared_for(install, "macos"@),
        Os::Linux => match platform.distro {
            Some(d) => declared_for(install, d@),
            None => None,
        },
        Os::Windows => declared_for(install, "windows"@),
        Os::Other => None,
    }
}

/// What is declared for the platform of a run.
pub fn resolve_platform_override<'a>(install: &'a InstallConfig, platform: &Platform) -> (r: Option<
    &'a PlatformInstallConfig,
>)
    ensures
        match r {
            Some(p) => override_of(*install, *platform) == Some(*p),
            None => override_of(*install, *platform) is None,
        },
{
    match platform.os {
        Os::Macos => platform_config(install, "macos"),
        Os::Linux => match &platform.distro {
            Some(d) => platform_config(install, d.as_str()),
            None => None,
        },
        Os::Windows => platform_config(install, "windows"),
        Os::Other => None,
    }
}

/// What is declared for Arch Linux: under `arch`, else under `archlinux`, else
/// under the name of the distribution.
pub open spec fn arch_override_of(install: InstallConfig, platform: Platform) -> Option<
    PlatformInstallConfig,
> {
    if platform.os is Linux && platform.distro is Some {
        if declared_for(install, "arch"@) is Some {
            declared_for(install, "arch"@)
        } else if declared_for(install, "archlinux"@) is Some {
            declared_for(install, "archlinux"@)
        } else {
            declared_for(install, platform.distro->0@)
        }
    } else {
        None
    }
}

fn resolve_arch_override<'a>(install: &'a InstallConfig, platform: &Platform) -> (r: Option<
    &'a PlatformInstallConfig,
>)
    ensures
        match r {
            Some(p) => arch_override_of(*install, *platform) == Some(*p),
            None => arch_override_of(*install, *platform) is None,
        },
{
    match (platform.os, &platform.distro) {
        (Os::Linux, Some(distro)) => {
            if let Some(p) = platform_config(install, "arch") {
                Some(p)
            } else if let Some(p) = platform_config(install, "archlinux") {
                Some(p)
            } else {
                platform_config(install, distro.as_str())
            }
        },
        _ => None,
    }
}

/// The first of two that is there.
pub open spec fn first_of<T>(a: Option<T>, b: Option<T>) -> Option<T> {
    match a {
        Some(x) => Some(x),
        None => b,
    }
}

/// A package manager: which packages an overlay declares for it.
pub trait Manager {
    type P: Package;

    /// The packages that are declared for it.
    spec fn items(install: InstallConfig, platform: Platform) -> Seq<<Self::P as View>::V>;

    /// The packages that are declared for it.
    fn source<'a>(install: &'a InstallConfig, platform: &Platform) -> (r: Option<&'a Vec<Self::P>>)
        ensures
            match r {
                Some(v) => package::views(v@) == Self::items(*install, *platform),
                None => Self::items(*install, *platform) == Seq::<<Self::P as View>::V>::empty(),
            },
    ;
}

/// The packages over text, none where they are missing.
pub open spec fn listed<P: Package>(v: Option<Vec<P>>) -> Seq<P::V> {
    match v {
        Some(l) => package::views(l@),
        None => Seq::empty(),
    }
}

/// Packages of Arch Linux.
pub struct ArchlinuxManager;

impl Manager for ArchlinuxManager {
    type P = String;

    open spec fn items(install: InstallConfig, platform: Platform) -> Seq<
        <String as View>::V,
    > {
        match first_of(
            match arch_override_of(install, platform) {
                Some(p) => p.archlinux,
                None => None,
            },
            install.archlinux,
        ) {
            Some(c) => package::views(c.packages@),
            None => Seq::empty(),
        }
    }

    fn source<'a>(install: &'a InstallConfig, platform: &Platform) -> (r: Option<
        &'a Vec<String>,
    >) {
        let own = match resolve_arch_override(install, platform) {
            Some(p) => p.archlinux.as_ref(),
            None => None,
        };
        let source = match own {
            Some(c) => Some(c),
            None => install.archlinux.as_ref(),
        };
        match source {
            Some(c) => Some(&c.packages),
            None => None,
        }
    }
}

/// Packages of apt.
pub struct AptManager;

impl Manager for AptManager {
    type P = String;

    open spec fn items(install: InstallConfig, platform: Platform) -> Seq<
        <String as View>::V,
    > {
        match first_of(
            match override_of(install, platform) {
                Some(p) => p.apt,
                None => None,
            },
            install.apt,
        ) {
            Some(c) => package::views(c.packages@),
            None => Seq::empty(),
        }
    }

    fn source<'a>(install: &'a InstallConfig, platform: &Platform) -> (r: Option<
        &'a Vec<String>,
    >) {
        let own = match resolve_platform_override(install, platform) {
            Some(p) => p.apt.as_ref(),
            None => None,
        };
        let source = match own {
            Some(c) => Some(c),
            None => install.apt.as_ref(),
        };
        match source {
            Some(c) => Some(&c.packages),
            None => None,
        }
    }
}

/// Taps of Homebrew.
pub struct BrewTapManager;

impl Manager for BrewTapManager {
    type P = String;

    open spec fn items(install: InstallConfig, platform: Platform) -> Seq<
        <String as View>::V,
    > {
        match first_of(
            match override_of(install, platform) {
                Some(p) => p.brew,
                None => None,
            },
            install.brew,
        ) {
            Some(c) => listed(c.taps),
            None => Seq::empty(),
        }
    }

    fn source<'a>(install: &'a InstallConfig, platform: &Platform) -> (r: Option<
        &'a Vec<String>,
    >) {
        let own = match resolve_platform_override(install, platform) {
            Some(p) => p.brew.as_ref(),
            None => None,
        };
        let source = match own {
            Some(c) => Some(c),
            None => install.brew.as_ref(),
        };
        match source {
            Some(c) => c.taps.as_ref(),
            None => None,
        }
    }
}

/// Packages of Homebrew.
pub struct BrewManager;

impl Manager for BrewManager {
    type P = BrewPackage;

    open spec fn items(install: InstallConfig, platform: Platform) -> Seq<
        <BrewPackage as View>::V,
    > {
        match first_of(
            match override_of(install, platform) {
                Some(p) => p.brew,
                None => None,
            },
            install.brew,
        ) {
            Some(c) => listed(c.packages),
            None => Seq::empty(),
        }
    }

    fn source<'a>(install: &'a InstallConfig, platform: &Platform) -> (r: Option<
        &'a Vec<BrewPackage>,
    >) {
        let own = match resolve_platform_override(install, platform) {
            Some(p) => p.brew.as_ref(),
            None => None,
        };
        let source = match own {
            Some(c) => Some(c),
            None => install.brew.as_ref(),
        };
        match source {
            Some(c) => c.packages.as_ref(),
            None => None,
        }
    }
}

/// Packages of winget.
pub struct WingetManager;

impl Manager for WingetManager {
    type P = WingetPackage;

    open spec fn items(install: InstallConfig, platform: Platform) -> Seq<
        <WingetPackage as View>::V,
    > {
        match first_of(
            match override_of(install, platform) {
                Some(p) => p.winget,
                None => None,
            },
            install.winget,
        ) {
            Some(c) => package::views(c.packages@),
            None => Seq::empty(),
        }
    }

    fn source<'a>(install: &'a InstallConfig, platform: &Platform) -> (r: Option<
        &'a Vec<WingetPackage>,
    >) {
        let own = match resolve_platform_override(install, platform) {
            Some(p) => p.winget.as_ref(),
            None => None,
        };
        let source = match own {
            Some(c) => Some(c),
            None => install.winget.as_ref(),
        };
        match source {
            Some(c) => Some(&c.packages),
            None => None,
        }
    }
}

/// Rust applications.
pub struct CargoManager;

impl Manager for CargoManager {
    type P = CargoPackage;

    open spec fn items(install: InstallConfig, platform: Platform) -> Seq<
        <CargoPackage as View>::V,
    > {
        match first_of(
            match override_of(install, platform) {
                Some(p) => p.cargo,
                None => None,
            },
            install.cargo,
        ) {
            Some(c) => package::views(c.packages@),
            None => Seq::empty(),
        }
    }

    fn source<'a>(install: &'a InstallConfig, platform: &Platform) -> (r: Option<
        &'a Vec<CargoPackage>,
    >) {
        let own = match resolve_platform_override(install, platform) {
            Some(p) => p.cargo.as_ref(),
            None => None,
        };
        let source = match own {
            Some(c) => Some(c),
            None => install.cargo.as_ref(),
        };
        match source {
            Some(c) => Some(&c.packages),
            None => None,
        }
    }
}

/// Python applications.
pub struct PythonManager;

impl Manager for PythonManager {
    type P = PythonPackage;

    open spec fn items(install: InstallConfig, platform: Platform) -> Seq<
        <PythonPackage as View>::V,
    > {
        match first_of(
            match override_of(install, platform) {
                Some(p) => p.python,
                None => None,
            },
            install.python,
        ) {
            Some(c) => package::views(c.packages@),
            None => Seq::empty(),
        }
    }

    fn source<'a>(install: &'a InstallConfig, platform: &Platform) -> (r: Option<
        &'a Vec<PythonPackage>,
    >) {
        let own = match resolve_platform_override(install, platform) {
            Some(p) => p.python.as_ref(),
            None => None,
        };
        let source = match own {
            Some(c) => Some(c),
            None => install.python.as_ref(),
        };
        match source {
            Some(c) => Some(&c.packages),
            None => None,
        }
    }
}

/// Node applications.
pub struct NodeManager;

impl Manager for NodeManager {
    type P = NodePackage;

    open spec fn items(install: InstallConfig, platform: Platform) -> Seq<
        <NodePackage as View>::V,
    > {
        match first_of(
            match override_of(install, platform) {
                Some(p) => p.node,
                None => None,
            },
            install.node,
        ) {
            Some(c) => package::views(c.packages@),
            None => Seq::empty(),
        }
    }

    fn source<'a>(install: &'a InstallConfig, platform: &Platform) -> (r: Option<
        &'a Vec<NodePackage>,
    >) {
        let own = match resolve_platform_override(install, platform) {
            Some(p) => p.node.as_ref(),
            None => None,
        };
        let source = match own {
            Some(c) => Some(c),
            None => install.node.as_ref(),
        };
        match source {
            Some(c) => Some(&c.packages),
            None => None,
        }
    }
}

/// What the first `n` overlays of `order` declare for a package manager, as an
/// ordered set.
pub open spec fn packages_of<M: Manager>(
    repo: Seq<Overlay>,
    platform: Platform,
    order: Seq<int>,
    n: nat,
) -> Seq<<M::P as View>::V>
    decreases n,
{
    if n == 0 {
        Seq::empty()
    } else {
        let before = packages_of::<M>(repo, platform, order, (n - 1) as nat);
        match repo[order[n - 1]].install {
            Some(install) => package::set_put_all::<M::P>(before, M::items(install, platform)),
            None => before,
        }
    }
}

/// Positions as integers.
pub open spec fn ints(v: Seq<usize>) -> Seq<int> {
    v.map_values(|i: usize| i as int)
}

fn find_overlay(repo: &Vec<Overlay>, name: &str) -> (r: Option<usize>)
    ensures
        match r {
            Some(i) => uses::find(overlays::overlay_nodes(repo@), name@, 0) == Some(i as int) && i < repo@.len(),
            None => uses::find(overlays::overlay_nodes(repo@), name@, 0) is None,
        },
{
    let mut i: usize = 0;
    while i < repo.len()
        invariant
            i <= repo@.len(),
            uses::find(overlays::overlay_nodes(repo@), name@, 0) == uses::find(overlays::overlay_nodes(repo@), name@, i as int),
        decreases repo@.len() - i,
    {
        assert(overlays::overlay_nodes(repo@)[i as int].name == repo@[i as int].name@);
        if same(repo[i].name.as_str(), name) {
            return Some(i);
        }
        i = i + 1;
    }
    None
}

fn in_list(repo: &Vec<Overlay>, list: &Vec<usize>, name: &str) -> (r: bool)
    requires
        forall|k: int| 0 <= k < list@.len() ==> (#[trigger] list@[k]) < repo@.len(),
    ensures
        r == uses::lists(overlays::overlay_nodes(repo@), ints(list@), name@),
{
    let mut k: usize = 0;
    while k < list.len()
        invariant
            k <= list@.len(),
            forall|k: int| 0 <= k < list@.len() ==> (#[trigger] list@[k]) < repo@.len(),
            forall|m: int|
                0 <= m < k ==> overlays::overlay_nodes(repo@)[#[trigger] ints(list@)[m]].name != name@,
        decreases list@.len() - k,
    {
        assert(list@[k as int] < repo@.len());
        assert(ints(list@)[k as int] == list@[k as int] as int);
        assert(overlays::overlay_nodes(repo@)[ints(list@)[k as int]].name
            == repo@[list@[k as int] as int].name@);
        if same(repo[list[k]].name.as_str(), name) {
            return true;
        }
        k = k + 1;
    }
    false
}

/// Collects the overlay `i` and everything that it uses; gives the first name on
/// the way that no overlay has.
fn gather_overlays(repo: &Vec<Overlay>, i: usize, seen: &mut Vec<usize>, Ghost(depth): Ghost<nat>) -> (r:
    Option<String>)
    requires
        i < repo@.len(),
        uses::proper(overlays::overlay_nodes(repo@), ints(old(seen)@)),
        depth >= repo@.len() - old(seen)@.len(),
    ensures
        ({
            let g = uses::gather(overlays::overlay_nodes(repo@), i as int, ints(old(seen)@), depth);
            match r {
                None => g == (ints(final(seen)@), None::<Seq<char>>),
                Some(name) => g.1 == Some(name@),
            }
        }),
        uses::proper(overlays::overlay_nodes(repo@), ints(final(seen)@)),
        old(seen)@.len() <= final(seen)@.len(),
    decreases repo@.len() - old(seen)@.len(),
{
    let ghost ns = overlays::overlay_nodes(repo@);
    let ghost start = ints(seen@);
    assert(ns[i as int] == repo@[i as int].node());
    proof {
        uses::lemma_proper_len(ns, start);
        assert forall|k: int| 0 <= k < seen@.len() implies (#[trigger] seen@[k])
            < repo@.len() by {
            assert(start[k] == seen@[k] as int);
        }
    }
    if in_list(repo, seen, repo[i].name.as_str()) {
        return None;
    }
    proof {
        uses::lemma_push_proper(ns, start, i as int);
        uses::lemma_proper_len(ns, start.push(i as int));
    }
    seen.push(i);
    assert(ints(seen@) =~= start.push(i as int));
    let ghost names = ns[i as int].uses;
    let ghost below = (depth - 1) as nat;
    if let Some(uses) = &repo[i].uses {
        assert(names == text::texts(uses@));
        let mut k: usize = 0;
        while k < uses.len()
            invariant
                ns == overlays::overlay_nodes(repo@),
                k <= uses@.len(),
                names == text::texts(uses@),
                uses::proper(ns, ints(seen@)),
                start.len() < seen@.len() <= repo@.len(),
                start.len() == old(seen)@.len(),
                below >= repo@.len() - seen@.len(),
                uses::gather_all(ns, names, k as nat, start.push(i as int), below) == (
                    ints(seen@),
                    None::<Seq<char>>,
                ),
                start == ints(old(seen)@),
                depth == below + 1,
                !uses::lists(ns, start, ns[i as int].name),
                i < repo@.len(),
                names == ns[i as int].uses,
            decreases uses@.len() - k,
        {
            assert(names[k as int] == uses@[k as int]@);
            match find_overlay(repo, uses[k].as_str()) {
                None => {
                    proof {
                        lemma_gather_all_fails(
                            ns,
                            names,
                            (k + 1) as nat,
                            names.len(),
                            start.push(i as int),
                            below,
                        );
                    }
                    return Some(uses[k].clone());
                },
                Some(j) => {
                    let ghost before = seen@;
                    let missing = gather_overlays(repo, j, seen, Ghost(below));
                    proof {
                        uses::lemma_proper_len(ns, ints(seen@));
                    }
                    if let Some(name) = missing {
                        proof {
                            lemma_gather_all_fails(
                                ns,
                                names,
                                (k + 1) as nat,
                                names.len(),
                                start.push(i as int),
                                below,
                            );
                        }
                        return Some(name);
                    }
                },
            }
            k = k + 1;
        }
    }
    None
}

proof fn lemma_gather_all_fails(
    nodes: Seq<Node>,
    names: Seq<Seq<char>>,
    a: nat,
    b: nat,
    seen: Seq<int>,
    depth: nat,
)
    requires
        a <= b,
        uses::gather_all(nodes, names, a, seen, depth).1 is Some,
    ensures
        uses::gather_all(nodes, names, b, seen, depth) == uses::gather_all(nodes, names, a, seen, depth),
    decreases b - a,
{
    if a < b {
        lemma_gather_all_fails(nodes, names, a, (b - 1) as nat, seen, depth);
    }
}

/// The packages that the overlay `i` and everything that it uses declare for a
/// package manager, as an ordered set; or the first name on the way that no
/// overlay has.
pub fn collect_packages<M: Manager>(repo: &Vec<Overlay>, i: usize, platform: &Platform) -> (r:
    Result<Vec<M::P>, String>)
    requires
        i < repo@.len(),
    ensures
        ({
            let g = uses::gathered(overlays::overlay_nodes(repo@), i as int);
            match r {
                Ok(p) => g.1 is None && package::views(p@) == packages_of::<M>(
                    repo@,
                    *platform,
                    g.0,
                    g.0.len(),
                ),
                Err(name) => g.1 == Some(name@),
            }
        }),
{
    let mut order: Vec<usize> = Vec::new();
    assert(ints(order@) =~= Seq::<int>::empty());
    if let Some(name) = gather_overlays(repo, i, &mut order, Ghost(repo@.len())) {
        return Err(name);
    }
    let ghost o = ints(order@);
    let mut set: Vec<M::P> = Vec::new();
    let mut k: usize = 0;
    assert(package::views(set@) =~= Seq::<<M::P as View>::V>::empty());
    while k < order.len()
        invariant
            k <= order@.len(),
            o == ints(order@),
            uses::proper(overlays::overlay_nodes(repo@), o),
            package::views(set@) == packages_of::<M>(repo@, *platform, o, k as nat),
        decreases order@.len() - k,
    {
        assert(o[k as int] == order@[k as int] as int);
        let ghost before = package::views(set@);
        if let Some(install) = &repo[order[k]].install {
            match M::source(install, platform) {
                Some(items) => {
                    put_packages(&mut set, items);
                },
                None => {},
            }
        }
        k = k + 1;
    }
    Ok(set)
}

/// The section for a platform is that of macOS or Windows, or on Linux that of the
/// distribution; for Arch Linux its packages are looked for under `arch`, then
/// under `archlinux`, and only then under the name of the distribution.
pub proof fn platforms_have_their_sections(install: InstallConfig, platform: Platform)
    ensures
        ({
            let sections = table::named(install.platforms@);
            let own = override_of(install, platform);
            let arch = arch_override_of(install, platform);
            &&& platform.os is Macos ==> own == table::lookup(sections, "macos"@) && arch is None
            &&& platform.os is Windows ==> own == table::lookup(sections, "windows"@)
                && arch is None
            &&& platform.os is Other ==> own is None && arch is None
            &&& platform.os is Linux && platform.distro is None ==> own is None && arch is None
            &&& platform.os is Linux && platform.distro is Some ==> {
                &&& own == table::lookup(sections, platform.distro->0@)
                &&& table::lookup(sections, "arch"@) is Some ==> arch == table::lookup(
                    sections,
                    "arch"@,
                )
                &&& table::lookup(sections, "arch"@) is None && table::lookup(
                    sections,
                    "archlinux"@,
                ) is Some ==> arch == table::lookup(sections, "archlinux"@)
                &&& table::lookup(sections, "arch"@) is None && table::lookup(
                    sections,
                    "archlinux"@,
                ) is None ==> arch == own
            }
        }),
{
}

/// What a manager installs is what the section for the platform declares for it,
/// where it declares something, and else what is declared for all platforms.
pub proof fn sections_stand_in_for_what_is_declared_for_all(
    install: InstallConfig,
    platform: Platform,
)
    ensures
        ({
            let own = override_of(install, platform);
            let arch = arch_override_of(install, platform);
            &&& arch matches Some(p) ==> (p.archlinux is Some
                ==> ArchlinuxManager::items(install, platform)
                == package::views(p.archlinux->0.packages@))
            &&& (arch is None || arch->0.archlinux is None) && install.archlinux is Some
                ==> ArchlinuxManager::items(install, platform)
                == package::views(install.archlinux->0.packages@)
            &&& (arch is None || arch->0.archlinux is None) && install.archlinux is None
                ==> ArchlinuxManager::items(install, platform).len() == 0
            &&& own matches Some(p) ==> (p.apt is Some
                ==> AptManager::items(install, platform) == package::views(p.apt->0.packages@))
            &&& (own is None || own->0.apt is None) && install.apt is Some
                ==> AptManager::items(install, platform) == package::views(install.apt->0.packages@)
            &&& (own is None || own->0.apt is None) && install.apt is None
                ==> AptManager::items(install, platform).len() == 0
            &&& own matches Some(p) ==> (p.brew matches Some(b) ==> (b.taps is Some
                ==> BrewTapManager::items(install, platform) == package::views(b.taps->0@)))
            &&& own matches Some(p) ==> (p.brew matches Some(b) ==> (b.taps is None
                ==> BrewTapManager::items(install, platform).len() == 0))
            &&& (own is None || own->0.brew is None) ==> (install.brew matches Some(b)
                ==> (b.taps is Some
                ==> BrewTapManager::items(install, platform) == package::views(b.taps->0@)))
            &&& (own is None || own->0.brew is None) && (install.brew is None || install.brew->0.taps is None)
                ==> BrewTapManager::items(install, platform).len() == 0
            &&& own matches Some(p) ==> (p.brew matches Some(b) ==> (b.packages is Some
                ==> BrewManager::items(install, platform) == package::views(b.packages->0@)))
            &&& own matches Some(p) ==> (p.brew matches Some(b) ==> (b.packages is None
                ==> BrewManager::items(install, platform).len() == 0))
            &&& (own is None || own->0.brew is None) ==> (install.brew matches Some(b)
                ==> (b.packages is Some
                ==> BrewManager::items(install, platform) == package::views(b.packages->0@)))
            &&& (own is None || own->0.brew is None) && (install.brew is None || install.brew->0.packages is None)
                ==> BrewManager::items(install, platform).len() == 0
            &&& own matches Some(p) ==> (p.winget is Some
                ==> WingetManager::items(install, platform)
                == package::views(p.winget->0.packages@))
            &&& (own is None || own->0.winget is None) && install.winget is Some
                ==> WingetManager::items(install, platform)
                == package::views(install.winget->0.packages@)
            &&& (own is None || own->0.winget is None) && install.winget is None
                ==> WingetManager::items(install, platform).len() == 0
            &&& own matches Some(p) ==> (p.cargo is Some
                ==> CargoManager::items(install, platform) == package::views(p.cargo->0.packages@))
            &&& (own is None || own->0.cargo is None) && install.cargo is Some
                ==> CargoManager::items(install, platform)
                == package::views(install.cargo->0.packages@)
            &&& (own is None || own->0.cargo is None) && install.cargo is None
                ==> CargoManager::items(install, platform).len() == 0
            &&& own matches Some(p) ==> (p.python is Some
                ==> PythonManager::items(install, platform)
                == package::views(p.python->0.packages@))
            &&& (own is None || own->0.python is None) && install.python is Some
                ==> PythonManager::items(install, platform)
                == package::views(install.python->0.packages@)
            &&& (own is None || own->0.python is None) && install.python is None
                ==> PythonManager::items(install, platform).len() == 0
            &&& own matches Some(p) ==> (p.node is Some
                ==> NodeManager::items(install, platform) == package::views(p.node->0.packages@))
            &&& (own is None || own->0.node is None) && install.node is Some
                ==> NodeManager::items(install, platform)
                == package::views(install.node->0.packages@)
            &&& (own is None || own->0.node is None) && install.node is None
                ==> NodeManager::items(install, platform).len() == 0
        }),
{
}

/// The collected packages are a set: all that one of the overlays declares, and
/// nothing else.
pub proof fn packages_of_every_overlay_are_collected<M: Manager>(
    repo: Seq<Overlay>,
    platform: Platform,
    order: Seq<int>,
    n: nat,
    key: Seq<Field>,
)
    requires
        n <= order.len(),
    ensures
        package::is_set::<M::P>(packages_of::<M>(repo, platform, order, n)),
        package::has_key::<M::P>(packages_of::<M>(repo, platform, order, n), key) == exists|k: int|
            0 <= k < n && repo[#[trigger] order[k]].install is Some && package::has_key::<M::P>(
                M::items(repo[order[k]].install->0, platform),
                key,
            ),
    decreases n,
{
    if n > 0 {
        packages_of_every_overlay_are_collected::<M>(repo, platform, order, (n - 1) as nat, key);
        let before = packages_of::<M>(repo, platform, order, (n - 1) as nat);
        if let Some(install) = repo[order[n - 1]].install {
            package::collecting_gives_a_set::<M::P>(before, M::items(install, platform), key);
        }
    }
}

} // verus!
