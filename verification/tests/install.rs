//! Installing applications.

use over::actions::install::collect::{
    collect_packages, resolve_platform_override, AptManager, ArchlinuxManager, BrewManager,
    BrewTapManager, CargoManager, NodeManager, Os, Platform, PythonManager, WingetManager,
};
use over::actions::install::command::{
    arch_helper, install_apt_pkgs, install_arch_pkgs, install_brew_pkgs, install_cargo_crates,
    install_node_packages, install_python_packages, install_winget_pkgs, Action, ArchHelper,
    Command, PythonTools,
};
use over::actions::install::config::{
    option_string_or_vec, AllAptForms, AllArchlinuxForms, AllBrewForms, AllBrewPackageForms,
    AllCargoForms, AllCargoPackageForms, AllNodeForms, AllNodePackageForms, AllPythonForms,
    AllPythonPackageForms, AllWingetForms, AllWingetPackageForms, AptConfig, ArchlinuxConfig,
    BrewConfig, BrewPackage, CargoConfig, CargoPackage, InstallConfig, NodeConfig, NodePackage,
    PlatformInstallConfig, PythonConfig, PythonPackage, PythonTool, StringOrVec, SystemManager,
    WingetConfig, WingetPackage,
};
use over::actions::install::plan::{
    decide_linux_managers, detect_linux_distro, install, install_linux, install_macos,
    install_windows, Step,
};
use over::overlays::Overlay;

fn s(t: &str) -> String {
    t.to_string()
}

fn list(l: &[&str]) -> Vec<String> {
    l.iter().map(|t| s(t)).collect()
}

fn nothing() -> InstallConfig {
    InstallConfig {
        pre: None,
        apt: None,
        archlinux: None,
        brew: None,
        cargo: None,
        python: None,
        node: None,
        winget: None,
        post: None,
        platforms: vec![],
    }
}

fn no_platform() -> PlatformInstallConfig {
    PlatformInstallConfig {
        pre: None,
        apt: None,
        archlinux: None,
        brew: None,
        cargo: None,
        python: None,
        node: None,
        winget: None,
        post: None,
    }
}

fn apt(l: &[&str]) -> Option<AptConfig> {
    Some(AptConfig::from(AllAptForms::Flat(list(l))))
}

fn archlinux(l: &[&str]) -> Option<ArchlinuxConfig> {
    Some(ArchlinuxConfig::from(AllArchlinuxForms::Flat(list(l))))
}

fn brew(l: &[&str]) -> Option<BrewConfig> {
    Some(BrewConfig::from(AllBrewForms::Flat(list(l))))
}

fn cargo(l: &[&str]) -> Option<CargoConfig> {
    Some(CargoConfig::from(AllCargoForms::Flat(list(l))))
}

fn python(l: &[&str]) -> Option<PythonConfig> {
    Some(PythonConfig::from(AllPythonForms::Flat(list(l))))
}

fn node(l: &[&str]) -> Option<NodeConfig> {
    Some(NodeConfig::from(AllNodeForms::Flat(list(l))))
}

fn winget(l: &[&str]) -> Option<WingetConfig> {
    Some(WingetConfig::from(AllWingetForms::Flat(list(l))))
}

fn overlay(name: &str, uses: &[&str], install: Option<InstallConfig>) -> Overlay {
    Overlay {
        name: s(name),
        root: format!("/over/{name}"),
        target: s("~"),
        description: None,
        uses: Some(list(uses)),
        link_dirs: None,
        defaults: None,
        rules: None,
        git: None,
        install,
    }
}

fn linux() -> Platform {
    Platform { os: Os::Linux, distro: Some(s("ubuntu")) }
}

/// `a` uses `b` and `c`, both of which use `d`.
fn diamond(install: fn(&str) -> InstallConfig) -> Vec<Overlay> {
    vec![
        overlay("a", &["b", "c"], Some(install("a"))),
        overlay("b", &["d"], Some(install("b"))),
        overlay("c", &["d"], Some(install("c"))),
        overlay("d", &[], Some(install("shared"))),
    ]
}

fn crate_named(name: &str) -> CargoPackage {
    CargoPackage::from(AllCargoPackageForms::Str(s(name)))
}

fn brew_named(name: &str) -> BrewPackage {
    BrewPackage::from(AllBrewPackageForms::Str(s(name)))
}

#[test]
fn test_linux_precedence_top_level() {
    let install = InstallConfig {
        apt: apt(&["a1"]),
        archlinux: archlinux(&["x1"]),
        brew: brew(&[]),
        ..nothing()
    };
    // simulate ubuntu distro: expect apt only
    assert_eq!(decide_linux_managers("ubuntu", &install), vec![SystemManager::Apt]);
    assert_eq!(decide_linux_managers("archlinux", &install), vec![SystemManager::Archlinux]);
}

#[test]
fn test_linux_composition_platform_section() {
    let section = PlatformInstallConfig { apt: apt(&["a1"]), brew: brew(&[]), ..no_platform() };
    let install = InstallConfig { platforms: vec![(s("ubuntu"), section)], ..nothing() };
    assert_eq!(
        decide_linux_managers("ubuntu", &install),
        vec![SystemManager::Apt, SystemManager::Brew]
    );
}

#[test]
fn test_linux_precedence_no_config() {
    // No manager configured at all => empty
    assert!(decide_linux_managers("ubuntu", &nothing()).is_empty());
    assert!(decide_linux_managers("archlinux", &nothing()).is_empty());
    assert!(decide_linux_managers("fedora", &nothing()).is_empty());
}

#[test]
fn test_linux_precedence_brew_only_top_level() {
    let install = InstallConfig { brew: brew(&[]), ..nothing() };
    assert_eq!(decide_linux_managers("ubuntu", &install), vec![SystemManager::Brew]);
    assert_eq!(decide_linux_managers("archlinux", &install), vec![SystemManager::Brew]);
}

#[test]
fn test_linux_precedence_generic_distro() {
    // Unknown distro falls back to generic precedence
    let install = InstallConfig { apt: apt(&["a"]), ..nothing() };
    assert_eq!(decide_linux_managers("fedora", &install), vec![SystemManager::Apt]);
}

#[test]
fn test_linux_precedence_platform_section_empty_managers() {
    // Platform section exists but none of its managers are configured
    let install = InstallConfig {
        apt: apt(&["a"]),
        platforms: vec![(s("ubuntu"), no_platform())],
        ..nothing()
    };
    // Platform section takes priority over top-level, but has no managers
    assert!(decide_linux_managers("ubuntu", &install).is_empty());
}

#[test]
fn test_linux_precedence_arch_alias() {
    // "arch" should match the arch precedence
    let install = InstallConfig { archlinux: archlinux(&["x"]), ..nothing() };
    assert_eq!(decide_linux_managers("arch", &install), vec![SystemManager::Archlinux]);
}

#[test]
fn distributions_are_read_from_os_release() {
    let text = "NAME=\"Ubuntu\"\nVERSION_ID=\"24.04\"\nID=\"ubuntu\"\nID=other\n";
    assert_eq!(detect_linux_distro(text), Some(s("ubuntu")));
    assert_eq!(detect_linux_distro("ID=arch\r\n"), Some(s("arch")));
    assert_eq!(detect_linux_distro("NAME=x\n"), None);
}

#[test]
fn test_config_with_platform_override_toml() {
    let section = PlatformInstallConfig { apt: apt(&["ubuntu-specific"]), ..no_platform() };
    let install = InstallConfig {
        apt: apt(&["base-pkg"]),
        platforms: vec![(s("ubuntu"), section)],
        ..nothing()
    };
    assert_eq!(install.apt.as_ref().unwrap().packages, ["base-pkg"]);
    let ubuntu = resolve_platform_override(&install, &linux()).unwrap();
    assert_eq!(ubuntu.apt.as_ref().unwrap().packages, ["ubuntu-specific"]);
}

#[test]
fn test_config_with_platform_override_yaml() {
    let section = PlatformInstallConfig { brew: brew(&["mac-only"]), ..no_platform() };
    let install = InstallConfig {
        brew: brew(&["base-pkg"]),
        platforms: vec![(s("macos"), section)],
        ..nothing()
    };
    assert!(install.brew.is_some());
    let platform = Platform { os: Os::Macos, distro: None };
    assert!(resolve_platform_override(&install, &platform).unwrap().brew.is_some());
}

#[test]
fn test_resolve_platform_override_no_platforms() {
    assert!(resolve_platform_override(&nothing(), &linux()).is_none());
}

#[test]
fn test_config_with_pre_post_scripts_in_managers() {
    let before = option_string_or_vec(Some(StringOrVec::List(list(&["echo before cargo"]))));
    let cargo = CargoConfig::from(AllCargoForms::Full {
        packages: vec![crate_named("ripgrep")],
        pre: before,
        post: option_string_or_vec(Some(StringOrVec::Str(s("echo after cargo")))),
    });
    assert_eq!(cargo.pre.unwrap(), vec!["echo before cargo"]);
    assert_eq!(cargo.post.unwrap(), vec!["echo after cargo"]);
    assert_eq!(option_string_or_vec(None), None);
}

#[test]
fn test_cargo_package_full_form_deserialization() {
    let full = |name: Option<&str>, git: Option<&str>, features: Option<Vec<String>>| {
        CargoPackage::from(AllCargoPackageForms::Full {
            name: name.map(s),
            version: Some(s("13.0")),
            git: git.map(s),
            tag: Some(s("v1.0")),
            branch: Some(s("main")),
            rev: Some(s("abc123")),
            path: Some(s("/local/path/to/crate")),
            features,
            locked: Some(true),
            options: Some(s("--force")),
        })
    };
    let p = full(Some("ripgrep"), None, Some(list(&["feat1", "feat2"])));
    assert_eq!(p.name, Some(s("ripgrep")));
    assert_eq!(p.version, Some(s("13.0")));
    assert_eq!(p.locked, Some(true));
    assert_eq!(p.features, Some(list(&["feat1", "feat2"])));
    assert_eq!(p.options, Some(s("--force")));
    let p = full(None, Some("https://github.com/user/repo.git"), None);
    assert_eq!(p.git, Some(s("https://github.com/user/repo.git")));
    assert_eq!(p.tag, Some(s("v1.0")));
    assert_eq!(p.branch, Some(s("main")));
    assert_eq!(p.rev, Some(s("abc123")));
    assert_eq!(p.path, Some(s("/local/path/to/crate")));
}

#[test]
fn test_winget_package_forms() {
    let p = WingetPackage::from(AllWingetPackageForms::Full {
        name: None,
        id: Some(s("Microsoft.VisualStudioCode")),
        options: None,
    });
    assert_eq!(p.id, Some(s("Microsoft.VisualStudioCode")));
    assert!(p.name.is_none());
    let p = WingetPackage::from(AllWingetPackageForms::Str(s("Git")));
    assert_eq!(p, WingetPackage { name: Some(s("Git")), id: None, options: None });
}

#[test]
fn short_forms_name_packages() {
    assert_eq!(
        brew(&["git"]).unwrap().packages.unwrap(),
        vec![BrewPackage { name: s("git"), options: None, cask: None }]
    );
    assert_eq!(
        AptConfig::from(AllAptForms::Full {
            packages: list(&["pkg1"]),
            pre: Some(list(&["echo \"before apt\""])),
            post: None,
        })
        .pre
        .unwrap(),
        vec!["echo \"before apt\""]
    );
    assert_eq!(
        NodePackage::from(AllNodePackageForms::Full { name: s("a"), options: Some(s("-x")) }),
        NodePackage { name: s("a"), options: Some(s("-x")) }
    );
    let taps = BrewConfig::from(AllBrewForms::Full {
        taps: Some(list(&["my/tap"])),
        packages: None,
        pre: None,
        post: None,
    });
    assert_eq!(taps.taps, Some(list(&["my/tap"])));
}

#[test]
fn test_get_cargo_packages_diamond() {
    let repo = diamond(|n| InstallConfig { cargo: cargo(&[&format!("{n}-crate")]), ..nothing() });
    let pkgs = collect_packages::<CargoManager>(&repo, 0, &linux()).unwrap();
    let names: Vec<&str> = pkgs.iter().filter_map(|p| p.name.as_deref()).collect();
    assert_eq!(names, ["a-crate", "b-crate", "c-crate", "shared-crate"]);
}

#[test]
fn test_get_cargo_packages_cycle() {
    let with = |name: &str| Some(InstallConfig { cargo: cargo(&[name]), ..nothing() });
    let repo = vec![
        overlay("x", &["y"], with("x-crate")),
        overlay("y", &["x"], with("y-crate")),
    ];
    let pkgs = collect_packages::<CargoManager>(&repo, 0, &linux()).unwrap();
    let names: Vec<&str> = pkgs.iter().filter_map(|p| p.name.as_deref()).collect();
    assert!(names.contains(&"x-crate"), "should collect packages from x");
    assert!(names.contains(&"y-crate"), "should collect packages from y");
}

#[test]
fn test_get_apt_packages_single() {
    let install = InstallConfig { apt: apt(&["git", "curl", "git"]), ..nothing() };
    let repo = vec![overlay("a", &[], Some(install))];
    let pkgs = collect_packages::<AptManager>(&repo, 0, &linux()).unwrap();
    assert_eq!(pkgs, list(&["curl", "git"]));
}

#[test]
fn test_get_apt_packages_diamond() {
    let repo = diamond(|n| InstallConfig { apt: apt(&[&format!("{n}-pkg")]), ..nothing() });
    let pkgs = collect_packages::<AptManager>(&repo, 0, &linux()).unwrap();
    assert_eq!(pkgs, list(&["a-pkg", "b-pkg", "c-pkg", "shared-pkg"]));
}

#[test]
fn test_get_brew_packages_single() {
    let config = BrewConfig::from(AllBrewForms::Full {
        taps: Some(list(&["my/tap"])),
        packages: Some(vec![
            brew_named("pkg1"),
            BrewPackage::from(AllBrewPackageForms::Full {
                name: s("pkg2"),
                options: None,
                cask: Some(true),
            }),
        ]),
        pre: None,
        post: None,
    });
    let install = InstallConfig { brew: Some(config), ..nothing() };
    let repo = vec![overlay("a", &[], Some(install))];
    let taps = collect_packages::<BrewTapManager>(&repo, 0, &linux()).unwrap();
    let pkgs = collect_packages::<BrewManager>(&repo, 0, &linux()).unwrap();
    assert_eq!(taps, list(&["my/tap"]));
    assert!(pkgs.contains(&BrewPackage { name: s("pkg1"), options: None, cask: None }));
    assert!(pkgs.contains(&BrewPackage { name: s("pkg2"), options: None, cask: Some(true) }));
}

#[test]
fn test_get_brew_packages_diamond() {
    let repo = diamond(|n| {
        let tap = if n == "b" { "b/tap" } else { "shared/tap" };
        let config = BrewConfig::from(AllBrewForms::Full {
            taps: if n == "a" { None } else { Some(list(&[tap])) },
            packages: Some(vec![brew_named(&format!("{n}-pkg"))]),
            pre: None,
            post: None,
        });
        InstallConfig { brew: Some(config), ..nothing() }
    });
    let taps = collect_packages::<BrewTapManager>(&repo, 0, &linux()).unwrap();
    let pkgs = collect_packages::<BrewManager>(&repo, 0, &linux()).unwrap();
    assert_eq!(taps, list(&["b/tap", "shared/tap"]), "taps should be deduplicated");
    let names: Vec<&str> = pkgs.iter().map(|p| p.name.as_str()).collect();
    assert_eq!(names, ["a-pkg", "b-pkg", "c-pkg", "shared-pkg"]);
}

#[test]
fn test_get_python_packages_single() {
    let install = InstallConfig { python: python(&["requests"]), ..nothing() };
    let repo = vec![overlay("a", &[], Some(install))];
    let pkgs = collect_packages::<PythonManager>(&repo, 0, &linux()).unwrap();
    assert_eq!(pkgs.len(), 1);
    assert_eq!(pkgs[0].name, "requests");
}

#[test]
fn test_get_python_packages_full_form() {
    let package = PythonPackage::from(AllPythonPackageForms::Full {
        name: s("requests"),
        tool: Some(PythonTool::Uv),
        extras: Some(list(&["security"])),
        options: Some(s("--force")),
    });
    let config = PythonConfig { packages: vec![package], pre: None, post: None };
    let install = InstallConfig { python: Some(config), ..nothing() };
    let repo = vec![overlay("a", &[], Some(install))];
    let pkgs = collect_packages::<PythonManager>(&repo, 0, &linux()).unwrap();
    assert_eq!(pkgs[0].name, "requests");
    assert_eq!(pkgs[0].tool, Some(PythonTool::Uv));
    assert_eq!(pkgs[0].extras, Some(list(&["security"])));
    assert_eq!(pkgs[0].options, Some(s("--force")));
}

#[test]
fn test_get_python_packages_diamond() {
    let repo = diamond(|n| InstallConfig { python: python(&[&format!("{n}-lib")]), ..nothing() });
    let pkgs = collect_packages::<PythonManager>(&repo, 0, &linux()).unwrap();
    let names: Vec<&str> = pkgs.iter().map(|p| p.name.as_str()).collect();
    assert_eq!(names, ["a-lib", "b-lib", "c-lib", "shared-lib"]);
}

#[test]
fn test_get_node_packages_single() {
    let install = InstallConfig { node: node(&["typescript"]), ..nothing() };
    let repo = vec![overlay("a", &[], Some(install))];
    let pkgs = collect_packages::<NodeManager>(&repo, 0, &linux()).unwrap();
    assert_eq!(pkgs.len(), 1);
    assert_eq!(pkgs[0].name, "typescript");
}

#[test]
fn test_get_node_packages_full_form() {
    let package = NodePackage { name: s("typescript"), options: Some(s("--force")) };
    let config = NodeConfig::from(AllNodeForms::Full {
        packages: vec![package],
        pre: None,
        post: None,
    });
    let install = InstallConfig { node: Some(config), ..nothing() };
    let repo = vec![overlay("a", &[], Some(install))];
    let pkgs = collect_packages::<NodeManager>(&repo, 0, &linux()).unwrap();
    assert_eq!(pkgs[0].name, "typescript");
    assert_eq!(pkgs[0].options, Some(s("--force")));
}

#[test]
fn test_get_node_packages_diamond() {
    let repo = diamond(|n| InstallConfig { node: node(&[&format!("{n}-pkg")]), ..nothing() });
    let pkgs = collect_packages::<NodeManager>(&repo, 0, &linux()).unwrap();
    let names: Vec<&str> = pkgs.iter().map(|p| p.name.as_str()).collect();
    assert_eq!(names, ["a-pkg", "b-pkg", "c-pkg", "shared-pkg"]);
}

#[test]
fn test_get_winget_packages_single() {
    let install = InstallConfig { winget: winget(&["bat"]), ..nothing() };
    let repo = vec![overlay("a", &[], Some(install))];
    let pkgs = collect_packages::<WingetManager>(&repo, 0, &linux()).unwrap();
    assert_eq!(pkgs, vec![WingetPackage { name: Some(s("bat")), id: None, options: None }]);
}

#[test]
fn test_get_winget_packages_full_form() {
    let by_id = WingetPackage { name: None, id: Some(s("sharkdp.bat")), options: None };
    let by_name = WingetPackage {
        name: Some(s("Git")),
        id: None,
        options: Some(s("--source winget")),
    };
    let config = WingetConfig::from(AllWingetForms::Full {
        packages: vec![by_name, by_id],
        pre: None,
        post: None,
    });
    let install = InstallConfig { winget: Some(config), ..nothing() };
    let repo = vec![overlay("a", &[], Some(install))];
    let pkgs = collect_packages::<WingetManager>(&repo, 0, &linux()).unwrap();
    // what has no name comes first
    assert_eq!(
        pkgs[0],
        WingetPackage { name: None, id: Some(s("sharkdp.bat")), options: None }
    );
    assert_eq!(
        pkgs[1],
        WingetPackage { name: Some(s("Git")), id: None, options: Some(s("--source winget")) }
    );
}

#[test]
fn test_get_winget_packages_diamond() {
    let repo = diamond(|n| InstallConfig { winget: winget(&[&format!("{n}-pkg")]), ..nothing() });
    let pkgs = collect_packages::<WingetManager>(&repo, 0, &linux()).unwrap();
    let names: Vec<&str> = pkgs.iter().filter_map(|p| p.name.as_deref()).collect();
    assert_eq!(names, ["a-pkg", "b-pkg", "c-pkg", "shared-pkg"]);
}

#[test]
fn test_get_archlinux_packages_single() {
    let install = InstallConfig { archlinux: archlinux(&["base-devel", "git"]), ..nothing() };
    let repo = vec![overlay("a", &[], Some(install))];
    let pkgs = collect_packages::<ArchlinuxManager>(&repo, 0, &linux()).unwrap();
    assert_eq!(pkgs, list(&["base-devel", "git"]));
}

#[test]
fn test_get_archlinux_packages_diamond() {
    let repo =
        diamond(|n| InstallConfig { archlinux: archlinux(&[&format!("{n}-pkg")]), ..nothing() });
    let pkgs = collect_packages::<ArchlinuxManager>(&repo, 0, &linux()).unwrap();
    assert_eq!(pkgs, list(&["a-pkg", "b-pkg", "c-pkg", "shared-pkg"]));
}

#[test]
fn test_get_packages_no_install_section() {
    let repo = vec![overlay("a", &[], None)];
    assert!(collect_packages::<AptManager>(&repo, 0, &linux()).unwrap().is_empty());
    assert!(collect_packages::<BrewTapManager>(&repo, 0, &linux()).unwrap().is_empty());
    assert!(collect_packages::<BrewManager>(&repo, 0, &linux()).unwrap().is_empty());
    assert!(collect_packages::<PythonManager>(&repo, 0, &linux()).unwrap().is_empty());
    assert!(collect_packages::<NodeManager>(&repo, 0, &linux()).unwrap().is_empty());
    assert!(collect_packages::<WingetManager>(&repo, 0, &linux()).unwrap().is_empty());
    assert!(collect_packages::<ArchlinuxManager>(&repo, 0, &linux()).unwrap().is_empty());
}

#[test]
fn an_unknown_overlay_stops_the_collection() {
    let repo = vec![overlay("a", &["ghost"], None)];
    assert_eq!(collect_packages::<AptManager>(&repo, 0, &linux()), Err(s("ghost")));
}

fn lines(actions: &[Action]) -> Vec<String> {
    actions
        .iter()
        .map(|a| match a {
            Action::Run(c) => c.line(),
            Action::Warn(w) => format!("! {w}"),
        })
        .collect()
}

#[test]
fn test_run_cmd_failure() {
    let command = Command { program: s("sudo"), args: list(&["apt-get", "update"]) };
    assert_eq!(command.line(), "sudo apt-get update");
    assert_eq!(command.failure(), "Command failed: sudo apt-get update");
}

#[test]
fn test_install_cargo_crates_empty() {
    assert!(install_cargo_crates(true, true, &vec![]).is_empty());
    assert_eq!(
        lines(&install_cargo_crates(false, true, &vec![crate_named("a")])),
        vec!["! cargo not found"]
    );
    assert!(install_cargo_crates(false, false, &vec![crate_named("a")]).is_empty());
}

#[test]
fn test_install_cargo_crates_name_only_dry_run() {
    let p = CargoPackage { version: Some(s("14.0.0")), ..crate_named("ripgrep") };
    assert_eq!(
        lines(&install_cargo_crates(true, false, &vec![p])),
        vec!["cargo install ripgrep --version 14.0.0"]
    );
}

#[test]
fn test_install_cargo_crates_git_with_tag_dry_run() {
    let p = CargoPackage {
        git: Some(s("https://github.com/user/repo.git")),
        tag: Some(s("v1.0.0")),
        features: Some(list(&["feat1", "feat2"])),
        locked: Some(true),
        options: Some(s("--force")),
        ..crate_named("my-crate")
    };
    assert_eq!(
        lines(&install_cargo_crates(true, false, &vec![p])),
        vec!["cargo install --git https://github.com/user/repo.git --tag v1.0.0 my-crate --features feat1,feat2 --locked --force"]
    );
}

#[test]
fn test_install_cargo_crates_git_with_branch_dry_run() {
    let p = CargoPackage {
        name: None,
        git: Some(s("https://github.com/user/repo.git")),
        branch: Some(s("develop")),
        ..crate_named("")
    };
    assert_eq!(
        lines(&install_cargo_crates(true, false, &vec![p])),
        vec!["cargo install --git https://github.com/user/repo.git --branch develop"]
    );
}

#[test]
fn test_install_cargo_crates_git_with_rev_dry_run() {
    let p = CargoPackage {
        name: None,
        git: Some(s("https://github.com/user/repo.git")),
        rev: Some(s("abc1234")),
        ..crate_named("")
    };
    assert_eq!(
        lines(&install_cargo_crates(true, false, &vec![p])),
        vec!["cargo install --git https://github.com/user/repo.git --rev abc1234"]
    );
}

#[test]
fn test_install_cargo_crates_path_dry_run() {
    let p = CargoPackage { name: None, path: Some(s("/path/to/crate")), ..crate_named("") };
    assert_eq!(
        lines(&install_cargo_crates(true, false, &vec![p])),
        vec!["cargo install --path /path/to/crate"]
    );
}

const ALL_TOOLS: PythonTools = PythonTools { uv: true, pipx: true, pip: true };
const PIP_ONLY: PythonTools = PythonTools { uv: false, pipx: false, pip: true };

fn requests() -> PythonPackage {
    PythonPackage {
        name: s("requests"),
        extras: Some(list(&["security", "socks"])),
        tool: None,
        options: Some(s("--user")),
    }
}

#[test]
fn test_install_python_packages_empty() {
    assert!(install_python_packages(ALL_TOOLS, &vec![]).is_empty());
}

#[test]
fn test_install_python_packages_with_extras_dry_run() {
    assert_eq!(
        lines(&install_python_packages(ALL_TOOLS, &vec![requests()])),
        vec!["uv tool install requests[security,socks] --user"]
    );
    assert_eq!(
        lines(&install_python_packages(PIP_ONLY, &vec![requests()])),
        vec!["pip install requests[security,socks] --user"]
    );
}

#[test]
fn test_install_python_packages_with_explicit_tool_dry_run() {
    let black = PythonPackage {
        name: s("black"),
        extras: None,
        tool: Some(PythonTool::Pip),
        options: None,
    };
    assert_eq!(
        lines(&install_python_packages(ALL_TOOLS, &vec![black])),
        vec!["pip install black"]
    );
}

#[test]
fn test_install_node_packages_empty() {
    assert!(install_node_packages(true, false, &vec![]).is_empty());
}

#[test]
fn test_install_node_packages_dry_run() {
    let p = NodePackage { name: s("typescript"), options: Some(s("--force")) };
    assert_eq!(
        lines(&install_node_packages(true, false, &vec![p])),
        vec!["npm install -g --force typescript"]
    );
    let p = NodePackage { name: s("typescript"), options: None };
    assert_eq!(
        lines(&install_node_packages(false, true, &vec![p])),
        vec!["! npm not found"]
    );
}

#[test]
fn test_install_apt_pkgs_empty() {
    assert!(install_apt_pkgs(&vec![]).is_empty());
}

#[test]
fn test_install_apt_pkgs_dry_run() {
    assert_eq!(
        lines(&install_apt_pkgs(&list(&["git", "vim"]))),
        vec!["sudo apt-get update", "sudo apt-get install -y git vim"]
    );
}

#[test]
fn test_install_arch_pkgs_empty() {
    assert!(install_arch_pkgs(Some(ArchHelper::Yay), true, &vec![]).is_empty());
}

#[test]
fn test_install_arch_pkgs_dry_run() {
    let pkgs = list(&["base-devel"]);
    let with = |yay: bool, paru: bool, pacman: bool| {
        lines(&install_arch_pkgs(arch_helper(yay, paru, pacman), true, &pkgs))
    };
    assert_eq!(with(true, true, true), vec!["yay -S --needed base-devel"]);
    assert_eq!(with(false, true, true), vec!["paru -S --needed base-devel"]);
    assert_eq!(with(false, false, true), vec!["sudo pacman -S --needed base-devel"]);
    assert_eq!(
        with(false, false, false),
        vec!["! No arch package manager found for archlinux packages"]
    );
}

#[test]
fn test_install_brew_pkgs_empty() {
    assert!(install_brew_pkgs(true, &vec![], &vec![]).is_empty());
}

#[test]
fn test_install_brew_pkgs_no_brew() {
    assert_eq!(
        lines(&install_brew_pkgs(false, &vec![], &vec![brew_named("git")])),
        vec!["! brew not found"]
    );
}

#[test]
fn the_flag_for_casks_is_given_once() {
    let cask = BrewPackage {
        name: s("app"),
        options: Some(s("--cask --force  --cask")),
        cask: Some(true),
    };
    let plain = BrewPackage { name: s("git"), options: Some(s("--HEAD")), cask: Some(false) };
    assert_eq!(
        lines(&install_brew_pkgs(true, &list(&["my/tap"]), &vec![cask, plain])),
        vec!["brew tap my/tap", "brew install --cask --force app", "brew install --HEAD git"]
    );
}

#[test]
fn test_install_winget_pkgs_empty() {
    assert!(install_winget_pkgs(true, false, &vec![]).is_empty());
}

fn git_git() -> WingetPackage {
    WingetPackage { name: Some(s("Git.Git")), id: None, options: None }
}

#[test]
fn test_install_winget_pkgs_not_found() {
    assert_eq!(
        lines(&install_winget_pkgs(false, true, &vec![git_git()])),
        vec!["! winget not found"]
    );
}

#[test]
fn test_install_winget_pkgs_not_found_non_verbose() {
    assert!(install_winget_pkgs(false, false, &vec![git_git()]).is_empty());
}

#[test]
fn winget_packages_go_by_id_first() {
    let head = "winget install --accept-source-agreements --accept-package-agreements";
    let by_id = WingetPackage {
        name: Some(s("x")),
        id: Some(s("Microsoft.VisualStudioCode")),
        options: Some(s("--scope machine")),
    };
    let unnamed = WingetPackage { name: None, id: None, options: None };
    assert_eq!(
        lines(&install_winget_pkgs(true, false, &vec![by_id, unnamed, git_git()])),
        vec![
            format!("{head} --id Microsoft.VisualStudioCode --scope machine"),
            format!("{head} Git.Git")
        ]
    );
}

fn script(t: &str) -> Step {
    Step::Script(s(t))
}

fn crates(names: &[&str]) -> Step {
    Step::Cargo(names.iter().map(|n| crate_named(n)).collect())
}

fn pythons(names: &[&str]) -> Step {
    Step::Python(
        names
            .iter()
            .map(|n| PythonPackage::from(AllPythonPackageForms::Str(s(n))))
            .collect(),
    )
}

fn nodes(names: &[&str]) -> Step {
    Step::Node(names.iter().map(|n| NodePackage::from(AllNodePackageForms::Str(s(n)))).collect())
}

fn steps(install: InstallConfig, platform: &Platform) -> Vec<Step> {
    let repo = vec![overlay("a", &[], Some(install))];
    let course = match platform.os {
        Os::Linux => install_linux(&repo, 0, platform),
        Os::Macos => install_macos(&repo, 0, platform),
        _ => install_windows(&repo, 0, platform),
    };
    assert_eq!(course.failure, None);
    course.steps
}

fn macos() -> Platform {
    Platform { os: Os::Macos, distro: None }
}

fn windows() -> Platform {
    Platform { os: Os::Windows, distro: None }
}

#[test]
fn test_install_no_config() {
    let repo = vec![overlay("a", &[], None)];
    let course = install(&repo, 0, &linux()).unwrap();
    assert!(course.steps.is_empty());
    assert_eq!(course.failure, None);
    assert!(install(&repo, 0, &Platform { os: Os::Other, distro: None }).is_none());
}

#[test]
fn test_install_linux_no_install_section() {
    let repo = vec![overlay("a", &[], None)];
    assert!(install_linux(&repo, 0, &linux()).steps.is_empty());
}

#[test]
fn test_install_macos_no_config() {
    let repo = vec![overlay("a", &[], None)];
    assert!(install_macos(&repo, 0, &macos()).steps.is_empty());
}

#[test]
fn test_install_windows_no_config() {
    let repo = vec![overlay("a", &[], None)];
    assert!(install_windows(&repo, 0, &windows()).steps.is_empty());
}

#[test]
fn test_install_language_managers_with_all_dry_run() {
    let install = InstallConfig {
        cargo: cargo(&["ripgrep"]),
        python: python(&["black"]),
        node: node(&["typescript"]),
        ..nothing()
    };
    assert_eq!(
        steps(install, &linux()),
        vec![crates(&["ripgrep"]), pythons(&["black"]), nodes(&["typescript"])]
    );
}

#[test]
fn test_install_language_managers_with_pre_post_dry_run() {
    let mut c = cargo(&["ripgrep"]).unwrap();
    c.pre = Some(list(&["echo cargo-pre"]));
    c.post = Some(list(&["echo cargo-post"]));
    let mut p = python(&["black"]).unwrap();
    p.pre = Some(list(&["echo py-pre"]));
    p.post = Some(list(&["echo py-post"]));
    let mut n = node(&["typescript"]).unwrap();
    n.pre = Some(list(&["echo node-pre"]));
    n.post = Some(list(&["echo node-post"]));
    let install = InstallConfig { cargo: Some(c), python: Some(p), node: Some(n), ..nothing() };
    assert_eq!(
        steps(install, &linux()),
        vec![
            script("echo cargo-pre"),
            crates(&["ripgrep"]),
            script("echo cargo-post"),
            script("echo py-pre"),
            pythons(&["black"]),
            script("echo py-post"),
            script("echo node-pre"),
            nodes(&["typescript"]),
            script("echo node-post"),
        ]
    );
}

#[test]
fn test_install_linux_full_dry_run() {
    let install = InstallConfig {
        pre: Some(list(&["echo global-pre"])),
        apt: apt(&["git", "curl"]),
        cargo: cargo(&["ripgrep"]),
        python: python(&["black"]),
        node: node(&["typescript"]),
        post: Some(list(&["echo global-post"])),
        ..nothing()
    };
    assert_eq!(
        steps(install, &linux()),
        vec![
            script("echo global-pre"),
            Step::Apt(list(&["curl", "git"])),
            crates(&["ripgrep"]),
            pythons(&["black"]),
            nodes(&["typescript"]),
            script("echo global-post"),
        ]
    );
}

#[test]
fn test_install_linux_with_brew_dry_run() {
    let install = InstallConfig { brew: brew(&["git"]), ..nothing() };
    assert_eq!(steps(install, &linux()), vec![Step::Brew(vec![], vec![brew_named("git")])]);
}

#[test]
fn test_install_linux_with_archlinux_dry_run() {
    let install = InstallConfig { archlinux: archlinux(&["base-devel"]), ..nothing() };
    let arch = Platform { os: Os::Linux, distro: None };
    assert_eq!(steps(install, &arch), vec![Step::Archlinux(list(&["base-devel"]))]);
}

#[test]
fn test_install_macos_dry_run() {
    let install = InstallConfig {
        pre: Some(list(&["echo mac-pre"])),
        brew: brew(&["git"]),
        cargo: cargo(&["ripgrep"]),
        post: Some(list(&["echo mac-post"])),
        ..nothing()
    };
    assert_eq!(
        steps(install, &macos()),
        vec![
            script("echo mac-pre"),
            Step::Brew(vec![], vec![brew_named("git")]),
            crates(&["ripgrep"]),
            script("echo mac-post"),
        ]
    );
}

#[test]
fn test_install_macos_with_brew_hooks_dry_run() {
    let mut b = brew(&["git"]).unwrap();
    b.pre = Some(list(&["echo brew-pre"]));
    b.post = Some(list(&["echo brew-post"]));
    let install = InstallConfig { brew: Some(b), ..nothing() };
    assert_eq!(
        steps(install, &macos()),
        vec![
            script("echo brew-pre"),
            Step::Brew(vec![], vec![brew_named("git")]),
            script("echo brew-post"),
        ]
    );
}

#[test]
fn test_install_windows_dry_run() {
    let install = InstallConfig {
        pre: Some(list(&["echo win-pre"])),
        winget: winget(&["Git.Git"]),
        cargo: cargo(&["ripgrep"]),
        post: Some(list(&["echo win-post"])),
        ..nothing()
    };
    assert_eq!(
        steps(install, &windows()),
        vec![
            script("echo win-pre"),
            Step::Winget(vec![git_git()]),
            crates(&["ripgrep"]),
            script("echo win-post"),
        ]
    );
}

#[test]
fn test_install_windows_with_platform_pre_post_dry_run() {
    let section = PlatformInstallConfig {
        pre: Some(list(&["echo win-pre"])),
        post: Some(list(&["echo win-post"])),
        ..no_platform()
    };
    let install = InstallConfig {
        pre: Some(list(&["echo top-pre"])),
        winget: winget(&["Git.Git"]),
        post: Some(list(&["echo top-post"])),
        platforms: vec![(s("windows"), section)],
        ..nothing()
    };
    assert_eq!(
        steps(install, &windows()),
        vec![
            script("echo top-pre"),
            script("echo win-pre"),
            Step::Winget(vec![git_git()]),
            script("echo win-post"),
            script("echo top-post"),
        ]
    );
}

#[test]
fn test_install_linux_with_platform_pre_post_dry_run() {
    let section = PlatformInstallConfig {
        pre: Some(list(&["echo platform-pre"])),
        apt: apt(&["curl"]),
        post: Some(list(&["echo platform-post"])),
        ..no_platform()
    };
    let install = InstallConfig {
        pre: Some(list(&["echo top-pre"])),
        apt: apt(&["git"]),
        post: Some(list(&["echo top-post"])),
        platforms: vec![(s("ubuntu"), section)],
        ..nothing()
    };
    assert_eq!(
        steps(install, &linux()),
        vec![
            script("echo top-pre"),
            script("echo platform-pre"),
            Step::Apt(list(&["curl"])),
            script("echo platform-post"),
            script("echo top-post"),
        ]
    );
}

#[test]
fn an_unknown_overlay_ends_the_course() {
    let install_cfg = InstallConfig {
        pre: Some(list(&["echo pre"])),
        apt: apt(&["git"]),
        post: Some(list(&["echo post"])),
        ..nothing()
    };
    let repo = vec![overlay("a", &["ghost"], Some(install_cfg))];
    let course = install_linux(&repo, 0, &linux());
    assert_eq!(course.steps, vec![script("echo pre")]);
    assert_eq!(course.failure, Some(s("used overlay 'ghost' not found")));
}
