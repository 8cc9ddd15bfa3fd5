//! The course of an installation: scripts, system packages and applications in
//! their order.

use crate::actions::install::collect;
use crate::actions::install::collect::{
    collect_packages, platform_config, AptManager, ArchlinuxManager, BrewManager, BrewTapManager,
    CargoManager, Manager, NodeManager, Os, Platform, PythonManager, WingetManager,
};
use crate::actions::install::config;
use crate::actions::install::config::{
    BrewPackage, BrewView, CargoPackage, CargoView, InstallConfig, NodePackage, NodeView,
    PlatformInstallConfig, PythonPackage, PythonView, SystemManager, WingetPackage, WingetView,
};
use crate::actions::install::package;
use crate::overlays;
use crate::overlays::Overlay;
use crate::table;
use crate::text;
use crate::text::{concat3, same, split_lines, strip_prefix, trim_char};
use crate::uses;
use vstd::prelude::*;

verus! {

/// The first of the `lines` from `from` on that names the distribution.
pub open spec fn id_line(lines: Seq<Seq<char>>, from: int) -> Option<Seq<char>>
    decreases lines.len() - from,
{
    if from >= lines.len() {
        None
    } else if "ID="@.is_prefix_of(lines[from]) {
        Some(text::trim_end(text::trim_start(lines[from].skip(3), '"'), '"'))
    } else {
        id_line(lines, from + 1)
    }
}

/// The Linux distribution that the text of `os-release` names.
pub fn detect_linux_distro(os_release: &str) -> (r: Option<String>)
    ensures
        match r {
            Some(id) => id_line(text::lines(os_release@), 0) == Some(id@),
            None => id_line(text::lines(os_release@), 0) is None,
        },
{
    let all = split_lines(os_release);
    let ghost ls = text::lines(os_release@);
    assert(ls.len() == all@.len());
    let mut i: usize = 0;
    while i < all.len()
        invariant
            text::texts(all@) == ls,
            ls == text::lines(os_release@),
            ls.len() == all@.len(),
            i <= all@.len(),
            id_line(ls, 0) == id_line(ls, i as int),
        decreases all@.len() - i,
    {
        assert(ls[i as int] == all@[i as int]@);
        proof {
            reveal_strlit("ID=");
        }
        if let Some(rest) = strip_prefix(all[i].as_str(), "ID=") {
            return Some(trim_char(rest.as_str(), '"'));
        }
        i = i + 1;
    }
    None
}

/// The package managers of a distribution, the preferred one first.
pub open spec fn precedence(distro: Seq<char>) -> Seq<SystemManager> {
    if distro == "arch"@ || distro == "archlinux"@ {
        seq![SystemManager::Archlinux, SystemManager::Brew]
    } else if distro == "ubuntu"@ || distro == "debian"@ {
        seq![SystemManager::Apt, SystemManager::Brew]
    } else {
        seq![SystemManager::Archlinux, SystemManager::Apt, SystemManager::Brew]
    }
}

/// Whether something is declared for a package manager.
pub open spec fn has_top(c: InstallConfig, m: SystemManager) -> bool {
    match m {
        SystemManager::Archlinux => c.archlinux is Some,
        SystemManager::Apt => c.apt is Some,
        SystemManager::Brew => c.brew is Some,
        SystemManager::Winget => c.winget is Some,
    }
}

/// Whether something is declared for a package manager on one platform.
pub open spec fn has_platform(c: PlatformInstallConfig, m: SystemManager) -> bool {
    match m {
        SystemManager::Archlinux => c.archlinux is Some,
        SystemManager::Apt => c.apt is Some,
        SystemManager::Brew => c.brew is Some,
        SystemManager::Winget => c.winget is Some,
    }
}

/// Those of the first `n` managers that the platform declares something for.
pub open spec fn declared_managers(
    c: PlatformInstallConfig,
    managers: Seq<SystemManager>,
    n: nat,
) -> Seq<SystemManager>
    decreases n,
{
    if n == 0 {
        Seq::empty()
    } else {
        let before = declared_managers(c, managers, (n - 1) as nat);
        if has_platform(c, managers[n - 1]) {
            before.push(managers[n - 1])
        } else {
            before
        }
    }
}

/// The first manager from `from` on that something is declared for.
pub open spec fn first_manager(
    c: InstallConfig,
    managers: Seq<SystemManager>,
    from: int,
) -> Seq<SystemManager>
    decreases managers.len() - from,
{
    if from >= managers.len() {
        Seq::empty()
    } else if has_top(c, managers[from]) {
        seq![managers[from]]
    } else {
        first_manager(c, managers, from + 1)
    }
}

/// The package managers that run on a Linux distribution: where the distribution
/// has a section of its own, all that it declares something for, else the first
/// that something is declared for.
pub open spec fn linux_managers(distro: Seq<char>, c: InstallConfig) -> Seq<SystemManager> {
    match collect::declared_for(c, distro) {
        Some(p) => declared_managers(p, precedence(distro), precedence(distro).len()),
        None => first_manager(c, precedence(distro), 0),
    }
}

fn precedence_of(distro: &str) -> (r: Vec<SystemManager>)
    ensures
        r@ == precedence(distro@),
{
    if same(distro, "arch") || same(distro, "archlinux") {
        vec![SystemManager::Archlinux, SystemManager::Brew]
    } else if same(distro, "ubuntu") || same(distro, "debian") {
        vec![SystemManager::Apt, SystemManager::Brew]
    } else {
        vec![SystemManager::Archlinux, SystemManager::Apt, SystemManager::Brew]
    }
}

fn top_has(c: &InstallConfig, m: SystemManager) -> (r: bool)
    ensures
        r == has_top(*c, m),
{
    match m {
        SystemManager::Archlinux => c.archlinux.is_some(),
        SystemManager::Apt => c.apt.is_some(),
        SystemManager::Brew => c.brew.is_some(),
        SystemManager::Winget => c.winget.is_some(),
    }
}

fn platform_has(c: &PlatformInstallConfig, m: SystemManager) -> (r: bool)
    ensures
        r == has_platform(*c, m),
{
    match m {
        SystemManager::Archlinux => c.archlinux.is_some(),
        SystemManager::Apt => c.apt.is_some(),
        SystemManager::Brew => c.brew.is_some(),
        SystemManager::Winget => c.winget.is_some(),
    }
}

fn choose_managers(distro: &str, install_cfg: &InstallConfig) -> (r: Vec<SystemManager>)
    ensures
        r@ == linux_managers(distro@, *install_cfg),
{
    let managers = precedence_of(distro);
    let ghost ms = managers@;
    match platform_config(install_cfg, distro) {
        Some(p) => {
            let mut r: Vec<SystemManager> = Vec::new();
            let mut i: usize = 0;
            while i < managers.len()
                invariant
                    ms == managers@,
                    i <= ms.len(),
                    r@ == declared_managers(*p, ms, i as nat),
                decreases ms.len() - i,
            {
                if platform_has(p, managers[i]) {
                    r.push(managers[i]);
                }
                i = i + 1;
            }
            r
        },
        None => {
            let mut i: usize = 0;
            while i < managers.len()
                invariant
                    ms == managers@,
                    ms == precedence(distro@),
                    collect::declared_for(*install_cfg, distro@) is None,
                    i <= ms.len(),
                    first_manager(*install_cfg, ms, 0) == first_manager(
                        *install_cfg,
                        ms,
                        i as int,
                    ),
                decreases ms.len() - i,
            {
                if top_has(install_cfg, managers[i]) {
                    let r = vec![managers[i]];
                    assert(r@ =~= seq![ms[i as int]]);
                    return r;
                }
                i = i + 1;
            }
            Vec::new()
        },
    }
}

/// The package managers that run on a Linux distribution.
pub fn decide_linux_managers(distro: &str, install_cfg: &InstallConfig) -> (r: Vec<SystemManager>)
    ensures
        r@ == linux_managers(distro@, *install_cfg),
        distro@ == "ubuntu"@ || distro@ == "debian"@ ==> !r@.contains(SystemManager::Archlinux),
        distro@ == "arch"@ || distro@ == "archlinux"@ ==> !r@.contains(SystemManager::Apt),
        match table::lookup(table::named(install_cfg.platforms@), distro@) {
            None => (distro@ == "ubuntu"@ || distro@ == "debian"@) && install_cfg.apt is Some
                ==> r@ == seq![SystemManager::Apt],
            Some(p) => (distro@ == "ubuntu"@ || distro@ == "debian"@) && p.apt is Some
                ==> r@.len() > 0 && r@[0] == SystemManager::Apt,
        },
        match table::lookup(table::named(install_cfg.platforms@), distro@) {
            None => (distro@ == "arch"@ || distro@ == "archlinux"@) && install_cfg.archlinux is Some
                ==> r@ == seq![SystemManager::Archlinux],
            Some(p) => (distro@ == "arch"@ || distro@ == "archlinux"@) && p.archlinux is Some
                ==> r@.len() > 0 && r@[0] == SystemManager::Archlinux,
        },
{
    proof {
        distributions_run_their_own_managers(distro@, *install_cfg);
    }
    let r = choose_managers(distro, install_cfg);
    assert(!seq![SystemManager::Apt].contains(SystemManager::Archlinux));
    r
}

/// The managers that run are managers of the distribution, in its order of
/// preference; without a section for the distribution at most one runs.
pub proof fn linux_managers_follow_precedence(distro: Seq<char>, c: InstallConfig)
    ensures
        forall|k: int|
            0 <= k < linux_managers(distro, c).len() ==> precedence(distro).contains(
                #[trigger] linux_managers(distro, c)[k],
            ) && !(linux_managers(distro, c)[k] is Winget),
        collect::declared_for(c, distro) is None ==> linux_managers(distro, c).len() <= 1,
{
    let ms = precedence(distro);
    match collect::declared_for(c, distro) {
        Some(p) => {
            lemma_declared_managers(p, ms, ms.len());
        },
        None => {
            lemma_first_manager(c, ms, 0);
        },
    }
    assert forall|m: SystemManager| ms.contains(m) implies !(m is Winget) by {}
}

proof fn lemma_declared_managers(c: PlatformInstallConfig, ms: Seq<SystemManager>, n: nat)
    requires
        n <= ms.len(),
    ensures
        forall|k: int|
            0 <= k < declared_managers(c, ms, n).len() ==> ms.contains(
                #[trigger] declared_managers(c, ms, n)[k],
            ),
    decreases n,
{
    if n > 0 {
        lemma_declared_managers(c, ms, (n - 1) as nat);
        let before = declared_managers(c, ms, (n - 1) as nat);
        assert forall|k: int| 0 <= k < declared_managers(c, ms, n).len() implies ms.contains(
            #[trigger] declared_managers(c, ms, n)[k],
        ) by {
            if k < before.len() {
                assert(declared_managers(c, ms, n)[k] == before[k]);
            }
        }
    }
}

proof fn lemma_first_manager(c: InstallConfig, ms: Seq<SystemManager>, from: int)
    requires
        0 <= from,
    ensures
        first_manager(c, ms, from).len() <= 1,
        forall|k: int|
            0 <= k < first_manager(c, ms, from).len() ==> ms.contains(
                #[trigger] first_manager(c, ms, from)[k],
            ),
    decreases ms.len() - from,
{
    if from < ms.len() && !has_top(c, ms[from]) {
        lemma_first_manager(c, ms, from + 1);
    }
}

/// One thing on the course of an installation.
#[derive(Debug, PartialEq, Eq)]
pub enum Step {
    /// Run this script in a shell.
    Script(String),
    /// Install these packages.
    Archlinux(Vec<String>),
    Apt(Vec<String>),
    /// Taps and packages.
    Brew(Vec<String>, Vec<BrewPackage>),
    Winget(Vec<WingetPackage>),
    Cargo(Vec<CargoPackage>),
    Python(Vec<PythonPackage>),
    Node(Vec<NodePackage>),
}

/// [`Step`] over text.
pub enum StepView {
    Script(Seq<char>),
    Archlinux(Seq<Seq<char>>),
    Apt(Seq<Seq<char>>),
    Brew(Seq<Seq<char>>, Seq<BrewView>),
    Winget(Seq<WingetView>),
    Cargo(Seq<CargoView>),
    Python(Seq<PythonView>),
    Node(Seq<NodeView>),
}

impl View for Step {
    type V = StepView;

    open spec fn view(&self) -> StepView {
        match *self {
            Step::Script(s) => StepView::Script(s@),
            Step::Archlinux(p) => StepView::Archlinux(package::views(p@)),
            Step::Apt(p) => StepView::Apt(package::views(p@)),
            Step::Brew(t, p) => StepView::Brew(package::views(t@), package::views(p@)),
            Step::Winget(p) => StepView::Winget(package::views(p@)),
            Step::Cargo(p) => StepView::Cargo(package::views(p@)),
            Step::Python(p) => StepView::Python(package::views(p@)),
            Step::Node(p) => StepView::Node(package::views(p@)),
        }
    }
}

/// The steps over text.
pub open spec fn steps(v: Seq<Step>) -> Seq<StepView> {
    v.map_values(|s: Step| s@)
}

/// The course of an installation: its steps, and why it fails behind them, where
/// it does.
#[derive(Debug, PartialEq, Eq)]
pub struct Course {
    pub steps: Vec<Step>,
    pub failure: Option<String>,
}

/// [`Course`] over text.
pub struct CourseView {
    pub steps: Seq<StepView>,
    pub failure: Option<Seq<char>>,
}

impl View for Course {
    type V = CourseView;

    open spec fn view(&self) -> CourseView {
        CourseView {
            steps: steps(self.steps@),
            failure: match self.failure {
                Some(f) => Some(f@),
                None => None,
            },
        }
    }
}

impl CourseView {
    /// This course and then another, unless this one fails.
    pub open spec fn and_next(self, next: CourseView) -> CourseView {
        if self.failure is Some {
            self
        } else {
            CourseView { steps: self.steps + next.steps, failure: next.failure }
        }
    }
}

/// A course of these steps.
pub open spec fn course(s: Seq<StepView>) -> CourseView {
    CourseView { steps: s, failure: None }
}

/// What is said of an overlay that is used and does not exist.
pub open spec fn not_found(name: Seq<char>) -> Seq<char> {
    "used overlay '"@ + name + "' not found"@
}

/// The course that runs scripts, where there are any.
pub open spec fn scripts(s: Option<Seq<Seq<char>>>) -> CourseView {
    match s {
        Some(l) => course(l.map_values(|t: Seq<char>| StepView::Script(t))),
        None => course(Seq::empty()),
    }
}

impl Course {
    fn new() -> (r: Self)
        ensures
            r@ == course(Seq::empty()),
    {
        let r = Course { steps: Vec::new(), failure: None };
        assert(steps(r.steps@) =~= Seq::<StepView>::empty());
        r
    }

    fn add(&mut self, step: Step)
        ensures
            final(self)@ == old(self)@.and_next(course(seq![step@])),
    {
        if self.failure.is_none() {
            self.steps.push(step);
            assert(steps(self.steps@) =~= steps(old(self).steps@) + seq![step@]);
        }
    }

    fn fail(&mut self, name: &str)
        ensures
            final(self)@ == old(self)@.and_next(
                CourseView { steps: Seq::empty(), failure: Some(not_found(name@)) },
            ),
    {
        if self.failure.is_none() {
            self.failure = Some(concat3("used overlay '", name, "' not found"));
            assert(self@.steps =~= old(self)@.steps + Seq::<StepView>::empty());
        }
    }

    fn run_scripts(&mut self, list: Option<&Vec<String>>)
        ensures
            final(self)@ == old(self)@.and_next(scripts(list_of(list))),
    {
        if let Some(l) = list {
            let ghost all = text::texts(l@).map_values(|t: Seq<char>| StepView::Script(t));
            let ghost start = self@;
            let mut i: usize = 0;
            assert(start.steps =~= start.steps + all.take(0));
            while i < l.len()
                invariant
                    i <= l@.len(),
                    all == text::texts(l@).map_values(|t: Seq<char>| StepView::Script(t)),
                    self@.failure == start.failure,
                    self@.steps == if start.failure is Some {
                        start.steps
                    } else {
                        start.steps + all.take(i as int)
                    },
                decreases l@.len() - i,
            {
                self.add(Step::Script(l[i].clone()));
                assert(all.take(i + 1) =~= all.take(i as int).push(all[i as int]));
                assert(start.steps + all.take(i + 1) =~= start.steps + all.take(i as int) + seq![
                    StepView::Script(l@[i as int]@),
                ]);
                i = i + 1;
            }
            assert(all.take(l@.len() as int) =~= all);
        } else {
            assert(self@.steps =~= self@.steps + Seq::<StepView>::empty());
        }
    }
}

/// The scripts of a list over text.
pub open spec fn list_of(list: Option<&Vec<String>>) -> Option<Seq<Seq<char>>> {
    match list {
        Some(l) => Some(text::texts(l@)),
        None => None,
    }
}

proof fn lemma_and_next(a: CourseView, b: CourseView, c: CourseView)
    ensures
        a.and_next(b).and_next(c) == a.and_next(b.and_next(c)),
{
    assert(a.steps + b.steps + c.steps =~= a.steps + (b.steps + c.steps));
}

proof fn lemma_and_nothing(a: CourseView)
    ensures
        a.and_next(course(Seq::empty())) == a,
{
    assert(a.steps + Seq::<StepView>::empty() =~= a.steps);
}

/// A course between the scripts that go before it and after it.
pub open spec fn hooked(
    pre: Option<Seq<Seq<char>>>,
    inner: CourseView,
    post: Option<Seq<Seq<char>>>,
) -> CourseView {
    scripts(pre).and_next(inner).and_next(scripts(post))
}

/// A package manager whose packages make a step of their own.
pub trait Installer: Manager {
    /// The step that installs packages.
    spec fn step_view(packages: Seq<<Self::P as View>::V>) -> StepView;

    /// The step that installs packages.
    fn step(packages: Vec<Self::P>) -> (r: Step)
        ensures
            r@ == Self::step_view(package::views(packages@)),
    ;
}

impl Installer for ArchlinuxManager {
    open spec fn step_view(packages: Seq<<String as View>::V>) -> StepView {
        StepView::Archlinux(packages)
    }

    fn step(packages: Vec<String>) -> (r: Step) {
        Step::Archlinux(packages)
    }
}

impl Installer for AptManager {
    open spec fn step_view(packages: Seq<<String as View>::V>) -> StepView {
        StepView::Apt(packages)
    }

    fn step(packages: Vec<String>) -> (r: Step) {
        Step::Apt(packages)
    }
}

impl Installer for WingetManager {
    open spec fn step_view(packages: Seq<<WingetPackage as View>::V>) -> StepView {
        StepView::Winget(packages)
    }

    fn step(packages: Vec<WingetPackage>) -> (r: Step) {
        Step::Winget(packages)
    }
}

impl Installer for CargoManager {
    open spec fn step_view(packages: Seq<<CargoPackage as View>::V>) -> StepView {
        StepView::Cargo(packages)
    }

    fn step(packages: Vec<CargoPackage>) -> (r: Step) {
        Step::Cargo(packages)
    }
}

impl Installer for PythonManager {
    open spec fn step_view(packages: Seq<<PythonPackage as View>::V>) -> StepView {
        StepView::Python(packages)
    }

    fn step(packages: Vec<PythonPackage>) -> (r: Step) {
        Step::Python(packages)
    }
}

impl Installer for NodeManager {
    open spec fn step_view(packages: Seq<<NodePackage as View>::V>) -> StepView {
        StepView::Node(packages)
    }

    fn step(packages: Vec<NodePackage>) -> (r: Step) {
        Step::Node(packages)
    }
}

/// The course that installs what the overlay `i` and everything that it uses ask
/// of a package manager.
pub open spec fn packages_course<M: Installer>(
    repo: Seq<Overlay>,
    i: int,
    platform: Platform,
) -> CourseView {
    let g = uses::gathered(overlays::overlay_nodes(repo), i);
    match g.1 {
        Some(name) => CourseView { steps: Seq::empty(), failure: Some(not_found(name)) },
        None => {
            let packages = collect::packages_of::<M>(repo, platform, g.0, g.0.len());
            if packages.len() == 0 {
                course(Seq::empty())
            } else {
                course(seq![M::step_view(packages)])
            }
        },
    }
}

/// The course that installs taps and packages of Homebrew.
pub open spec fn brew_course(repo: Seq<Overlay>, i: int, platform: Platform) -> CourseView {
    let g = uses::gathered(overlays::overlay_nodes(repo), i);
    match g.1 {
        Some(name) => CourseView { steps: Seq::empty(), failure: Some(not_found(name)) },
        None => {
            let taps = collect::packages_of::<BrewTapManager>(repo, platform, g.0, g.0.len());
            let packages = collect::packages_of::<BrewManager>(repo, platform, g.0, g.0.len());
            if taps.len() == 0 && packages.len() == 0 {
                course(Seq::empty())
            } else {
                course(seq![StepView::Brew(taps, packages)])
            }
        },
    }
}

fn run_manager<M: Installer>(
    plan: &mut Course,
    repo: &Vec<Overlay>,
    i: usize,
    platform: &Platform,
    pre: Option<&Vec<String>>,
    post: Option<&Vec<String>>,
)
    requires
        i < repo@.len(),
    ensures
        final(plan)@ == old(plan)@.and_next(
            hooked(
                list_of(pre),
                packages_course::<M>(repo@, i as int, *platform),
                list_of(post),
            ),
        ),
{
    let ghost start = plan@;
    let ghost middle = packages_course::<M>(repo@, i as int, *platform);
    plan.run_scripts(pre);
    let ghost opened = plan@;
    match collect_packages::<M>(repo, i, platform) {
        Err(name) => plan.fail(name.as_str()),
        Ok(packages) => {
            assert(package::views(packages@).len() == packages@.len());
            if packages.len() > 0 {
                plan.add(M::step(packages));
            } else {
                proof {
                    lemma_and_nothing(opened);
                }
            }
        },
    }
    assert(plan@ == opened.and_next(middle));
    proof {
        lemma_and_next(start, scripts(list_of(pre)), middle);
        lemma_and_next(start, scripts(list_of(pre)).and_next(middle), scripts(list_of(post)));
    }
    plan.run_scripts(post);
}

fn run_brew(
    plan: &mut Course,
    repo: &Vec<Overlay>,
    i: usize,
    platform: &Platform,
    pre: Option<&Vec<String>>,
    post: Option<&Vec<String>>,
)
    requires
        i < repo@.len(),
    ensures
        final(plan)@ == old(plan)@.and_next(
            hooked(list_of(pre), brew_course(repo@, i as int, *platform), list_of(post)),
        ),
{
    let ghost start = plan@;
    let ghost middle = brew_course(repo@, i as int, *platform);
    plan.run_scripts(pre);
    let ghost opened = plan@;
    match collect_packages::<BrewTapManager>(repo, i, platform) {
        Err(name) => plan.fail(name.as_str()),
        Ok(taps) => match collect_packages::<BrewManager>(repo, i, platform) {
            Err(name) => plan.fail(name.as_str()),
            Ok(packages) => {
                assert(package::views(taps@).len() == taps@.len());
                assert(package::views(packages@).len() == packages@.len());
                if taps.len() > 0 || packages.len() > 0 {
                    plan.add(Step::Brew(taps, packages));
                } else {
                    proof {
                        lemma_and_nothing(opened);
                    }
                }
            },
        },
    }
    assert(plan@ == opened.and_next(middle));
    proof {
        lemma_and_next(start, scripts(list_of(pre)), middle);
        lemma_and_next(start, scripts(list_of(pre)).and_next(middle), scripts(list_of(post)));
    }
    plan.run_scripts(post);
}

/// The course of archlinux.
pub open spec fn archlinux_run(
    repo: Seq<Overlay>,
    i: int,
    platform: Platform,
    c: InstallConfig,
    p: Option<PlatformInstallConfig>,
) -> CourseView {
    match collect::first_of(
        match p {
            Some(p) => p.archlinux,
            None => None,
        },
        c.archlinux,
    ) {
        Some(cfg) => hooked(
            config::opt_texts(cfg.pre),
            packages_course::<ArchlinuxManager>(repo, i, platform),
            config::opt_texts(cfg.post),
        ),
        None => hooked(None, packages_course::<ArchlinuxManager>(repo, i, platform), None),
    }
}

fn run_archlinux(
    plan: &mut Course,
    repo: &Vec<Overlay>,
    i: usize,
    platform: &Platform,
    c: &InstallConfig,
    p: Option<&PlatformInstallConfig>,
)
    requires
        i < repo@.len(),
    ensures
        final(plan)@ == old(plan)@.and_next(
            archlinux_run(repo@, i as int, *platform, *c, owned(p)),
        ),
{
    let own = match p {
        Some(p) => p.archlinux.as_ref(),
        None => None,
    };
    let cfg = match own {
        Some(c) => Some(c),
        None => c.archlinux.as_ref(),
    };
    match cfg {
        Some(cfg) => run_manager::<ArchlinuxManager>(plan, repo, i, platform, cfg.pre.as_ref(), cfg.post.as_ref()),
        None => run_manager::<ArchlinuxManager>(plan, repo, i, platform, None, None),
    }
}

/// The course of apt.
pub open spec fn apt_run(
    repo: Seq<Overlay>,
    i: int,
    platform: Platform,
    c: InstallConfig,
    p: Option<PlatformInstallConfig>,
) -> CourseView {
    match collect::first_of(
        match p {
            Some(p) => p.apt,
            None => None,
        },
        c.apt,
    ) {
        Some(cfg) => hooked(
            config::opt_texts(cfg.pre),
            packages_course::<AptManager>(repo, i, platform),
            config::opt_texts(cfg.post),
        ),
        None => hooked(None, packages_course::<AptManager>(repo, i, platform), None),
    }
}

fn run_apt(
    plan: &mut Course,
    repo: &Vec<Overlay>,
    i: usize,
    platform: &Platform,
    c: &InstallConfig,
    p: Option<&PlatformInstallConfig>,
)
    requires
        i < repo@.len(),
    ensures
        final(plan)@ == old(plan)@.and_next(
            apt_run(repo@, i as int, *platform, *c, owned(p)),
        ),
{
    let own = match p {
        Some(p) => p.apt.as_ref(),
        None => None,
    };
    let cfg = match own {
        Some(c) => Some(c),
        None => c.apt.as_ref(),
    };
    match cfg {
        Some(cfg) => run_manager::<AptManager>(plan, repo, i, platform, cfg.pre.as_ref(), cfg.post.as_ref()),
        None => run_manager::<AptManager>(plan, repo, i, platform, None, None),
    }
}

/// The course of brew.
pub open spec fn brew_run(
    repo: Seq<Overlay>,
    i: int,
    platform: Platform,
    c: InstallConfig,
    p: Option<PlatformInstallConfig>,
) -> CourseView {
    match collect::first_of(
        match p {
            Some(p) => p.brew,
            None => None,
        },
        c.brew,
    ) {
        Some(cfg) => hooked(
            config::opt_texts(cfg.pre),
            brew_course(repo, i, platform),
            config::opt_texts(cfg.post),
        ),
        None => hooked(None, brew_course(repo, i, platform), None),
    }
}

fn run_brew_config(
    plan: &mut Course,
    repo: &Vec<Overlay>,
    i: usize,
    platform: &Platform,
    c: &InstallConfig,
    p: Option<&PlatformInstallConfig>,
)
    requires
        i < repo@.len(),
    ensures
        final(plan)@ == old(plan)@.and_next(
            brew_run(repo@, i as int, *platform, *c, owned(p)),
        ),
{
    let own = match p {
        Some(p) => p.brew.as_ref(),
        None => None,
    };
    let cfg = match own {
        Some(c) => Some(c),
        None => c.brew.as_ref(),
    };
    match cfg {
        Some(cfg) => run_brew(plan, repo, i, platform, cfg.pre.as_ref(), cfg.post.as_ref()),
        None => run_brew(plan, repo, i, platform, None, None),
    }
}

/// The course of winget.
pub open spec fn winget_run(
    repo: Seq<Overlay>,
    i: int,
    platform: Platform,
    c: InstallConfig,
    p: Option<PlatformInstallConfig>,
) -> CourseView {
    match collect::first_of(
        match p {
            Some(p) => p.winget,
            None => None,
        },
        c.winget,
    ) {
        Some(cfg) => hooked(
            config::opt_texts(cfg.pre),
            packages_course::<WingetManager>(repo, i, platform),
            config::opt_texts(cfg.post),
        ),
        None => hooked(None, packages_course::<WingetManager>(repo, i, platform), None),
    }
}

fn run_winget(
    plan: &mut Course,
    repo: &Vec<Overlay>,
    i: usize,
    platform: &Platform,
    c: &InstallConfig,
    p: Option<&PlatformInstallConfig>,
)
    requires
        i < repo@.len(),
    ensures
        final(plan)@ == old(plan)@.and_next(
            winget_run(repo@, i as int, *platform, *c, owned(p)),
        ),
{
    let own = match p {
        Some(p) => p.winget.as_ref(),
        None => None,
    };
    let cfg = match own {
        Some(c) => Some(c),
        None => c.winget.as_ref(),
    };
    match cfg {
        Some(cfg) => run_manager::<WingetManager>(plan, repo, i, platform, cfg.pre.as_ref(), cfg.post.as_ref()),
        None => run_manager::<WingetManager>(plan, repo, i, platform, None, None),
    }
}

/// The course of cargo, where anything is declared for it.
pub open spec fn cargo_run(
    repo: Seq<Overlay>,
    i: int,
    platform: Platform,
    c: InstallConfig,
    p: Option<PlatformInstallConfig>,
) -> CourseView {
    match collect::first_of(
        match p {
            Some(p) => p.cargo,
            None => None,
        },
        c.cargo,
    ) {
        Some(cfg) => hooked(
            config::opt_texts(cfg.pre),
            packages_course::<CargoManager>(repo, i, platform),
            config::opt_texts(cfg.post),
        ),
        None => course(Seq::empty()),
    }
}

fn run_cargo(
    plan: &mut Course,
    repo: &Vec<Overlay>,
    i: usize,
    platform: &Platform,
    c: &InstallConfig,
    p: Option<&PlatformInstallConfig>,
)
    requires
        i < repo@.len(),
    ensures
        final(plan)@ == old(plan)@.and_next(
            cargo_run(repo@, i as int, *platform, *c, owned(p)),
        ),
{
    let own = match p {
        Some(p) => p.cargo.as_ref(),
        None => None,
    };
    let cfg = match own {
        Some(c) => Some(c),
        None => c.cargo.as_ref(),
    };
    match cfg {
        Some(cfg) => run_manager::<CargoManager>(plan, repo, i, platform, cfg.pre.as_ref(), cfg.post.as_ref()),
        None => {proof { lemma_and_nothing(plan@); } },
    }
}

/// The course of python, where anything is declared for it.
pub open spec fn python_run(
    repo: Seq<Overlay>,
    i: int,
    platform: Platform,
    c: InstallConfig,
    p: Option<PlatformInstallConfig>,
) -> CourseView {
    match collect::first_of(
        match p {
            Some(p) => p.python,
            None => None,
        },
        c.python,
    ) {
        Some(cfg) => hooked(
            config::opt_texts(cfg.pre),
            packages_course::<PythonManager>(repo, i, platform),
            config::opt_texts(cfg.post),
        ),
        None => course(Seq::empty()),
    }
}

fn run_python(
    plan: &mut Course,
    repo: &Vec<Overlay>,
    i: usize,
    platform: &Platform,
    c: &InstallConfig,
    p: Option<&PlatformInstallConfig>,
)
    requires
        i < repo@.len(),
    ensures
        final(plan)@ == old(plan)@.and_next(
            python_run(repo@, i as int, *platform, *c, owned(p)),
        ),
{
    let own = match p {
        Some(p) => p.python.as_ref(),
        None => None,
    };
    let cfg = match own {
        Some(c) => Some(c),
        None => c.python.as_ref(),
    };
    match cfg {
        Some(cfg) => run_manager::<PythonManager>(plan, repo, i, platform, cfg.pre.as_ref(), cfg.post.as_ref()),
        None => {proof { lemma_and_nothing(plan@); } },
    }
}

/// The course of node, where anything is declared for it.
pub open spec fn node_run(
    repo: Seq<Overlay>,
    i: int,
    platform: Platform,
    c: InstallConfig,
    p: Option<PlatformInstallConfig>,
) -> CourseView {
    match collect::first_of(
        match p {
            Some(p) => p.node,
            None => None,
        },
        c.node,
    ) {
        Some(cfg) => hooked(
            config::opt_texts(cfg.pre),
            packages_course::<NodeManager>(repo, i, platform),
            config::opt_texts(cfg.post),
        ),
        None => course(Seq::empty()),
    }
}

fn run_node(
    plan: &mut Course,
    repo: &Vec<Overlay>,
    i: usize,
    platform: &Platform,
    c: &InstallConfig,
    p: Option<&PlatformInstallConfig>,
)
    requires
        i < repo@.len(),
    ensures
        final(plan)@ == old(plan)@.and_next(
            node_run(repo@, i as int, *platform, *c, owned(p)),
        ),
{
    let own = match p {
        Some(p) => p.node.as_ref(),
        None => None,
    };
    let cfg = match own {
        Some(c) => Some(c),
        None => c.node.as_ref(),
    };
    match cfg {
        Some(cfg) => run_manager::<NodeManager>(plan, repo, i, platform, cfg.pre.as_ref(), cfg.post.as_ref()),
        None => {proof { lemma_and_nothing(plan@); } },
    }
}

/// What an optional reference points at.
pub open spec fn owned(p: Option<&PlatformInstallConfig>) -> Option<PlatformInstallConfig> {
    match p {
        Some(p) => Some(*p),
        None => None,
    }
}

/// The course of the applications of languages: cargo, python, node.
pub open spec fn language_managers(
    repo: Seq<Overlay>,
    i: int,
    platform: Platform,
    c: InstallConfig,
    p: Option<PlatformInstallConfig>,
) -> CourseView {
    cargo_run(repo, i, platform, c, p).and_next(python_run(repo, i, platform, c, p)).and_next(
        node_run(repo, i, platform, c, p),
    )
}

fn install_language_managers(
    plan: &mut Course,
    repo: &Vec<Overlay>,
    i: usize,
    platform: &Platform,
    c: &InstallConfig,
    p: Option<&PlatformInstallConfig>,
)
    requires
        i < repo@.len(),
    ensures
        final(plan)@ == old(plan)@.and_next(
            language_managers(repo@, i as int, *platform, *c, owned(p)),
        ),
{
    let ghost cargo = cargo_run(repo@, i as int, *platform, *c, owned(p));
    let ghost python = python_run(repo@, i as int, *platform, *c, owned(p));
    let ghost node = node_run(repo@, i as int, *platform, *c, owned(p));
    proof {
        lemma_and_next(plan@, cargo, python);
        lemma_and_next(plan@, cargo.and_next(python), node);
    }
    run_cargo(plan, repo, i, platform, c, p);
    run_python(plan, repo, i, platform, c, p);
    run_node(plan, repo, i, platform, c, p);
}

/// The course of one package manager of the system on Linux, where nothing is
/// done for winget.
pub open spec fn system_run(
    m: SystemManager,
    repo: Seq<Overlay>,
    i: int,
    platform: Platform,
    c: InstallConfig,
    p: Option<PlatformInstallConfig>,
) -> CourseView {
    match m {
        SystemManager::Archlinux => archlinux_run(repo, i, platform, c, p),
        SystemManager::Apt => apt_run(repo, i, platform, c, p),
        SystemManager::Brew => brew_run(repo, i, platform, c, p),
        SystemManager::Winget => course(Seq::empty()),
    }
}

/// The courses of the first `n` managers, one after the other.
pub open spec fn system_runs(
    managers: Seq<SystemManager>,
    n: nat,
    repo: Seq<Overlay>,
    i: int,
    platform: Platform,
    c: InstallConfig,
    p: Option<PlatformInstallConfig>,
) -> CourseView
    decreases n,
{
    if n == 0 {
        course(Seq::empty())
    } else {
        system_runs(managers, (n - 1) as nat, repo, i, platform, c, p).and_next(
            system_run(managers[n - 1], repo, i, platform, c, p),
        )
    }
}

/// The scripts that a platform runs before anything else.
pub open spec fn platform_pre(p: Option<PlatformInstallConfig>) -> Option<Seq<Seq<char>>> {
    match p {
        Some(p) => config::opt_texts(p.pre),
        None => None,
    }
}

/// The scripts that a platform runs after anything else.
pub open spec fn platform_post(p: Option<PlatformInstallConfig>) -> Option<Seq<Seq<char>>> {
    match p {
        Some(p) => config::opt_texts(p.post),
        None => None,
    }
}

/// The system's packages and then the applications of languages, between the
/// scripts of the overlay and of the platform.
pub open spec fn framed(
    c: InstallConfig,
    p: Option<PlatformInstallConfig>,
    system: CourseView,
    languages: CourseView,
) -> CourseView {
    hooked(
        config::opt_texts(c.pre),
        hooked(platform_pre(p), system.and_next(languages), platform_post(p)),
        config::opt_texts(c.post),
    )
}

/// The name of the Linux distribution, `linux` where it is not known.
pub open spec fn distro_of(platform: Platform) -> Seq<char> {
    match platform.distro {
        Some(d) => d@,
        None => "linux"@,
    }
}

/// The course of an installation on Linux.
pub open spec fn linux_course(repo: Seq<Overlay>, i: int, platform: Platform) -> CourseView {
    match repo[i].install {
        None => course(Seq::empty()),
        Some(c) => {
            let p = collect::declared_for(c, distro_of(platform));
            let managers = linux_managers(distro_of(platform), c);
            framed(
                c,
                p,
                system_runs(managers, managers.len(), repo, i, platform, c, p),
                language_managers(repo, i, platform, c, p),
            )
        },
    }
}

/// The course of an installation on macOS, which always asks Homebrew.
pub open spec fn macos_course(repo: Seq<Overlay>, i: int, platform: Platform) -> CourseView {
    match repo[i].install {
        None => course(Seq::empty()),
        Some(c) => {
            let p = collect::declared_for(c, "macos"@);
            framed(
                c,
                p,
                brew_run(repo, i, platform, c, p),
                language_managers(repo, i, platform, c, p),
            )
        },
    }
}

/// The course of an installation on Windows, which always asks winget.
pub open spec fn windows_course(repo: Seq<Overlay>, i: int, platform: Platform) -> CourseView {
    match repo[i].install {
        None => course(Seq::empty()),
        Some(c) => {
            let p = collect::declared_for(c, "windows"@);
            framed(
                c,
                p,
                winget_run(repo, i, platform, c, p),
                language_managers(repo, i, platform, c, p),
            )
        },
    }
}

/// Opens a course with the scripts that go before anything else.
fn open_course(c: &InstallConfig, p: Option<&PlatformInstallConfig>) -> (r: Course)
    ensures
        r@ == scripts(config::opt_texts(c.pre)).and_next(scripts(platform_pre(owned(p)))),
{
    let mut plan = Course::new();
    assert(plan@.and_next(scripts(config::opt_texts(c.pre))).steps =~= scripts(config::opt_texts(c.pre)).steps);
    plan.run_scripts(c.pre.as_ref());
    match p {
        Some(p) => plan.run_scripts(p.pre.as_ref()),
        None => plan.run_scripts(None),
    }
    plan
}

/// Closes a course with the applications of languages and with the scripts that
/// go after anything else.
fn close_course(
    plan: &mut Course,
    repo: &Vec<Overlay>,
    i: usize,
    platform: &Platform,
    c: &InstallConfig,
    p: Option<&PlatformInstallConfig>,
    Ghost(system): Ghost<CourseView>,
)
    requires
        i < repo@.len(),
        old(plan)@ == scripts(config::opt_texts(c.pre)).and_next(
            scripts(platform_pre(owned(p))),
        ).and_next(system),
    ensures
        final(plan)@ == framed(
            *c,
            owned(p),
            system,
            language_managers(repo@, i as int, *platform, *c, owned(p)),
        ),
{
    let ghost a = scripts(config::opt_texts(c.pre));
    let ghost b = scripts(platform_pre(owned(p)));
    let ghost l = language_managers(repo@, i as int, *platform, *c, owned(p));
    let ghost y = scripts(platform_post(owned(p)));
    let ghost z = scripts(config::opt_texts(c.post));
    install_language_managers(plan, repo, i, platform, c, p);
    match p {
        Some(p) => plan.run_scripts(p.post.as_ref()),
        None => plan.run_scripts(None),
    }
    plan.run_scripts(c.post.as_ref());
    proof {
        lemma_and_next(a.and_next(b), system, l);
        lemma_and_next(a, b, system.and_next(l));
        lemma_and_next(a, b.and_next(system.and_next(l)), y);
    }
}

/// The course of an installation of the overlay `i` on Linux.
pub fn install_linux(repo: &Vec<Overlay>, i: usize, platform: &Platform) -> (r: Course)
    requires
        i < repo@.len(),
    ensures
        r@ == linux_course(repo@, i as int, *platform),
{
    let distro = match &platform.distro {
        Some(d) => d.clone(),
        None => "linux".to_owned(),
    };
    let c = match &repo[i].install {
        None => return Course::new(),
        Some(c) => c,
    };
    let p = platform_config(c, distro.as_str());
    assert(owned(p) == collect::declared_for(*c, distro_of(*platform)));
    let mut plan = open_course(c, p);
    let ghost start = plan@;
    let managers = decide_linux_managers(distro.as_str(), c);
    let ghost ms = managers@;
    let mut k: usize = 0;
    proof {
        lemma_and_nothing(start);
    }
    while k < managers.len()
        invariant
            i < repo@.len(),
            ms == managers@,
            k <= ms.len(),
            plan@ == start.and_next(
                system_runs(ms, k as nat, repo@, i as int, *platform, *c, owned(p)),
            ),
        decreases ms.len() - k,
    {
        proof {
            lemma_and_next(
                start,
                system_runs(ms, k as nat, repo@, i as int, *platform, *c, owned(p)),
                system_run(ms[k as int], repo@, i as int, *platform, *c, owned(p)),
            );
        }
        match managers[k] {
            SystemManager::Archlinux => run_archlinux(&mut plan, repo, i, platform, c, p),
            SystemManager::Apt => run_apt(&mut plan, repo, i, platform, c, p),
            SystemManager::Brew => run_brew_config(&mut plan, repo, i, platform, c, p),
            SystemManager::Winget => {
                proof {
                    lemma_and_nothing(plan@);
                }
            },
        }
        k = k + 1;
    }
    let ghost system = system_runs(ms, ms.len(), repo@, i as int, *platform, *c, owned(p));
    close_course(&mut plan, repo, i, platform, c, p, Ghost(system));
    plan
}

/// The course of an installation of the overlay `i` on macOS.
pub fn install_macos(repo: &Vec<Overlay>, i: usize, platform: &Platform) -> (r: Course)
    requires
        i < repo@.len(),
    ensures
        r@ == macos_course(repo@, i as int, *platform),
{
    let c = match &repo[i].install {
        None => return Course::new(),
        Some(c) => c,
    };
    let p = platform_config(c, "macos");
    let mut plan = open_course(c, p);
    run_brew_config(&mut plan, repo, i, platform, c, p);
    let ghost system = brew_run(repo@, i as int, *platform, *c, owned(p));
    close_course(&mut plan, repo, i, platform, c, p, Ghost(system));
    plan
}

/// The course of an installation of the overlay `i` on Windows.
pub fn install_windows(repo: &Vec<Overlay>, i: usize, platform: &Platform) -> (r: Course)
    requires
        i < repo@.len(),
    ensures
        r@ == windows_course(repo@, i as int, *platform),
{
    let c = match &repo[i].install {
        None => return Course::new(),
        Some(c) => c,
    };
    let p = platform_config(c, "windows");
    let mut plan = open_course(c, p);
    run_winget(&mut plan, repo, i, platform, c, p);
    let ghost system = winget_run(repo@, i as int, *platform, *c, owned(p));
    close_course(&mut plan, repo, i, platform, c, p, Ghost(system));
    plan
}

/// The course of an installation of the overlay `i`; none on a system that is
/// not supported.
pub fn install(repo: &Vec<Overlay>, i: usize, platform: &Platform) -> (r: Option<Course>)
    requires
        i < repo@.len(),
    ensures
        match (platform.os, r) {
            (Os::Linux, Some(c)) => c@ == linux_course(repo@, i as int, *platform),
            (Os::Macos, Some(c)) => c@ == macos_course(repo@, i as int, *platform),
            (Os::Windows, Some(c)) => c@ == windows_course(repo@, i as int, *platform),
            (Os::Other, None) => true,
            _ => false,
        },
{
    match platform.os {
        Os::Linux => Some(install_linux(repo, i, platform)),
        Os::Macos => Some(install_macos(repo, i, platform)),
        Os::Windows => Some(install_windows(repo, i, platform)),
        Os::Other => None,
    }
}

/// Without a section for the distribution, one manager runs: on Ubuntu and Debian
/// that of apt, on Arch Linux that of its packages, and on another distribution the
/// first of the two that something is declared for; else Homebrew. A section for
/// the distribution runs each of these that it declares something for, Homebrew
/// last. Neither Debian nor Arch Linux runs the manager of the other.
pub proof fn distributions_run_their_own_managers(distro: Seq<char>, c: InstallConfig)
    ensures
        ({
            let section = table::lookup(table::named(c.platforms@), distro);
            let arch = distro == "arch"@ || distro == "archlinux"@;
            let debian = distro == "ubuntu"@ || distro == "debian"@;
            let managers = linux_managers(distro, c);
            &&& !(arch && debian)
            &&& match section {
                None => {
                    let by_pacman = c.archlinux is Some && !debian;
                    let by_apt = c.apt is Some && !arch && !by_pacman;
                    &&& by_pacman ==> managers == seq![SystemManager::Archlinux]
                    &&& by_apt ==> managers == seq![SystemManager::Apt]
                    &&& !by_pacman && !by_apt && c.brew is Some ==> managers
                        == seq![SystemManager::Brew]
                    &&& !by_pacman && !by_apt && c.brew is None ==> managers.len() == 0
                },
                Some(p) => {
                    &&& managers.contains(SystemManager::Archlinux) <==> (p.archlinux is Some
                        && !debian)
                    &&& managers.contains(SystemManager::Apt) <==> (p.apt is Some && !arch)
                    &&& managers.contains(SystemManager::Brew) <==> p.brew is Some
                    &&& !managers.contains(SystemManager::Winget)
                    &&& managers.no_duplicates()
                    &&& p.archlinux is Some && !debian ==> managers[0] == SystemManager::Archlinux
                    &&& p.apt is Some && debian ==> managers[0] == SystemManager::Apt
                    &&& forall|i: int, j: int|
                        0 <= i < j < managers.len() ==> (#[trigger] managers[i])
                            != SystemManager::Brew && (#[trigger] managers[j])
                            != SystemManager::Archlinux
                },
            }
        }),
{
    reveal_strlit("arch");
    reveal_strlit("archlinux");
    reveal_strlit("ubuntu");
    reveal_strlit("debian");
    assert("ubuntu"@.len() == 6 && "debian"@.len() == 6 && "arch"@.len() == 4 && "archlinux"@.len()
        == 9);
    let ms = precedence(distro);
    reveal_with_fuel(first_manager, 4);
    reveal_with_fuel(declared_managers, 4);
    if let Some(p) = table::lookup(table::named(c.platforms@), distro) {
        let r = linux_managers(distro, c);
        assert(r == declared_managers(p, ms, ms.len()));
        let one = declared_managers(p, ms, 1);
        let two = declared_managers(p, ms, 2);
        assert(ms.len() == 2 || ms.len() == 3);
        assert(has_platform(p, ms[0]) ==> one.len() == 1 && one[0] == ms[0]);
        assert(!has_platform(p, ms[0]) ==> one.len() == 0);
        assert(one.len() > 0 ==> two[0] == one[0]);
        assert(has_platform(p, ms[1]) ==> two[one.len() as int] == ms[1]);
        assert(two.len() > 0 ==> r[0] == two[0]);
        assert(two.len() > 1 ==> r[1] == two[1]);
        if ms.len() == 3 {
            assert(has_platform(p, ms[2]) ==> r[two.len() as int] == ms[2]);
        }
    }
}

/// The scripts of a list, one step for each.
pub open spec fn script_steps(list: Option<Vec<String>>) -> Seq<StepView> {
    match list {
        Some(l) => Seq::new(l@.len(), |i: int| StepView::Script(l@[i]@)),
        None => Seq::empty(),
    }
}

proof fn lemma_script_steps(list: Option<Vec<String>>)
    ensures
        scripts(config::opt_texts(list)).steps == script_steps(list),
        scripts(config::opt_texts(list)).failure is None,
{
    assert(scripts(config::opt_texts(list)).steps =~= script_steps(list));
}

/// Installing the packages of Arch Linux: the scripts before, one step with every package, where there
/// is one, and the scripts after; what the platform declares stands in for what is
/// declared for all.
pub proof fn archlinux_packages_are_installed(
    repo: Seq<Overlay>,
    i: int,
    platform: Platform,
    c: InstallConfig,
    p: Option<PlatformInstallConfig>,
)
    requires
        uses::gathered(overlays::overlay_nodes(repo), i).1 is None,
    ensures
        ({
            let run = archlinux_run(repo, i, platform, c, p);
            let order = uses::gathered(overlays::overlay_nodes(repo), i).0;
            let packages = collect::packages_of::<ArchlinuxManager>(repo, platform, order, order.len());
            let step = if packages.len() == 0 {
                Seq::empty()
            } else {
                seq![StepView::Archlinux(packages)]
            };
            let p_declares = if p is Some {
                p->0.archlinux
            } else {
                None
            };
            &&& p_declares matches Some(own) ==> run.failure is None && run.steps == script_steps(
                own.pre,
            ) + step + script_steps(own.post)
            &&& p_declares is None && c.archlinux is Some ==> run.failure is None && run.steps
                == script_steps(c.archlinux->0.pre) + step + script_steps(c.archlinux->0.post)
        }),
{
    if let Some(s) = p {
        if let Some(own) = s.archlinux {
            lemma_script_steps(own.pre);
            lemma_script_steps(own.post);
        }
    }
    if let Some(own) = c.archlinux {
        lemma_script_steps(own.pre);
        lemma_script_steps(own.post);
    }
}

/// Installing the packages of apt: the scripts before, one step with every package, where there
/// is one, and the scripts after; what the platform declares stands in for what is
/// declared for all.
pub proof fn apt_packages_are_installed(
    repo: Seq<Overlay>,
    i: int,
    platform: Platform,
    c: InstallConfig,
    p: Option<PlatformInstallConfig>,
)
    requires
        uses::gathered(overlays::overlay_nodes(repo), i).1 is None,
    ensures
        ({
            let run = apt_run(repo, i, platform, c, p);
            let order = uses::gathered(overlays::overlay_nodes(repo), i).0;
            let packages = collect::packages_of::<AptManager>(repo, platform, order, order.len());
            let step = if packages.len() == 0 {
                Seq::empty()
            } else {
                seq![StepView::Apt(packages)]
            };
            let p_declares = if p is Some {
                p->0.apt
            } else {
                None
            };
            &&& p_declares matches Some(own) ==> run.failure is None && run.steps == script_steps(
                own.pre,
            ) + step + script_steps(own.post)
            &&& p_declares is None && c.apt is Some ==> run.failure is None && run.steps
                == script_steps(c.apt->0.pre) + step + script_steps(c.apt->0.post)
        }),
{
    if let Some(s) = p {
        if let Some(own) = s.apt {
            lemma_script_steps(own.pre);
            lemma_script_steps(own.post);
        }
    }
    if let Some(own) = c.apt {
        lemma_script_steps(own.pre);
        lemma_script_steps(own.post);
    }
}

/// Installing the packages of winget: the scripts before, one step with every package, where there
/// is one, and the scripts after; what the platform declares stands in for what is
/// declared for all.
pub proof fn winget_packages_are_installed(
    repo: Seq<Overlay>,
    i: int,
    platform: Platform,
    c: InstallConfig,
    p: Option<PlatformInstallConfig>,
)
    requires
        uses::gathered(overlays::overlay_nodes(repo), i).1 is None,
    ensures
        ({
            let run = winget_run(repo, i, platform, c, p);
            let order = uses::gathered(overlays::overlay_nodes(repo), i).0;
            let packages = collect::packages_of::<WingetManager>(repo, platform, order, order.len());
            let step = if packages.len() == 0 {
                Seq::empty()
            } else {
                seq![StepView::Winget(packages)]
            };
            let p_declares = if p is Some {
                p->0.winget
            } else {
                None
            };
            &&& p_declares matches Some(own) ==> run.failure is None && run.steps == script_steps(
                own.pre,
            ) + step + script_steps(own.post)
            &&& p_declares is None && c.winget is Some ==> run.failure is None && run.steps
                == script_steps(c.winget->0.pre) + step + script_steps(c.winget->0.post)
        }),
{
    if let Some(s) = p {
        if let Some(own) = s.winget {
            lemma_script_steps(own.pre);
            lemma_script_steps(own.post);
        }
    }
    if let Some(own) = c.winget {
        lemma_script_steps(own.pre);
        lemma_script_steps(own.post);
    }
}

/// Installing crates: the scripts before, one step with every package, where there
/// is one, and the scripts after; what the platform declares stands in for what is
/// declared for all.
pub proof fn cargo_packages_are_installed(
    repo: Seq<Overlay>,
    i: int,
    platform: Platform,
    c: InstallConfig,
    p: Option<PlatformInstallConfig>,
)
    requires
        uses::gathered(overlays::overlay_nodes(repo), i).1 is None,
    ensures
        ({
            let run = cargo_run(repo, i, platform, c, p);
            let order = uses::gathered(overlays::overlay_nodes(repo), i).0;
            let packages = collect::packages_of::<CargoManager>(repo, platform, order, order.len());
            let step = if packages.len() == 0 {
                Seq::empty()
            } else {
                seq![StepView::Cargo(packages)]
            };
            let p_declares = if p is Some {
                p->0.cargo
            } else {
                None
            };
            &&& p_declares matches Some(own) ==> run.failure is None && run.steps == script_steps(
                own.pre,
            ) + step + script_steps(own.post)
            &&& p_declares is None && c.cargo is Some ==> run.failure is None && run.steps
                == script_steps(c.cargo->0.pre) + step + script_steps(c.cargo->0.post)
            &&& p_declares is None && c.cargo is None ==> run.steps.len() == 0 && run.failure is None
        }),
{
    if let Some(s) = p {
        if let Some(own) = s.cargo {
            lemma_script_steps(own.pre);
            lemma_script_steps(own.post);
        }
    }
    if let Some(own) = c.cargo {
        lemma_script_steps(own.pre);
        lemma_script_steps(own.post);
    }
}

/// Installing the packages of Python: the scripts before, one step with every package, where there
/// is one, and the scripts after; what the platform declares stands in for what is
/// declared for all.
pub proof fn python_packages_are_installed(
    repo: Seq<Overlay>,
    i: int,
    platform: Platform,
    c: InstallConfig,
    p: Option<PlatformInstallConfig>,
)
    requires
        uses::gathered(overlays::overlay_nodes(repo), i).1 is None,
    ensures
        ({
            let run = python_run(repo, i, platform, c, p);
            let order = uses::gathered(overlays::overlay_nodes(repo), i).0;
            let packages = collect::packages_of::<PythonManager>(repo, platform, order, order.len());
            let step = if packages.len() == 0 {
                Seq::empty()
            } else {
                seq![StepView::Python(packages)]
            };
            let p_declares = if p is Some {
                p->0.python
            } else {
                None
            };
            &&& p_declares matches Some(own) ==> run.failure is None && run.steps == script_steps(
                own.pre,
            ) + step + script_steps(own.post)
            &&& p_declares is None && c.python is Some ==> run.failure is None && run.steps
                == script_steps(c.python->0.pre) + step + script_steps(c.python->0.post)
            &&& p_declares is None && c.python is None ==> run.steps.len() == 0 && run.failure is None
        }),
{
    if let Some(s) = p {
        if let Some(own) = s.python {
            lemma_script_steps(own.pre);
            lemma_script_steps(own.post);
        }
    }
    if let Some(own) = c.python {
        lemma_script_steps(own.pre);
        lemma_script_steps(own.post);
    }
}

/// Installing the packages of Node: the scripts before, one step with every package, where there
/// is one, and the scripts after; what the platform declares stands in for what is
/// declared for all.
pub proof fn node_packages_are_installed(
    repo: Seq<Overlay>,
    i: int,
    platform: Platform,
    c: InstallConfig,
    p: Option<PlatformInstallConfig>,
)
    requires
        uses::gathered(overlays::overlay_nodes(repo), i).1 is None,
    ensures
        ({
            let run = node_run(repo, i, platform, c, p);
            let order = uses::gathered(overlays::overlay_nodes(repo), i).0;
            let packages = collect::packages_of::<NodeManager>(repo, platform, order, order.len());
            let step = if packages.len() == 0 {
                Seq::empty()
            } else {
                seq![StepView::Node(packages)]
            };
            let p_declares = if p is Some {
                p->0.node
            } else {
                None
            };
            &&& p_declares matches Some(own) ==> run.failure is None && run.steps == script_steps(
                own.pre,
            ) + step + script_steps(own.post)
            &&& p_declares is None && c.node is Some ==> run.failure is None && run.steps
                == script_steps(c.node->0.pre) + step + script_steps(c.node->0.post)
            &&& p_declares is None && c.node is None ==> run.steps.len() == 0 && run.failure is None
        }),
{
    if let Some(s) = p {
        if let Some(own) = s.node {
            lemma_script_steps(own.pre);
            lemma_script_steps(own.post);
        }
    }
    if let Some(own) = c.node {
        lemma_script_steps(own.pre);
        lemma_script_steps(own.post);
    }
}

/// Installing with Homebrew: the scripts before, one step with every tap and every
/// package, where there is one, and the scripts after; what the platform declares
/// stands in for what is declared for all.
pub proof fn brew_packages_are_installed(
    repo: Seq<Overlay>,
    i: int,
    platform: Platform,
    c: InstallConfig,
    p: Option<PlatformInstallConfig>,
)
    requires
        uses::gathered(overlays::overlay_nodes(repo), i).1 is None,
    ensures
        ({
            let run = brew_run(repo, i, platform, c, p);
            let order = uses::gathered(overlays::overlay_nodes(repo), i).0;
            let taps = collect::packages_of::<BrewTapManager>(repo, platform, order, order.len());
            let packages = collect::packages_of::<BrewManager>(repo, platform, order, order.len());
            let step = if taps.len() == 0 && packages.len() == 0 {
                Seq::empty()
            } else {
                seq![StepView::Brew(taps, packages)]
            };
            let p_declares = if p is Some {
                p->0.brew
            } else {
                None
            };
            &&& p_declares matches Some(own) ==> run.failure is None && run.steps == script_steps(
                own.pre,
            ) + step + script_steps(own.post)
            &&& p_declares is None && c.brew is Some ==> run.failure is None && run.steps
                == script_steps(c.brew->0.pre) + step + script_steps(c.brew->0.post)
        }),
{
    if let Some(s) = p {
        if let Some(own) = s.brew {
            lemma_script_steps(own.pre);
            lemma_script_steps(own.post);
        }
    }
    if let Some(own) = c.brew {
        lemma_script_steps(own.pre);
        lemma_script_steps(own.post);
    }
}

proof fn lemma_runs_go_well(
    m: SystemManager,
    repo: Seq<Overlay>,
    i: int,
    platform: Platform,
    c: InstallConfig,
    p: Option<PlatformInstallConfig>,
)
    requires
        uses::gathered(overlays::overlay_nodes(repo), i).1 is None,
    ensures
        system_run(m, repo, i, platform, c, p).failure is None,
        brew_run(repo, i, platform, c, p).failure is None,
        winget_run(repo, i, platform, c, p).failure is None,
        cargo_run(repo, i, platform, c, p).failure is None,
        python_run(repo, i, platform, c, p).failure is None,
        node_run(repo, i, platform, c, p).failure is None,
{
}

proof fn lemma_system_runs_go_well(
    managers: Seq<SystemManager>,
    n: nat,
    repo: Seq<Overlay>,
    i: int,
    platform: Platform,
    c: InstallConfig,
    p: Option<PlatformInstallConfig>,
)
    requires
        uses::gathered(overlays::overlay_nodes(repo), i).1 is None,
    ensures
        system_runs(managers, n, repo, i, platform, c, p).failure is None,
    decreases n,
{
    if n > 0 {
        lemma_system_runs_go_well(managers, (n - 1) as nat, repo, i, platform, c, p);
        lemma_runs_go_well(managers[n - 1], repo, i, platform, c, p);
    }
}

/// Managers run one after the other: each adds what it does to what those before it
/// did.
pub proof fn managers_run_in_turn(
    managers: Seq<SystemManager>,
    n: nat,
    repo: Seq<Overlay>,
    i: int,
    platform: Platform,
    c: InstallConfig,
    p: Option<PlatformInstallConfig>,
)
    requires
        uses::gathered(overlays::overlay_nodes(repo), i).1 is None,
        n < managers.len(),
    ensures
        ({
            let before = system_runs(managers, n, repo, i, platform, c, p).steps;
            let after = system_runs(managers, n + 1, repo, i, platform, c, p).steps;
            &&& managers[n as int] is Archlinux ==> after == before + archlinux_run(
                repo,
                i,
                platform,
                c,
                p,
            ).steps
            &&& managers[n as int] is Apt ==> after == before + apt_run(repo, i, platform, c, p).steps
            &&& managers[n as int] is Brew ==> after == before + brew_run(
                repo,
                i,
                platform,
                c,
                p,
            ).steps
        }),
        system_runs(managers, 0, repo, i, platform, c, p).steps.len() == 0,
{
    lemma_system_runs_go_well(managers, n, repo, i, platform, c, p);
    lemma_runs_go_well(managers[n as int], repo, i, platform, c, p);
}

/// The course of an installation, where every overlay that is used exists: the
/// scripts before everything, those before the platform, the managers of the
/// platform, then crates, packages of Python and packages of Node, the scripts after
/// the platform and those after everything. On Linux the managers are those of the
/// distribution, on macOS Homebrew, on Windows winget. An overlay without an
/// installation has an empty course.
pub proof fn installations_run_their_course(repo: Seq<Overlay>, i: int, platform: Platform)
    requires
        uses::gathered(overlays::overlay_nodes(repo), i).1 is None,
    ensures
        repo[i].install is None ==> linux_course(repo, i, platform).steps.len() == 0
            && macos_course(repo, i, platform).steps.len() == 0 && windows_course(
            repo,
            i,
            platform,
        ).steps.len() == 0,
        repo[i].install matches Some(c) ==> {
            let distro = match platform.distro {
                Some(d) => d@,
                None => "linux"@,
            };
            let on = |key: Seq<char>| table::lookup(table::named(c.platforms@), key);
            let opening = |p: Option<PlatformInstallConfig>|
                script_steps(c.pre) + (if p is Some {
                    script_steps(p->0.pre)
                } else {
                    Seq::empty()
                });
            let closing = |p: Option<PlatformInstallConfig>|
                cargo_run(repo, i, platform, c, p).steps + python_run(
                    repo,
                    i,
                    platform,
                    c,
                    p,
                ).steps + node_run(repo, i, platform, c, p).steps + (if p is Some {
                    script_steps(p->0.post)
                } else {
                    Seq::empty()
                }) + script_steps(c.post);
            let managers = linux_managers(distro, c);
            &&& linux_course(repo, i, platform).failure is None
            &&& macos_course(repo, i, platform).failure is None
            &&& windows_course(repo, i, platform).failure is None
            &&& linux_course(repo, i, platform).steps == opening(on(distro)) + system_runs(
                managers,
                managers.len(),
                repo,
                i,
                platform,
                c,
                on(distro),
            ).steps + closing(on(distro))
            &&& macos_course(repo, i, platform).steps == opening(on("macos"@)) + brew_run(
                repo,
                i,
                platform,
                c,
                on("macos"@),
            ).steps + closing(on("macos"@))
            &&& windows_course(repo, i, platform).steps == opening(on("windows"@)) + winget_run(
                repo,
                i,
                platform,
                c,
                on("windows"@),
            ).steps + closing(on("windows"@))
        },
{
    if let Some(c) = repo[i].install {
        let distro = distro_of(platform);
        let managers = linux_managers(distro, c);
        let p = table::lookup(table::named(c.platforms@), distro);
        let m = table::lookup(table::named(c.platforms@), "macos"@);
        let w = table::lookup(table::named(c.platforms@), "windows"@);
        lemma_system_runs_go_well(managers, managers.len(), repo, i, platform, c, p);
        lemma_runs_go_well(SystemManager::Apt, repo, i, platform, c, p);
        lemma_runs_go_well(SystemManager::Apt, repo, i, platform, c, m);
        lemma_runs_go_well(SystemManager::Apt, repo, i, platform, c, w);
        lemma_framed_steps(
            c,
            p,
            system_runs(managers, managers.len(), repo, i, platform, c, p),
            repo,
            i,
            platform,
        );
        lemma_framed_steps(c, m, brew_run(repo, i, platform, c, m), repo, i, platform);
        lemma_framed_steps(c, w, winget_run(repo, i, platform, c, w), repo, i, platform);
    }
}

proof fn lemma_framed_steps(
    c: InstallConfig,
    p: Option<PlatformInstallConfig>,
    system: CourseView,
    repo: Seq<Overlay>,
    i: int,
    platform: Platform,
)
    requires
        uses::gathered(overlays::overlay_nodes(repo), i).1 is None,
        system.failure is None,
    ensures
        ({
            let all = framed(c, p, system, language_managers(repo, i, platform, c, p));
            &&& all.failure is None
            &&& all.steps == (script_steps(c.pre) + (if p is Some {
                script_steps(p->0.pre)
            } else {
                Seq::empty()
            })) + system.steps + (cargo_run(repo, i, platform, c, p).steps + python_run(
                repo,
                i,
                platform,
                c,
                p,
            ).steps + node_run(repo, i, platform, c, p).steps + (if p is Some {
                script_steps(p->0.post)
            } else {
                Seq::empty()
            }) + script_steps(c.post))
        }),
{
    lemma_script_steps(c.pre);
    lemma_script_steps(c.post);
    if let Some(own) = p {
        lemma_script_steps(own.pre);
        lemma_script_steps(own.post);
    }
    lemma_runs_go_well(SystemManager::Apt, repo, i, platform, c, p);
    let x = if p is Some {
        script_steps(p->0.pre)
    } else {
        Seq::<StepView>::empty()
    };
    let y = if p is Some {
        script_steps(p->0.post)
    } else {
        Seq::<StepView>::empty()
    };
    assert(scripts(platform_pre(p)).steps =~= x);
    assert(scripts(platform_post(p)).steps =~= y);
    lemma_flat_steps(
        scripts(config::opt_texts(c.pre)),
        scripts(platform_pre(p)),
        system,
        language_managers(repo, i, platform, c, p),
        scripts(platform_post(p)),
        scripts(config::opt_texts(c.post)),
    );
}

proof fn lemma_flat_steps(
    a: CourseView,
    b: CourseView,
    s: CourseView,
    l: CourseView,
    y: CourseView,
    z: CourseView,
)
    requires
        a.failure is None,
        b.failure is None,
        s.failure is None,
        l.failure is None,
        y.failure is None,
        z.failure is None,
    ensures
        ({
            let inner = b.and_next(s.and_next(l)).and_next(y);
            let all = a.and_next(inner).and_next(z);
            &&& all.failure is None
            &&& all.steps == (a.steps + b.steps) + s.steps + (l.steps + y.steps + z.steps)
        }),
{
    assert(a.steps + (b.steps + (s.steps + l.steps) + y.steps) + z.steps =~= (a.steps + b.steps)
        + s.steps + (l.steps + y.steps + z.steps));
}

/// Where an overlay that is used does not exist, a manager that runs fails the
/// installation with its name and installs nothing.
pub proof fn missing_overlays_fail_the_installation<M: Installer>(
    repo: Seq<Overlay>,
    i: int,
    platform: Platform,
)
    ensures
        uses::gathered(overlays::overlay_nodes(repo), i).1 matches Some(name) ==> {
            &&& packages_course::<M>(repo, i, platform).steps.len() == 0
            &&& packages_course::<M>(repo, i, platform).failure == Some(
                "used overlay '"@ + name + "' not found"@,
            )
            &&& brew_course(repo, i, platform).steps.len() == 0
            &&& brew_course(repo, i, platform).failure == Some(
                "used overlay '"@ + name + "' not found"@,
            )
        },
{
}

/// A course that fails goes no further, and one that does not goes on with the next.
pub proof fn failed_courses_stop(a: CourseView, b: CourseView)
    ensures
        a.failure is Some ==> a.and_next(b).steps == a.steps && a.and_next(b).failure == a.failure,
        a.failure is None ==> a.steps.is_prefix_of(a.and_next(b).steps) && b.steps.is_suffix_of(
            a.and_next(b).steps,
        ) && a.and_next(b).steps.len() == a.steps.len() + b.steps.len() && a.and_next(b).failure
            == b.failure,
{
    let r = a.and_next(b).steps;
    if a.failure is None {
        assert(a.steps =~= r.subrange(0, a.steps.len() as int));
        assert(b.steps =~= r.subrange(r.len() - b.steps.len(), r.len() as int));
    }
}

/// The distribution is named by the first line that starts with `ID=`, without
/// quotes.
pub proof fn distributions_are_named_by_their_id(before: Seq<Seq<char>>, id: Seq<char>, after: Seq<Seq<char>>)
    requires
        forall|k: int| 0 <= k < before.len() ==> !"ID="@.is_prefix_of(#[trigger] before[k]),
        id.len() > 0,
        id[0] != '"',
        id.last() != '"',
    ensures
        id_line(before.push("ID="@ + id) + after, 0) == Some(id),
        id_line(before.push("ID=\""@ + id + "\""@) + after, 0) == Some(id),
        id_line(before, 0) is None,
{
    reveal_strlit("ID=");
    reveal_strlit("ID=\"");
    reveal_strlit("\"");
    let a = "ID="@ + id;
    let b = "ID=\""@ + id + "\""@;
    lemma_id_line(before, before.push(a) + after, 0);
    lemma_id_line(before, before.push(b) + after, 0);
    lemma_id_line(before, before, 0);
    let n = before.len() as int;
    assert((before.push(a) + after)[n] == a);
    assert((before.push(b) + after)[n] == b);
    assert(a.subrange(0, 3) =~= "ID="@);
    assert(b.subrange(0, 3) =~= "ID="@);
    assert(a.skip(3) =~= id);
    let quoted = id.push('"');
    assert(b.skip(3) =~= seq!['"'] + quoted);
    reveal_with_fuel(text::trim_start, 3);
    reveal_with_fuel(text::trim_end, 3);
    assert((seq!['"'] + quoted).drop_first() =~= quoted);
    assert(quoted.drop_last() =~= id);
    assert(quoted[0] == id[0]);
}

proof fn lemma_id_line(before: Seq<Seq<char>>, lines: Seq<Seq<char>>, from: int)
    requires
        before.is_prefix_of(lines),
        0 <= from <= before.len(),
        forall|k: int| 0 <= k < before.len() ==> !"ID="@.is_prefix_of(#[trigger] before[k]),
    ensures
        id_line(lines, from) == id_line(lines, before.len() as int),
    decreases before.len() - from,
{
    if from < before.len() {
        assert(lines[from] == before[from]);
        lemma_id_line(before, lines, from + 1);
    }
}

/// The managers that a platform declares are those with a section of its own, in
/// their order.
pub proof fn managers_with_a_section_are_declared(
    c: PlatformInstallConfig,
    managers: Seq<SystemManager>,
    n: nat,
)
    requires
        n <= managers.len(),
    ensures
        declared_managers(c, managers, n) == managers.take(n as int).filter(
            |m: SystemManager|
                (m is Archlinux && c.archlinux is Some) || (m is Apt && c.apt is Some) || (m is Brew
                    && c.brew is Some) || (m is Winget && c.winget is Some),
        ),
    decreases n,
{
    reveal(Seq::filter);
    if n > 0 {
        managers_with_a_section_are_declared(c, managers, (n - 1) as nat);
        assert(managers.take(n as int).drop_last() =~= managers.take(n - 1));
        assert(managers.take(n as int).last() == managers[n - 1]);
    }
}

/// Of the managers of a distribution the first runs that something is declared for,
/// and no other.
pub proof fn the_first_declared_manager_runs(
    c: InstallConfig,
    managers: Seq<SystemManager>,
    from: int,
    k: int,
)
    requires
        0 <= from <= k <= managers.len(),
        k < managers.len() ==> (managers[k] is Archlinux && c.archlinux is Some) || (
        managers[k] is Apt && c.apt is Some) || (managers[k] is Brew && c.brew is Some) || (
        managers[k] is Winget && c.winget is Some),
        forall|i: int|
            from <= i < k ==> {
                let m = #[trigger] managers[i];
                &&& m is Archlinux ==> c.archlinux is None
                &&& m is Apt ==> c.apt is None
                &&& m is Brew ==> c.brew is None
                &&& m is Winget ==> c.winget is None
            },
    ensures
        k < managers.len() ==> first_manager(c, managers, from) == seq![managers[k]],
        k == managers.len() ==> first_manager(c, managers, from).len() == 0,
    decreases k - from,
{
    if from < k {
        assert(!has_top(c, managers[from]));
        the_first_declared_manager_runs(c, managers, from + 1, k);
    }
}

/// An overlay that is used and not there is named.
pub proof fn missing_overlays_are_named(name: Seq<char>)
    ensures
        ("used overlay '"@ + name + "'"@).is_prefix_of(not_found(name)),
        " not found"@.is_suffix_of(not_found(name)),
{
    reveal_strlit("'");
    reveal_strlit(" not found");
    reveal_strlit("' not found");
    let a = "used overlay '"@ + name + "'"@;
    let r = not_found(name);
    assert(r.subrange(0, a.len() as int) =~= a);
    assert(r.subrange(r.len() - 10, r.len() as int) =~= " not found"@);
}

} // verus!
