//! The commands that install packages.

use crate::actions::install::config::{
    BrewPackage, BrewView, CargoPackage, CargoView, NodePackage, NodeView,
    PythonPackage, PythonTool, PythonView, WingetPackage, WingetView,
};
use crate::actions::install::package;
use crate::text;
use crate::text::{concat2, join_texts, same, split_words};
use vstd::prelude::*;

verus! {

/// A command with its arguments.
#[derive(Debug, PartialEq, Eq)]
pub struct Command {
    pub program: String,
    pub args: Vec<String>,
}

/// [`Command`] over text.
pub struct CommandView {
    pub program: Seq<char>,
    pub args: Seq<Seq<char>>,
}

impl View for Command {
    type V = CommandView;

    open spec fn view(&self) -> CommandView {
        CommandView { program: self.program@, args: text::texts(self.args@) }
    }
}

impl CommandView {
    /// The command on one line.
    pub open spec fn line(self) -> Seq<char> {
        self.program + " "@ + text::join(self.args, " "@)
    }
}

impl Command {
    /// The command on one line.
    pub fn line(&self) -> (r: String)
        ensures
            r@ == self@.line(),
    {
        let mut r = concat2(self.program.as_str(), " ");
        let args = join_texts(&self.args, " ");
        r.append(args.as_str());
        r
    }

    /// What is said of a command that failed.
    pub fn failure(&self) -> (r: String)
        ensures
            r@ == "Command failed: "@ + self@.line(),
    {
        let line = self.line();
        concat2("Command failed: ", line.as_str())
    }
}

/// Something to do about packages.
#[derive(Debug, PartialEq, Eq)]
pub enum Action {
    /// Run this.
    Run(Command),
    /// Tell the user.
    Warn(String),
}

/// [`Action`] over text.
pub enum ActionView {
    Run(CommandView),
    Warn(Seq<char>),
}

impl View for Action {
    type V = ActionView;

    open spec fn view(&self) -> ActionView {
        match *self {
            Action::Run(c) => ActionView::Run(c@),
            Action::Warn(m) => ActionView::Warn(m@),
        }
    }
}

/// The actions over text.
pub open spec fn actions(v: Seq<Action>) -> Seq<ActionView> {
    v.map_values(|a: Action| a@)
}

/// The action that runs `program` with `args`.
pub open spec fn run(program: Seq<char>, args: Seq<Seq<char>>) -> ActionView {
    ActionView::Run(CommandView { program, args })
}

fn push(args: &mut Vec<String>, s: &str)
    ensures
        text::texts(final(args)@) == text::texts(old(args)@).push(s@),
{
    args.push(s.to_owned());
    assert(text::texts(args@) =~= text::texts(old(args)@).push(s@));
}

fn push_all(args: &mut Vec<String>, more: &Vec<String>)
    ensures
        text::texts(final(args)@) == text::texts(old(args)@) + text::texts(more@),
{
    let ghost start = text::texts(args@);
    let mut i: usize = 0;
    assert(start =~= start + text::texts(more@).take(0));
    while i < more.len()
        invariant
            i <= more@.len(),
            text::texts(args@) == start + text::texts(more@).take(i as int),
        decreases more@.len() - i,
    {
        push(args, more[i].as_str());
        assert(text::texts(args@) =~= start + text::texts(more@).take(i + 1));
        i = i + 1;
    }
    assert(text::texts(more@).take(more@.len() as int) =~= text::texts(more@));
}

/// The words of options that may be missing.
pub open spec fn option_words(o: Option<Seq<char>>) -> Seq<Seq<char>> {
    match o {
        Some(s) => text::words(s),
        None => Seq::empty(),
    }
}

fn push_words(args: &mut Vec<String>, options: &Option<String>)
    ensures
        text::texts(final(args)@) == text::texts(old(args)@) + option_words(text::opt_text(*options)),
{
    match options {
        Some(o) => {
            let more = split_words(o.as_str());
            push_all(args, &more);
        },
        None => {
            assert(text::texts(args@) =~= text::texts(args@) + Seq::<Seq<char>>::empty());
        },
    }
}

fn push_flag(args: &mut Vec<String>, name: &str, value: &Option<String>)
    ensures
        text::texts(final(args)@) == text::texts(old(args)@) + flag(name@, text::opt_text(*value)),
{
    match value {
        Some(v) => {
            push(args, name);
            push(args, v.as_str());
            assert(text::texts(args@) =~= text::texts(old(args)@) + flag(name@, text::opt_text(*value)));
        },
        None => {
            assert(text::texts(args@) =~= text::texts(args@) + Seq::<Seq<char>>::empty());
        },
    }
}

/// A flag with its value, where there is one.
pub open spec fn flag(name: Seq<char>, value: Option<Seq<char>>) -> Seq<Seq<char>> {
    match value {
        Some(v) => seq![name, v],
        None => Seq::empty(),
    }
}

/// A text that may be missing, as a list.
pub open spec fn maybe(value: Option<Seq<char>>) -> Seq<Seq<char>> {
    match value {
        Some(v) => seq![v],
        None => Seq::empty(),
    }
}

fn push_maybe(args: &mut Vec<String>, value: &Option<String>)
    ensures
        text::texts(final(args)@) == text::texts(old(args)@) + maybe(text::opt_text(*value)),
{
    match value {
        Some(v) => {
            push(args, v.as_str());
            assert(text::texts(args@) =~= text::texts(old(args)@) + maybe(text::opt_text(*value)));
        },
        None => {
            assert(text::texts(args@) =~= text::texts(args@) + Seq::<Seq<char>>::empty());
        },
    }
}

fn command(program: &str, args: Vec<String>) -> (r: Action)
    ensures
        r@ == run(program@, text::texts(args@)),
{
    Action::Run(Command { program: program.to_owned(), args })
}

fn one(a: Action) -> (r: Vec<Action>)
    ensures
        actions(r@) == seq![a@],
{
    let r = vec![a];
    assert(actions(r@) =~= seq![a@]);
    r
}

fn none() -> (r: Vec<Action>)
    ensures
        actions(r@) == Seq::<ActionView>::empty(),
{
    let r: Vec<Action> = Vec::new();
    assert(actions(r@) =~= Seq::<ActionView>::empty());
    r
}

/// The helpers for packages of Arch Linux.
#[derive(Debug, Clone, Copy, PartialEq, Eq, Structural)]
pub enum ArchHelper {
    Yay,
    Paru,
    Pacman,
}

/// The helper that is used, given which are there: the first in their order.
pub fn arch_helper(yay: bool, paru: bool, pacman: bool) -> (r: Option<ArchHelper>)
    ensures
        r == if yay {
            Some(ArchHelper::Yay)
        } else if paru {
            Some(ArchHelper::Paru)
        } else if pacman {
            Some(ArchHelper::Pacman)
        } else {
            None
        },
{
    if yay {
        Some(ArchHelper::Yay)
    } else if paru {
        Some(ArchHelper::Paru)
    } else if pacman {
        Some(ArchHelper::Pacman)
    } else {
        None
    }
}

/// What installs packages of Arch Linux: `pacman` needs to be run as root.
pub open spec fn arch_actions(
    helper: Option<ArchHelper>,
    verbose: bool,
    pkgs: Seq<Seq<char>>,
) -> Seq<ActionView> {
    let args = seq!["-S"@, "--needed"@] + pkgs;
    if pkgs.len() == 0 {
        Seq::empty()
    } else {
        match helper {
            Some(ArchHelper::Yay) => seq![run("yay"@, args)],
            Some(ArchHelper::Paru) => seq![run("paru"@, args)],
            Some(ArchHelper::Pacman) => seq![run("sudo"@, seq!["pacman"@] + args)],
            None => if verbose {
                seq![
                    ActionView::Warn("No arch package manager found for archlinux packages"@),
                ]
            } else {
                Seq::empty()
            },
        }
    }
}

/// What installs packages of Arch Linux.
pub fn install_arch_pkgs(helper: Option<ArchHelper>, verbose: bool, pkgs: &Vec<String>) -> (r: Vec<
    Action,
>)
    ensures
        actions(r@) == arch_actions(helper, verbose, text::texts(pkgs@)),
{
    assert(text::texts(pkgs@).len() == pkgs@.len());
    if pkgs.len() == 0 {
        return none();
    }
    match helper {
        Some(h) => {
            let mut args: Vec<String> = Vec::new();
            if h == ArchHelper::Pacman {
                push(&mut args, "pacman");
            }
            push(&mut args, "-S");
            push(&mut args, "--needed");
            push_all(&mut args, pkgs);
            let ghost tail = seq!["-S"@, "--needed"@] + text::texts(pkgs@);
            match h {
                ArchHelper::Yay => {
                    assert(text::texts(args@) =~= tail);
                    one(command("yay", args))
                },
                ArchHelper::Paru => {
                    assert(text::texts(args@) =~= tail);
                    one(command("paru", args))
                },
                ArchHelper::Pacman => {
                    assert(text::texts(args@) =~= seq!["pacman"@] + tail);
                    one(command("sudo", args))
                },
            }
        },
        None => {
            if verbose {
                one(
                    Action::Warn(
                        "No arch package manager found for archlinux packages".to_owned(),
                    ),
                )
            } else {
                none()
            }
        },
    }
}

/// What installs packages of apt.
pub open spec fn apt_actions(pkgs: Seq<Seq<char>>) -> Seq<ActionView> {
    if pkgs.len() == 0 {
        Seq::empty()
    } else {
        seq![
            run("sudo"@, seq!["apt-get"@, "update"@]),
            run("sudo"@, seq!["apt-get"@, "install"@, "-y"@] + pkgs),
        ]
    }
}

/// What installs packages of apt.
pub fn install_apt_pkgs(pkgs: &Vec<String>) -> (r: Vec<Action>)
    ensures
        actions(r@) == apt_actions(text::texts(pkgs@)),
{
    assert(text::texts(pkgs@).len() == pkgs@.len());
    if pkgs.len() == 0 {
        return none();
    }
    let mut update: Vec<String> = Vec::new();
    push(&mut update, "apt-get");
    push(&mut update, "update");
    let mut install: Vec<String> = Vec::new();
    push(&mut install, "apt-get");
    push(&mut install, "install");
    push(&mut install, "-y");
    push_all(&mut install, pkgs);
    assert(text::texts(update@) =~= seq!["apt-get"@, "update"@]);
    assert(text::texts(install@) =~= seq!["apt-get"@, "install"@, "-y"@] + text::texts(pkgs@));
    let r = vec![command("sudo", update), command("sudo", install)];
    assert(actions(r@) =~= apt_actions(text::texts(pkgs@)));
    r
}

/// `l` without every `w`.
pub open spec fn without(l: Seq<Seq<char>>, w: Seq<char>) -> Seq<Seq<char>>
    decreases l.len(),
{
    if l.len() == 0 {
        Seq::empty()
    } else if l.last() == w {
        without(l.drop_last(), w)
    } else {
        without(l.drop_last(), w).push(l.last())
    }
}

/// The command that installs a Homebrew package. The flag for casks is given once,
/// even where the options hold it too.
pub open spec fn brew_command(p: BrewView) -> ActionView {
    let cask = p.cask == Some(true);
    run(
        "brew"@,
        seq!["install"@] + (if cask {
            seq!["--cask"@]
        } else {
            Seq::empty()
        }) + (if cask {
            without(option_words(p.options), "--cask"@)
        } else {
            option_words(p.options)
        }) + seq![p.name],
    )
}

/// What installs taps and packages of Homebrew.
pub open spec fn brew_actions(
    brew: bool,
    taps: Seq<Seq<char>>,
    pkgs: Seq<BrewView>,
) -> Seq<ActionView> {
    if taps.len() == 0 && pkgs.len() == 0 {
        Seq::empty()
    } else if !brew {
        seq![ActionView::Warn("brew not found"@)]
    } else {
        taps.map_values(|t: Seq<char>| run("brew"@, seq!["tap"@, t])) + pkgs.map_values(
            |p: BrewView| brew_command(p),
        )
    }
}

fn push_without(args: &mut Vec<String>, more: &Vec<String>, w: &str)
    ensures
        text::texts(final(args)@) == text::texts(old(args)@) + without(text::texts(more@), w@),
{
    let ghost start = text::texts(args@);
    let ghost all = text::texts(more@);
    let mut i: usize = 0;
    assert(start =~= start + without(all.take(0), w@));
    while i < more.len()
        invariant
            i <= more@.len(),
            all == text::texts(more@),
            text::texts(args@) == start + without(all.take(i as int), w@),
        decreases more@.len() - i,
    {
        assert(all.take(i + 1).drop_last() =~= all.take(i as int));
        assert(all.take(i + 1).last() == more@[i as int]@);
        if !same(more[i].as_str(), w) {
            push(args, more[i].as_str());
        }
        assert(text::texts(args@) =~= start + without(all.take(i + 1), w@));
        i = i + 1;
    }
    assert(all.take(more@.len() as int) =~= all);
}

fn brew_install(p: &BrewPackage) -> (r: Action)
    ensures
        r@ == brew_command(p@),
{
    let cask = match p.cask {
        Some(b) => b,
        None => false,
    };
    let mut args: Vec<String> = Vec::new();
    push(&mut args, "install");
    if cask {
        push(&mut args, "--cask");
        if let Some(o) = &p.options {
            let more = split_words(o.as_str());
            push_without(&mut args, &more, "--cask");
        }
    } else {
        push_words(&mut args, &p.options);
    }
    push(&mut args, p.name.as_str());
    assert(text::texts(args@) =~= brew_command(p@)->Run_0.args);
    command("brew", args)
}

/// What installs taps and packages of Homebrew. `brew` is whether it is there.
pub fn install_brew_pkgs(brew: bool, taps: &Vec<String>, pkgs: &Vec<BrewPackage>) -> (r: Vec<
    Action,
>)
    ensures
        actions(r@) == brew_actions(brew, text::texts(taps@), package::views(pkgs@)),
{
    assert(text::texts(taps@).len() == taps@.len() && package::views(pkgs@).len() == pkgs@.len());
    if taps.len() == 0 && pkgs.len() == 0 {
        return none();
    }
    if !brew {
        return one(Action::Warn("brew not found".to_owned()));
    }
    let ghost first = text::texts(taps@).map_values(|t: Seq<char>| run("brew"@, seq!["tap"@, t]));
    let ghost second = package::views(pkgs@).map_values(|p: BrewView| brew_command(p));
    let mut r = none();
    let mut i: usize = 0;
    assert(first.take(0) =~= Seq::<ActionView>::empty());
    while i < taps.len()
        invariant
            i <= taps@.len(),
            first == text::texts(taps@).map_values(|t: Seq<char>| run("brew"@, seq!["tap"@, t])),
            actions(r@) == first.take(i as int),
        decreases taps@.len() - i,
    {
        let ghost before = r@;
        let mut args: Vec<String> = Vec::new();
        push(&mut args, "tap");
        push(&mut args, taps[i].as_str());
        assert(text::texts(args@) =~= seq!["tap"@, taps@[i as int]@]);
        r.push(command("brew", args));
        assert(actions(r@) =~= actions(before).push(first[i as int]));
        assert(actions(r@) =~= first.take(i + 1));
        i = i + 1;
    }
    assert(actions(r@) =~= first + second.take(0));
    let mut k: usize = 0;
    while k < pkgs.len()
        invariant
            k <= pkgs@.len(),
            second == package::views(pkgs@).map_values(|p: BrewView| brew_command(p)),
            actions(r@) == first + second.take(k as int),
        decreases pkgs@.len() - k,
    {
        let ghost before = r@;
        r.push(brew_install(&pkgs[k]));
        assert(actions(r@) =~= actions(before).push(second[k as int]));
        assert(actions(r@) =~= first + second.take(k + 1));
        k = k + 1;
    }
    assert(second.take(pkgs@.len() as int) =~= second);
    r
}

/// What winget is told to install: by identifier, else by name, else nothing.
pub open spec fn winget_command(p: WingetView) -> Seq<ActionView> {
    let head = seq![
        "install"@,
        "--accept-source-agreements"@,
        "--accept-package-agreements"@,
    ];
    match (p.id, p.name) {
        (Some(id), _) => seq![
            run("winget"@, head + seq!["--id"@, id] + option_words(p.options)),
        ],
        (None, Some(name)) => seq![run("winget"@, head + seq![name] + option_words(p.options))],
        (None, None) => Seq::empty(),
    }
}

/// The commands for the first `n` packages.
pub open spec fn winget_commands(pkgs: Seq<WingetView>, n: nat) -> Seq<ActionView>
    decreases n,
{
    if n == 0 {
        Seq::empty()
    } else {
        winget_commands(pkgs, (n - 1) as nat) + winget_command(pkgs[n - 1])
    }
}

/// What installs packages of winget.
pub open spec fn winget_actions(
    winget: bool,
    verbose: bool,
    pkgs: Seq<WingetView>,
) -> Seq<ActionView> {
    if pkgs.len() == 0 {
        Seq::empty()
    } else if !winget {
        if verbose {
            seq![ActionView::Warn("winget not found"@)]
        } else {
            Seq::empty()
        }
    } else {
        winget_commands(pkgs, pkgs.len())
    }
}

/// What installs packages of winget. `winget` is whether it is there.
pub fn install_winget_pkgs(winget: bool, verbose: bool, pkgs: &Vec<WingetPackage>) -> (r: Vec<
    Action,
>)
    ensures
        actions(r@) == winget_actions(winget, verbose, package::views(pkgs@)),
{
    assert(package::views(pkgs@).len() == pkgs@.len());
    if pkgs.len() == 0 {
        return none();
    }
    if !winget {
        return if verbose {
            one(Action::Warn("winget not found".to_owned()))
        } else {
            none()
        };
    }
    let ghost all = package::views(pkgs@);
    let mut r = none();
    let mut i: usize = 0;
    while i < pkgs.len()
        invariant
            i <= pkgs@.len(),
            all == package::views(pkgs@),
            actions(r@) == winget_commands(all, i as nat),
        decreases pkgs@.len() - i,
    {
        let ghost before = r@;
        let p = &pkgs[i];
        assert(all[i as int] == p@);
        let mut args: Vec<String> = Vec::new();
        push(&mut args, "install");
        push(&mut args, "--accept-source-agreements");
        push(&mut args, "--accept-package-agreements");
        let mut known = true;
        if let Some(id) = &p.id {
            push(&mut args, "--id");
            push(&mut args, id.as_str());
        } else if let Some(name) = &p.name {
            push(&mut args, name.as_str());
        } else {
            known = false;
        }
        if known {
            push_words(&mut args, &p.options);
            assert(text::texts(args@) =~= winget_command(p@)[0]->Run_0.args);
            r.push(command("winget", args));
            assert(actions(r@) =~= actions(before).push(winget_command(p@)[0]));
        }
        assert(actions(r@) =~= winget_commands(all, (i + 1) as nat));
        i = i + 1;
    }
    r
}

/// Where a Rust application comes from, as arguments: a git repository at some
/// place, else a path, else a name with its version.
pub open spec fn cargo_origin(p: CargoView) -> Seq<Seq<char>> {
    match (p.git, p.path, p.name) {
        (Some(git), _, _) => seq!["--git"@, git] + flag("--tag"@, p.tag) + flag(
            "--branch"@,
            p.branch,
        ) + flag("--rev"@, p.rev) + maybe(p.name),
        (None, Some(path), _) => seq!["--path"@, path],
        (None, None, Some(name)) => seq![name] + flag("--version"@, p.version),
        (None, None, None) => Seq::empty(),
    }
}

/// The command that installs a Rust application.
pub open spec fn cargo_command(p: CargoView) -> ActionView {
    run(
        "cargo"@,
        seq!["install"@] + cargo_origin(p) + (match p.features {
            Some(f) => if f.len() > 0 {
                seq!["--features"@, text::join(f, ","@)]
            } else {
                Seq::empty()
            },
            None => Seq::empty(),
        }) + (if p.locked == Some(true) {
            seq!["--locked"@]
        } else {
            Seq::empty()
        }) + option_words(p.options),
    )
}

fn cargo_install(p: &CargoPackage) -> (r: Action)
    ensures
        r@ == cargo_command(p@),
{
    let mut args: Vec<String> = Vec::new();
    push(&mut args, "install");
    if let Some(git) = &p.git {
        push(&mut args, "--git");
        push(&mut args, git.as_str());
        push_flag(&mut args, "--tag", &p.tag);
        push_flag(&mut args, "--branch", &p.branch);
        push_flag(&mut args, "--rev", &p.rev);
        push_maybe(&mut args, &p.name);
    } else if let Some(path) = &p.path {
        push(&mut args, "--path");
        push(&mut args, path.as_str());
    } else if let Some(name) = &p.name {
        push(&mut args, name.as_str());
        push_flag(&mut args, "--version", &p.version);
    }
    assert(text::texts(args@) =~= seq!["install"@] + cargo_origin(p@));
    if let Some(features) = &p.features {
        assert(text::texts(features@).len() == features@.len());
        if features.len() > 0 {
            push(&mut args, "--features");
            let list = join_texts(features, ",");
            push(&mut args, list.as_str());
        }
    }
    let locked = match p.locked {
        Some(b) => b,
        None => false,
    };
    if locked {
        push(&mut args, "--locked");
    }
    push_words(&mut args, &p.options);
    assert(text::texts(args@) =~= cargo_command(p@)->Run_0.args);
    command("cargo", args)
}

/// What installs Rust applications.
pub open spec fn cargo_actions(
    cargo: bool,
    verbose: bool,
    pkgs: Seq<CargoView>,
) -> Seq<ActionView> {
    if pkgs.len() == 0 {
        Seq::empty()
    } else if !cargo {
        if verbose {
            seq![ActionView::Warn("cargo not found"@)]
        } else {
            Seq::empty()
        }
    } else {
        pkgs.map_values(|p: CargoView| cargo_command(p))
    }
}

/// What installs Rust applications. `cargo` is whether it is there.
pub fn install_cargo_crates(cargo: bool, verbose: bool, pkgs: &Vec<CargoPackage>) -> (r: Vec<
    Action,
>)
    ensures
        actions(r@) == cargo_actions(cargo, verbose, package::views(pkgs@)),
{
    assert(package::views(pkgs@).len() == pkgs@.len());
    if pkgs.len() == 0 {
        return none();
    }
    if !cargo {
        return if verbose {
            one(Action::Warn("cargo not found".to_owned()))
        } else {
            none()
        };
    }
    let ghost all = package::views(pkgs@).map_values(|p: CargoView| cargo_command(p));
    let mut r = none();
    let mut i: usize = 0;
    assert(all.take(0) =~= Seq::<ActionView>::empty());
    while i < pkgs.len()
        invariant
            i <= pkgs@.len(),
            all == package::views(pkgs@).map_values(|p: CargoView| cargo_command(p)),
            actions(r@) == all.take(i as int),
        decreases pkgs@.len() - i,
    {
        let ghost before = r@;
        r.push(cargo_install(&pkgs[i]));
        assert(actions(r@) =~= actions(before).push(all[i as int]));
        assert(actions(r@) =~= all.take(i + 1));
        i = i + 1;
    }
    assert(all.take(pkgs@.len() as int) =~= all);
    r
}

/// Which tools for Python applications are there.
#[derive(Debug, Clone, Copy, PartialEq, Eq, Structural)]
pub struct PythonTools {
    pub uv: bool,
    pub pipx: bool,
    pub pip: bool,
}

/// The tool that installs an application: for one that asks for a tool that tool, or
/// none where it is missing; for any other the first of uv, pipx and pip that is
/// there.
pub open spec fn chosen_tool(wanted: Option<PythonTool>, tools: PythonTools) -> Option<PythonTool> {
    match wanted {
        Some(PythonTool::Uv) => if tools.uv {
            Some(PythonTool::Uv)
        } else {
            None
        },
        Some(PythonTool::Pipx) => if tools.pipx {
            Some(PythonTool::Pipx)
        } else {
            None
        },
        Some(PythonTool::Pip) => if tools.pip {
            Some(PythonTool::Pip)
        } else {
            None
        },
        None => if tools.uv {
            Some(PythonTool::Uv)
        } else if tools.pipx {
            Some(PythonTool::Pipx)
        } else if tools.pip {
            Some(PythonTool::Pip)
        } else {
            None
        },
    }
}

fn choose_tool(wanted: Option<PythonTool>, tools: PythonTools) -> (r: Option<PythonTool>)
    ensures
        r == chosen_tool(wanted, tools),
{
    match wanted {
        Some(PythonTool::Uv) => if tools.uv {
            Some(PythonTool::Uv)
        } else {
            None
        },
        Some(PythonTool::Pipx) => if tools.pipx {
            Some(PythonTool::Pipx)
        } else {
            None
        },
        Some(PythonTool::Pip) => if tools.pip {
            Some(PythonTool::Pip)
        } else {
            None
        },
        None => if tools.uv {
            Some(PythonTool::Uv)
        } else if tools.pipx {
            Some(PythonTool::Pipx)
        } else if tools.pip {
            Some(PythonTool::Pip)
        } else {
            None
        },
    }
}

/// A Python application with its extras, such as `name[a,b]`.
pub open spec fn requirement(p: PythonView) -> Seq<char> {
    match p.extras {
        Some(e) => if e.len() > 0 {
            p.name + "["@ + text::join(e, ","@) + "]"@
        } else {
            p.name
        },
        None => p.name,
    }
}

/// The command that installs a Python application; none where no tool is there
/// for it.
pub open spec fn python_command(tools: PythonTools, p: PythonView) -> Seq<ActionView> {
    let tail = seq![requirement(p)] + option_words(p.options);
    match chosen_tool(p.tool, tools) {
        Some(PythonTool::Uv) => seq![run("uv"@, seq!["tool"@, "install"@] + tail)],
        Some(PythonTool::Pipx) => seq![run("pipx"@, seq!["install"@] + tail)],
        Some(PythonTool::Pip) => seq![run("pip"@, seq!["install"@] + tail)],
        None => Seq::empty(),
    }
}

/// The commands for the first `n` applications.
pub open spec fn python_actions(tools: PythonTools, pkgs: Seq<PythonView>, n: nat) -> Seq<
    ActionView,
>
    decreases n,
{
    if n == 0 {
        Seq::empty()
    } else {
        python_actions(tools, pkgs, (n - 1) as nat) + python_command(tools, pkgs[n - 1])
    }
}

/// What installs Python applications, given which tools are there.
pub fn install_python_packages(tools: PythonTools, pkgs: &Vec<PythonPackage>) -> (r: Vec<Action>)
    ensures
        actions(r@) == python_actions(tools, package::views(pkgs@), pkgs@.len()),
{
    let ghost all = package::views(pkgs@);
    let mut r = none();
    let mut i: usize = 0;
    while i < pkgs.len()
        invariant
            i <= pkgs@.len(),
            all == package::views(pkgs@),
            actions(r@) == python_actions(tools, all, i as nat),
        decreases pkgs@.len() - i,
    {
        let ghost before = r@;
        let p = &pkgs[i];
        assert(all[i as int] == p@);
        if let Some(tool) = choose_tool(p.tool, tools) {
            let mut spec_text = p.name.clone();
            if let Some(extras) = &p.extras {
                assert(text::texts(extras@).len() == extras@.len());
                if extras.len() > 0 {
                    spec_text.append("[");
                    let list = join_texts(extras, ",");
                    spec_text.append(list.as_str());
                    spec_text.append("]");
                }
            }
            assert(spec_text@ == requirement(p@));
            let mut args: Vec<String> = Vec::new();
            if tool == PythonTool::Uv {
                push(&mut args, "tool");
            }
            push(&mut args, "install");
            push(&mut args, spec_text.as_str());
            push_words(&mut args, &p.options);
            assert(text::texts(args@) =~= python_command(tools, p@)[0]->Run_0.args);
            let a = match tool {
                PythonTool::Uv => command("uv", args),
                PythonTool::Pipx => command("pipx", args),
                PythonTool::Pip => command("pip", args),
            };
            r.push(a);
            assert(actions(r@) =~= actions(before).push(python_command(tools, p@)[0]));
        }
        assert(actions(r@) =~= python_actions(tools, all, (i + 1) as nat));
        i = i + 1;
    }
    r
}

/// The command that installs a Node application.
pub open spec fn node_command(p: NodeView) -> ActionView {
    run("npm"@, seq!["install"@, "-g"@] + option_words(p.options) + seq![p.name])
}

/// What installs Node applications.
pub open spec fn node_actions(npm: bool, verbose: bool, pkgs: Seq<NodeView>) -> Seq<ActionView> {
    if pkgs.len() == 0 {
        Seq::empty()
    } else if !npm {
        if verbose {
            seq![ActionView::Warn("npm not found"@)]
        } else {
            Seq::empty()
        }
    } else {
        pkgs.map_values(|p: NodeView| node_command(p))
    }
}

/// What installs Node applications. `npm` is whether it is there.
pub fn install_node_packages(npm: bool, verbose: bool, pkgs: &Vec<NodePackage>) -> (r: Vec<Action>)
    ensures
        actions(r@) == node_actions(npm, verbose, package::views(pkgs@)),
{
    assert(package::views(pkgs@).len() == pkgs@.len());
    if pkgs.len() == 0 {
        return none();
    }
    if !npm {
        return if verbose {
            one(Action::Warn("npm not found".to_owned()))
        } else {
            none()
        };
    }
    let ghost all = package::views(pkgs@).map_values(|p: NodeView| node_command(p));
    let mut r = none();
    let mut i: usize = 0;
    assert(all.take(0) =~= Seq::<ActionView>::empty());
    while i < pkgs.len()
        invariant
            i <= pkgs@.len(),
            all == package::views(pkgs@).map_values(|p: NodeView| node_command(p)),
            actions(r@) == all.take(i as int),
        decreases pkgs@.len() - i,
    {
        let ghost before = r@;
        let p = &pkgs[i];
        let mut args: Vec<String> = Vec::new();
        push(&mut args, "install");
        push(&mut args, "-g");
        push_words(&mut args, &p.options);
        push(&mut args, p.name.as_str());
        assert(text::texts(args@) =~= node_command(p@)->Run_0.args);
        r.push(command("npm", args));
        assert(actions(r@) =~= actions(before).push(all[i as int]));
        assert(actions(r@) =~= all.take(i + 1));
        i = i + 1;
    }
    assert(all.take(pkgs@.len() as int) =~= all);
    r
}

/// Every package of Arch Linux is handed to the helper that was found, at once and
/// only where it is missing; without root for a helper, with root for pacman.
pub proof fn arch_packages_go_to_the_helper(
    helper: Option<ArchHelper>,
    verbose: bool,
    pkgs: Seq<Seq<char>>,
)
    ensures
        ({
            let done = arch_actions(helper, verbose, pkgs);
            &&& pkgs.len() == 0 ==> done.len() == 0
            &&& pkgs.len() > 0 && helper is Some ==> done.len() == 1 && (done[0] matches ActionView::Run(
                c,
            ) && pkgs.is_suffix_of(c.args) && match helper->0 {
                ArchHelper::Yay => c.program == "yay"@ && c.args == seq!["-S"@, "--needed"@] + pkgs,
                ArchHelper::Paru => c.program == "paru"@ && c.args == seq!["-S"@, "--needed"@]
                    + pkgs,
                ArchHelper::Pacman => c.program == "sudo"@ && c.args == seq![
                    "pacman"@,
                    "-S"@,
                    "--needed"@,
                ] + pkgs,
            })
            &&& pkgs.len() > 0 && helper is None ==> (done.len() > 0 <==> verbose) && forall|k: int|
                0 <= k < done.len() ==> (#[trigger] done[k]) is Warn
        }),
{
    let args = seq!["-S"@, "--needed"@] + pkgs;
    let root = seq!["pacman"@] + args;
    assert(root =~= seq!["pacman"@, "-S"@, "--needed"@] + pkgs);
    assert(pkgs =~= args.subrange(args.len() - pkgs.len(), args.len() as int));
    assert(pkgs =~= root.subrange(root.len() - pkgs.len(), root.len() as int));
}

/// Before packages of apt are installed, all of them at once, its lists are updated;
/// nothing runs where there is no package.
pub proof fn apt_is_updated_before_it_installs(pkgs: Seq<Seq<char>>)
    ensures
        pkgs.len() == 0 ==> apt_actions(pkgs).len() == 0,
        pkgs.len() > 0 ==> apt_actions(pkgs).len() == 2 && (apt_actions(
            pkgs,
        )[0] matches ActionView::Run(c) && c.program == "sudo"@ && c.args == seq![
            "apt-get"@,
            "update"@,
        ]) && (apt_actions(pkgs)[1] matches ActionView::Run(c) && c.program == "sudo"@ && c.args.len()
            == 3 + pkgs.len() && c.args[0] == "apt-get"@ && c.args[1] == "install"@ && c.args[2]
            == "-y"@ && forall|k: int|
            0 <= k < pkgs.len() ==> c.args[3 + k] == #[trigger] pkgs[k]),
{
}

proof fn lemma_without(l: Seq<Seq<char>>, w: Seq<char>, x: Seq<char>)
    ensures
        !without(l, w).contains(w),
        x != w ==> without(l, w).contains(x) == l.contains(x),
        !l.contains(w) ==> without(l, w) == l,
    decreases l.len(),
{
    if l.len() > 0 {
        lemma_without(l.drop_last(), w, x);
        let rest = without(l.drop_last(), w);
        assert(l =~= l.drop_last().push(l.last()));
        if l.last() == w {
            assert(l[l.len() - 1] == w);
            if x != w && l.contains(x) {
                let i = choose|i: int| 0 <= i < l.len() && l[i] == x;
                assert(l.drop_last()[i] == x);
            }
            if l.drop_last().contains(x) {
                let i = choose|i: int| 0 <= i < l.len() - 1 && l.drop_last()[i] == x;
                assert(l[i] == x);
            }
        } else {
            let all = without(l, w);
            assert forall|i: int| 0 <= i < all.len() implies all[i] != w by {
                if i < rest.len() {
                    assert(rest[i] == all[i]);
                    assert(rest.contains(rest[i]));
                }
            }
            if all.contains(x) {
                let i = choose|i: int| 0 <= i < all.len() && all[i] == x;
                if i < rest.len() {
                    assert(rest[i] == x);
                    let k = choose|k: int| 0 <= k < l.len() - 1 && (x == w || l.drop_last()[k] == x);
                    if x != w {
                        assert(l[k] == x);
                    }
                } else {
                    assert(l[l.len() - 1] == x);
                }
            }
            if l.contains(x) && x != w {
                let i = choose|i: int| 0 <= i < l.len() && l[i] == x;
                if i < l.len() - 1 {
                    assert(l.drop_last()[i] == x);
                    let k = choose|k: int| 0 <= k < rest.len() && rest[k] == x;
                    assert(all[k] == x);
                } else {
                    assert(all[rest.len() as int] == x);
                }
            }
            if !l.contains(w) {
                if l.drop_last().contains(w) {
                    let i = choose|i: int| 0 <= i < l.len() - 1 && l.drop_last()[i] == w;
                    assert(l[i] == w);
                }
                assert(all =~= l);
            }
        }
    }
}

/// Homebrew takes every tap before it installs every package, each by a command of
/// its own; nothing runs where it is missing.
pub proof fn brew_taps_before_it_installs(
    brew: bool,
    taps: Seq<Seq<char>>,
    pkgs: Seq<BrewView>,
)
    ensures
        ({
            let done = brew_actions(brew, taps, pkgs);
            &&& taps.len() == 0 && pkgs.len() == 0 ==> done.len() == 0
            &&& !brew && taps.len() + pkgs.len() > 0 ==> done == seq![
                ActionView::Warn("brew not found"@),
            ]
            &&& brew ==> {
                &&& done.len() == taps.len() + pkgs.len()
                &&& forall|k: int|
                    0 <= k < taps.len() ==> (#[trigger] done[k] matches ActionView::Run(c)
                        && c.program == "brew"@ && c.args == seq!["tap"@, taps[k]])
                &&& forall|k: int|
                    0 <= k < pkgs.len() ==> #[trigger] done[taps.len() + k] == brew_command(pkgs[k])
            }
        }),
{
}

/// A package of Homebrew is installed under its name, which comes last, with all its
/// options; `--cask` stands there once for a cask, and for another package only
/// where its options say so.
pub proof fn brew_installs_the_package(p: BrewView, option: Seq<char>)
    ensures
        brew_command(p) matches ActionView::Run(c) && {
            let options = match p.options {
                Some(o) => text::words(o),
                None => Seq::empty(),
            };
            &&& c.program == "brew"@
            &&& c.args.len() >= 2
            &&& c.args[0] == "install"@
            &&& c.args.last() == p.name
            &&& p.cask != Some(true) ==> c.args == seq!["install"@] + options + seq![p.name]
            &&& p.cask == Some(true) ==> {
                let rest = c.args.subrange(2, c.args.len() - 1);
                &&& c.args[1] == "--cask"@
                &&& !rest.contains("--cask"@)
                &&& option != "--cask"@ ==> rest.contains(option) == options.contains(option)
                &&& !options.contains("--cask"@) ==> rest == options
            }
        },
{
    let options = option_words(p.options);
    lemma_without(options, "--cask"@, option);
    if p.cask == Some(true) {
        let args = brew_command(p)->Run_0.args;
        assert(args.subrange(2, args.len() - 1) =~= without(options, "--cask"@));
    } else {
        let args = brew_command(p)->Run_0.args;
        assert(args =~= seq!["install"@] + options + seq![p.name]);
    }
}

/// A package of winget is installed by its identifier where it has one, and else by
/// its name, with its options; one that has neither is passed over.
pub proof fn winget_installs_by_id_or_name(p: WingetView)
    ensures
        ({
            let done = winget_command(p);
            let options = match p.options {
                Some(o) => text::words(o),
                None => Seq::empty(),
            };
            let agreed = seq![
                "install"@,
                "--accept-source-agreements"@,
                "--accept-package-agreements"@,
            ];
            &&& p.id is None && p.name is None ==> done.len() == 0
            &&& p.id is Some ==> done.len() == 1 && (done[0] matches ActionView::Run(c) && c.program
                == "winget"@ && c.args == agreed + seq!["--id"@, p.id->0] + options)
            &&& p.id is None && p.name is Some ==> done.len() == 1 && (
            done[0] matches ActionView::Run(c) && c.program == "winget"@ && c.args == agreed + seq![
                p.name->0,
            ] + options)
        }),
{
}

/// Every package of winget that has an identifier or a name gets its command, in
/// their order; nothing runs where winget is missing.
pub proof fn winget_installs_every_package(
    winget: bool,
    verbose: bool,
    pkgs: Seq<WingetView>,
    k: int,
)
    requires
        0 <= k < pkgs.len(),
    ensures
        winget && (pkgs[k].id is Some || pkgs[k].name is Some) ==> winget_actions(
            winget,
            verbose,
            pkgs,
        ).contains(winget_command(pkgs[k])[0]),
        winget ==> winget_actions(winget, verbose, pkgs).len() == pkgs.filter(
            |p: WingetView| p.id is Some || p.name is Some,
        ).len(),
        !winget ==> (winget_actions(winget, verbose, pkgs).len() > 0 <==> verbose) && forall|m: int|
            0 <= m < winget_actions(winget, verbose, pkgs).len() ==> (#[trigger] winget_actions(
                winget,
                verbose,
                pkgs,
            )[m]) is Warn,
{
    lemma_winget_commands(pkgs, pkgs.len(), k);
    assert(pkgs.take(pkgs.len() as int) =~= pkgs);
}

proof fn lemma_winget_commands(pkgs: Seq<WingetView>, n: nat, k: int)
    requires
        n <= pkgs.len(),
    ensures
        0 <= k < n && (pkgs[k].id is Some || pkgs[k].name is Some) ==> winget_commands(
            pkgs,
            n,
        ).contains(winget_command(pkgs[k])[0]),
        winget_commands(pkgs, n).len() == pkgs.take(n as int).filter(
            |p: WingetView| p.id is Some || p.name is Some,
        ).len(),
    decreases n,
{
    reveal(Seq::filter);
    if n > 0 {
        lemma_winget_commands(pkgs, (n - 1) as nat, k);
        assert(pkgs.take(n as int).drop_last() =~= pkgs.take(n - 1));
        let before = winget_commands(pkgs, (n - 1) as nat);
        let all = winget_commands(pkgs, n);
        if 0 <= k < n && (pkgs[k].id is Some || pkgs[k].name is Some) {
            let a = winget_command(pkgs[k])[0];
            if k == n - 1 {
                assert(all[before.len() as int] == a);
            } else {
                let m = choose|m: int| 0 <= m < before.len() && before[m] == a;
                assert(all[m] == a);
            }
        }
    }
}

/// A crate is installed from its repository where it has one, at the tag, branch and
/// revision that are declared, else from its path, and else by its name in the
/// version that is declared.
pub proof fn crates_come_from_where_they_are_declared(p: CargoView)
    ensures
        p.git is Some ==> cargo_origin(p).len() >= 2 && cargo_origin(p)[0] == "--git"@
            && cargo_origin(p)[1] == p.git->0 && (p.tag is Some ==> cargo_origin(p)[2] == "--tag"@
            && cargo_origin(p)[3] == p.tag->0) && (p.tag is None && p.branch is Some
            ==> cargo_origin(p)[2] == "--branch"@ && cargo_origin(p)[3] == p.branch->0) && (p.tag
            is None && p.branch is None && p.rev is Some ==> cargo_origin(p)[2] == "--rev"@
            && cargo_origin(p)[3] == p.rev->0) && (p.name is Some ==> cargo_origin(p).last()
            == p.name->0) && cargo_origin(p).len() == 2 + (if p.tag is Some {
            2int
        } else {
            0
        }) + (if p.branch is Some {
            2int
        } else {
            0
        }) + (if p.rev is Some {
            2int
        } else {
            0
        }) + (if p.name is Some {
            1int
        } else {
            0
        }),
        p.git is None && p.path is Some ==> cargo_origin(p) == seq!["--path"@, p.path->0],
        p.git is None && p.path is None && p.name is Some && p.version is None ==> cargo_origin(p)
            == seq![p.name->0],
        p.git is None && p.path is None && p.name is Some && p.version is Some ==> cargo_origin(p)
            == seq![p.name->0, "--version"@, p.version->0],
        p.git is None && p.path is None && p.name is None ==> cargo_origin(p).len() == 0,
{
    assert(p.git is None && p.path is None && p.name is Some && p.version is None ==> cargo_origin(p)
        =~= seq![p.name->0]);
    assert(p.git is None && p.path is None && p.name is Some && p.version is Some ==> cargo_origin(p)
        =~= seq![p.name->0, "--version"@, p.version->0]);
}

/// A crate is installed with all its features, locked where that is declared, and
/// with its options last.
pub proof fn crates_are_installed_as_declared(p: CargoView)
    ensures
        cargo_command(p) matches ActionView::Run(c) && {
            let from = cargo_origin(p);
            let features = p.features is Some && p.features->0.len() > 0;
            let at: int = 1 + from.len() as int;
            let then = at + if features {
                2int
            } else {
                0
            };
            let last = then + if p.locked == Some(true) {
                1int
            } else {
                0
            };
            &&& c.program == "cargo"@
            &&& c.args[0] == "install"@
            &&& c.args.subrange(1, at) == from
            &&& features ==> c.args[at] == "--features"@ && c.args[at + 1] == text::join(
                p.features->0,
                ","@,
            )
            &&& p.locked == Some(true) ==> c.args[then] == "--locked"@
            &&& p.options is Some ==> c.args.subrange(last, c.args.len() as int)
                == text::words(p.options->0)
            &&& p.options is None ==> c.args.len() == last
        },
{
    let args = cargo_command(p)->Run_0.args;
    let from = cargo_origin(p);
    let features = p.features is Some && p.features->0.len() > 0;
    let last = 1 + from.len() + (if features {
        2int
    } else {
        0
    }) + (if p.locked == Some(true) {
        1int
    } else {
        0
    });
    assert(args.subrange(1, 1 + from.len() as int) =~= from);
    assert(args.subrange(last, args.len() as int) =~= option_words(p.options));
}

/// Every crate and every package of Node gets a command of its own, in their order;
/// where the tool is missing nothing runs, and only a verbose run says so.
pub proof fn crates_and_node_packages_are_all_installed(
    found: bool,
    verbose: bool,
    crates: Seq<CargoView>,
    packages: Seq<NodeView>,
    k: int,
)
    ensures
        found ==> cargo_actions(found, verbose, crates).len() == crates.len() && node_actions(
            found,
            verbose,
            packages,
        ).len() == packages.len(),
        found && 0 <= k < crates.len() ==> cargo_actions(found, verbose, crates)[k] == cargo_command(
            crates[k],
        ),
        found && 0 <= k < packages.len() ==> node_actions(found, verbose, packages)[k]
            == node_command(packages[k]),
        !found && crates.len() > 0 ==> cargo_actions(found, verbose, crates) == if verbose {
            seq![ActionView::Warn("cargo not found"@)]
        } else {
            Seq::empty()
        },
        !found && packages.len() > 0 ==> node_actions(found, verbose, packages) == if verbose {
            seq![ActionView::Warn("npm not found"@)]
        } else {
            Seq::empty()
        },
        crates.len() == 0 ==> cargo_actions(found, verbose, crates).len() == 0,
        packages.len() == 0 ==> node_actions(found, verbose, packages).len() == 0,
{
}

/// A package of Node is installed for all, with its options, under its name.
pub proof fn node_packages_are_installed_for_all(p: NodeView)
    ensures
        node_command(p) matches ActionView::Run(c) && c.program == "npm"@ && c.args[0] == "install"@
            && c.args[1] == "-g"@ && c.args.last() == p.name && c.args.subrange(
            2,
            c.args.len() - 1,
        ) == match p.options {
            Some(o) => text::words(o),
            None => Seq::empty(),
        },
{
    let args = node_command(p)->Run_0.args;
    assert(args.subrange(2, args.len() - 1) =~= option_words(p.options));
}

/// A package of Python is installed with the tool that is asked for, and with none
/// where that is missing; where none is asked for, with uv, else pipx, else pip.
pub proof fn python_packages_use_their_tool(tools: PythonTools, p: PythonView)
    ensures
        ({
            let done = python_command(tools, p);
            let uv = tools.uv && (p.tool is None || p.tool == Some(PythonTool::Uv));
            let pipx = tools.pipx && (p.tool == Some(PythonTool::Pipx) || (p.tool is None
                && !tools.uv));
            let pip = tools.pip && (p.tool == Some(PythonTool::Pip) || (p.tool is None && !tools.uv
                && !tools.pipx));
            let options = match p.options {
                Some(o) => text::words(o),
                None => Seq::empty(),
            };
            &&& !uv && !pipx && !pip ==> done.len() == 0
            &&& uv ==> done.len() == 1 && (done[0] matches ActionView::Run(c) && c.program == "uv"@
                && c.args == seq!["tool"@, "install"@, requirement(p)] + options)
            &&& pipx ==> done.len() == 1 && (done[0] matches ActionView::Run(c) && c.program
                == "pipx"@ && c.args == seq!["install"@, requirement(p)] + options)
            &&& pip ==> done.len() == 1 && (done[0] matches ActionView::Run(c) && c.program == "pip"@
                && c.args == seq!["install"@, requirement(p)] + options)
        }),
        p.extras is None || p.extras->0.len() == 0 ==> requirement(p) == p.name,
        p.extras is Some && p.extras->0.len() > 0 ==> requirement(p) == p.name + "["@ + text::join(
            p.extras->0,
            ","@,
        ) + "]"@,
{
    let options = option_words(p.options);
    let tail = seq![requirement(p)] + options;
    assert(seq!["tool"@, "install"@] + tail =~= seq!["tool"@, "install"@, requirement(p)] + options);
    assert(seq!["install"@] + tail =~= seq!["install"@, requirement(p)] + options);
}

/// Every package of Python whose tool is there gets its command.
pub proof fn python_installs_every_package(
    tools: PythonTools,
    pkgs: Seq<PythonView>,
    n: nat,
    k: int,
)
    requires
        0 <= k < n <= pkgs.len(),
    ensures
        python_command(tools, pkgs[k]).len() > 0 ==> python_actions(tools, pkgs, n).contains(
            python_command(tools, pkgs[k])[0],
        ),
        python_actions(tools, pkgs, n).len() == pkgs.take(n as int).filter(
            |p: PythonView| python_command(tools, p).len() > 0,
        ).len(),
{
    lemma_python_actions(tools, pkgs, n, k);
}

proof fn lemma_python_actions(tools: PythonTools, pkgs: Seq<PythonView>, n: nat, k: int)
    requires
        n <= pkgs.len(),
    ensures
        0 <= k < n && python_command(tools, pkgs[k]).len() > 0 ==> python_actions(
            tools,
            pkgs,
            n,
        ).contains(python_command(tools, pkgs[k])[0]),
        python_actions(tools, pkgs, n).len() == pkgs.take(n as int).filter(
            |p: PythonView| python_command(tools, p).len() > 0,
        ).len(),
    decreases n,
{
    reveal(Seq::filter);
    if n > 0 {
        lemma_python_actions(tools, pkgs, (n - 1) as nat, k);
        assert(pkgs.take(n as int).drop_last() =~= pkgs.take(n - 1));
        let before = python_actions(tools, pkgs, (n - 1) as nat);
        let all = python_actions(tools, pkgs, n);
        if 0 <= k < n && python_command(tools, pkgs[k]).len() > 0 {
            let a = python_command(tools, pkgs[k])[0];
            if k == n - 1 {
                assert(all[before.len() as int] == a);
            } else {
                let m = choose|m: int| 0 <= m < before.len() && before[m] == a;
                assert(all[m] == a);
            }
        }
    }
}

/// A command is shown as its program and its arguments, all with a blank between.
pub proof fn commands_are_shown_whole(c: CommandView)
    requires
        c.args.len() > 0,
    ensures
        c.line() == text::join(seq![c.program] + c.args, " "@),
{
    text::joining_puts_the_separator_between(seq![c.program], c.args, " "@, c.program);
}

/// Without `winget` nothing is installed with it, and a warning says so where much is
/// said.
pub proof fn missing_winget_installs_nothing(pkgs: Seq<WingetView>)
    ensures
        pkgs.len() > 0 ==> winget_actions(false, true, pkgs) == seq![
            ActionView::Warn("winget not found"@),
        ],
        winget_actions(false, true, Seq::empty()).len() == 0,
        winget_actions(false, false, pkgs).len() == 0,
{
}

} // verus!
