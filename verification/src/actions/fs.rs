//! Plain files and directories of an overlay: linking them, and taking new ones
//! in.

use crate::actions::symlink::LinkState;
use crate::exec::Context;
use crate::glob::Special;
use crate::path;
use crate::path::{join_path, parent, starts_with_path, strip_base};
use crate::text;
use crate::text::{concat2, concat3, strip_suffix};
use vstd::prelude::*;

verus! {

/// What to do about something that stands where a link should be.
#[derive(Debug, Clone, Copy, PartialEq, Eq, Structural)]
pub enum ConflictChoice {
    Skip,
    Overwrite,
    Absorb,
    Diff,
}

impl ConflictChoice {
    /// How the choice is offered.
    pub fn label(self) -> (r: String)
        ensures
            r@ == match self {
                ConflictChoice::Skip => "Skip"@,
                ConflictChoice::Overwrite => "Overwrite"@,
                ConflictChoice::Absorb => "Absorb (adopt target into overlay)"@,
                ConflictChoice::Diff => "Diff (show differences, then decide)"@,
            },
    {
        match self {
            ConflictChoice::Skip => "Skip".to_owned(),
            ConflictChoice::Overwrite => "Overwrite".to_owned(),
            ConflictChoice::Absorb => "Absorb (adopt target into overlay)".to_owned(),
            ConflictChoice::Diff => "Diff (show differences, then decide)".to_owned(),
        }
    }

    /// The choices in the order in which they are offered.
    pub fn all() -> (r: Vec<ConflictChoice>)
        ensures
            r@ == seq![
                ConflictChoice::Skip,
                ConflictChoice::Overwrite,
                ConflictChoice::Absorb,
                ConflictChoice::Diff,
            ],
    {
        vec![
            ConflictChoice::Skip,
            ConflictChoice::Overwrite,
            ConflictChoice::Absorb,
            ConflictChoice::Diff,
        ]
    }
}

/// What a conflict comes to.
#[derive(Debug, PartialEq, Eq)]
pub enum ConflictStep {
    /// Leave everything as it is.
    Skip,
    /// Remove the target and link.
    Replace,
    /// Copy the target file over the source, remove the target and link.
    AbsorbFile,
    /// Replace the source directory by a copy of the target directory, remove the
    /// target and link.
    AbsorbDirectory,
    /// Fail with this message.
    Refuse(String),
    /// Ask the user.
    Ask,
    /// Show how the target differs from the source, and ask the user again.
    ShowDiff,
}

/// What is said of something at `target`.
pub open spec fn conflict_refusal(target: Seq<char>) -> Seq<char> {
    "Conflict: "@ + target + " already exists"@
}

/// What a conflict comes to: what stands there gives way when the run is forced,
/// is an error when nobody may be asked, and is otherwise left to the user.
pub open spec fn settled(
    ctx: Context,
    target: Seq<char>,
    answer: Option<ConflictChoice>,
    is_dir: bool,
    step: ConflictStep,
) -> bool {
    if ctx.force {
        step is Replace
    } else if ctx.no_prompt {
        step is Refuse && step->Refuse_0@ == conflict_refusal(target)
    } else {
        match answer {
            None => step is Ask,
            Some(ConflictChoice::Skip) => step is Skip,
            Some(ConflictChoice::Overwrite) => step is Replace,
            Some(ConflictChoice::Absorb) => if is_dir {
                step is AbsorbDirectory
            } else {
                step is AbsorbFile
            },
            Some(ConflictChoice::Diff) => step is ShowDiff,
        }
    }
}

fn settle(
    ctx: &Context,
    target: &str,
    answer: Option<ConflictChoice>,
    is_dir: bool,
) -> (r: ConflictStep)
    ensures
        settled(*ctx, target@, answer, is_dir, r),
{
    if ctx.force {
        return ConflictStep::Replace;
    }
    if ctx.no_prompt {
        return ConflictStep::Refuse(concat3("Conflict: ", target, " already exists"));
    }
    match answer {
        None => ConflictStep::Ask,
        Some(ConflictChoice::Skip) => ConflictStep::Skip,
        Some(ConflictChoice::Overwrite) => ConflictStep::Replace,
        Some(ConflictChoice::Absorb) => if is_dir {
            ConflictStep::AbsorbDirectory
        } else {
            ConflictStep::AbsorbFile
        },
        Some(ConflictChoice::Diff) => ConflictStep::ShowDiff,
    }
}

/// Decides about something at `target` where a link to a file should be.
/// `answer` is what the user chose, once asked.
pub fn resolve_file_conflict(ctx: &Context, target: &str, answer: Option<ConflictChoice>) -> (r:
    ConflictStep)
    ensures
        settled(*ctx, target@, answer, false, r),
{
    settle(ctx, target, answer, false)
}

/// Decides about something at `target` where a link to a directory should be.
/// `answer` is what the user chose, once asked.
pub fn resolve_dir_conflict(ctx: &Context, target: &str, answer: Option<ConflictChoice>) -> (r:
    ConflictStep)
    ensures
        settled(*ctx, target@, answer, true, r),
{
    settle(ctx, target, answer, true)
}

/// What is to be done about a link.
#[derive(Debug, Clone, Copy, PartialEq, Eq, Structural)]
pub enum EnsureStep {
    /// Nothing.
    Done,
    /// Make the link.
    Link,
    /// Settle the conflict with what stands at the target first.
    Conflict,
}

/// What is to be done about a link to `source`, given what stands at its target.
pub open spec fn ensure_step(dry_run: bool, state: LinkState, source: Seq<char>) -> EnsureStep {
    if dry_run || state.links_to(source) {
        EnsureStep::Done
    } else if state is Missing {
        EnsureStep::Link
    } else {
        EnsureStep::Conflict
    }
}

fn decide(dry_run: bool, state: &LinkState, source: &str) -> (r: EnsureStep)
    ensures
        r == ensure_step(dry_run, *state, source@),
{
    if dry_run || state.is_link_to(source) {
        return EnsureStep::Done;
    }
    match state {
        LinkState::Missing => EnsureStep::Link,
        _ => EnsureStep::Conflict,
    }
}

/// How an action that leads from one path to another is shown.
#[derive(Debug, PartialEq, Eq)]
pub enum ActionLabel {
    /// The two roots and what follows both.
    Within { from_root: String, to_root: String, rel: String },
    /// The two paths.
    Plain { from: String, to: String },
}

/// Whether `l` shows the way from `from` to `to`: where `from` lies under `root`
/// by the roots and what follows them, else by the paths.
pub open spec fn shows(
    l: ActionLabel,
    root: Option<Seq<char>>,
    from: Seq<char>,
    to: Seq<char>,
) -> bool {
    let rel = match root {
        Some(r) => path::relative_to(from, r),
        None => None,
    };
    match l {
        ActionLabel::Within { from_root, to_root, rel: shown } => {
            &&& rel is Some
            &&& from_root@ == root->0
            &&& shown@ == rel->0
            &&& to_root@ == if shown@.is_suffix_of(to) {
                to.take(to.len() - shown@.len())
            } else {
                to
            }
        },
        ActionLabel::Plain { from: f, to: t } => rel is None && f@ == from && t@ == to,
    }
}

fn label_of(root: Option<&String>, from: &str, to: &str) -> (l: ActionLabel)
    ensures
        shows(
            l,
            match root {
                Some(r) => Some(r@),
                None => None,
            },
            from@,
            to@,
        ),
{
    if let Some(r) = root {
        if let Some(rel) = strip_base(from, r.as_str()) {
            let to_root = match strip_suffix(to, rel.as_str()) {
                Some(t) => t,
                None => to.to_owned(),
            };
            return ActionLabel::Within { from_root: r.clone(), to_root, rel };
        }
    }
    ActionLabel::Plain { from: from.to_owned(), to: to.to_owned() }
}

/// The line that shows what `verb` does from `from` to `to`, where `from_root` and
/// `to_root` are the roots as they are written.
pub open spec fn action_line(
    verb: Seq<char>,
    root: Option<Seq<char>>,
    from: Seq<char>,
    to: Seq<char>,
    from_root: Seq<char>,
    to_root: Seq<char>,
) -> Seq<char> {
    let rel = match root {
        Some(r) => path::relative_to(from, r),
        None => None,
    };
    match rel {
        Some(rel) => verb + " {"@ + from_root + " -> "@ + to_root + "}"@ + rel,
        None => verb + " "@ + from + " -> "@ + to,
    }
}

fn line_of(verb: &str, label: &ActionLabel, from_root: &str, to_root: &str) -> (r: String)
    ensures
        r@ == match *label {
            ActionLabel::Within { rel, .. } => verb@ + " {"@ + from_root@ + " -> "@ + to_root@
                + "}"@ + rel@,
            ActionLabel::Plain { from, to } => verb@ + " "@ + from@ + " -> "@ + to@,
        },
{
    match label {
        ActionLabel::Within { rel, .. } => {
            let mut r = concat3(verb, " {", from_root);
            r.append(" -> ");
            r.append(to_root);
            r.append("}");
            r.append(rel.as_str());
            r
        },
        ActionLabel::Plain { from: f, to: t } => {
            let mut r = concat3(verb, " ", f.as_str());
            r.append(" -> ");
            r.append(t.as_str());
            r
        },
    }
}

/// The root of the overlay that a run is about.
pub open spec fn overlay_root(ctx: Context) -> Option<Seq<char>> {
    match ctx.overlay {
        Some(o) => Some(o.root@),
        None => None,
    }
}

/// The directory that the overlay of a run covers.
pub open spec fn overlay_target(ctx: Context) -> Option<Seq<char>> {
    match ctx.overlay {
        Some(o) => text::opt_text(o.target),
        None => None,
    }
}

/// A symlink to a file.
#[derive(Debug, PartialEq, Eq)]
pub struct EnsureLink {
    pub ctx: Context,
    pub source: String,
    pub target: String,
}

impl EnsureLink {
    pub fn new(ctx: Context, source: String, target: String) -> (r: Self)
        ensures
            r == (EnsureLink { ctx, source, target }),
    {
        EnsureLink { ctx, source, target }
    }

    /// How the link is shown.
    pub fn label(&self) -> (l: ActionLabel)
        ensures
            shows(l, overlay_root(self.ctx), self.source@, self.target@),
    {
        match &self.ctx.overlay {
            Some(o) => label_of(Some(&o.root), self.source.as_str(), self.target.as_str()),
            None => label_of(None, self.source.as_str(), self.target.as_str()),
        }
    }

    /// The line that shows the link, with the roots of its label as they are
    /// written.
    pub fn line(&self, from_root: &str, to_root: &str) -> (r: String)
        ensures
            r@ == action_line(
                "link:"@,
                overlay_root(self.ctx),
                self.source@,
                self.target@,
                from_root@,
                to_root@,
            ),
    {
        line_of("link:", &self.label(), from_root, to_root)
    }

    /// Decides what is to be done, given what stands at the target.
    pub fn execute(&self, ctx: &Context, state: &LinkState) -> (r: EnsureStep)
        ensures
            r == ensure_step(ctx.dry_run, *state, self.source@),
    {
        decide(ctx.dry_run, state, self.source.as_str())
    }
}

/// A symlink to a directory.
#[derive(Debug, PartialEq, Eq)]
pub struct EnsureDirLink {
    pub ctx: Context,
    pub source: String,
    pub target: String,
}

impl EnsureDirLink {
    pub fn new(ctx: Context, source: String, target: String) -> (r: Self)
        ensures
            r == (EnsureDirLink { ctx, source, target }),
    {
        EnsureDirLink { ctx, source, target }
    }

    /// How the link is shown.
    pub fn label(&self) -> (l: ActionLabel)
        ensures
            shows(l, overlay_root(self.ctx), self.source@, self.target@),
    {
        match &self.ctx.overlay {
            Some(o) => label_of(Some(&o.root), self.source.as_str(), self.target.as_str()),
            None => label_of(None, self.source.as_str(), self.target.as_str()),
        }
    }

    /// The line that shows the link, with the roots of its label as they are
    /// written.
    pub fn line(&self, from_root: &str, to_root: &str) -> (r: String)
        ensures
            r@ == action_line(
                "link dir:"@,
                overlay_root(self.ctx),
                self.source@,
                self.target@,
                from_root@,
                to_root@,
            ),
    {
        line_of("link dir:", &self.label(), from_root, to_root)
    }

    /// Decides what is to be done, given what stands at the target.
    pub fn execute(&self, ctx: &Context, state: &LinkState) -> (r: EnsureStep)
        ensures
            r == ensure_step(ctx.dry_run, *state, self.source@),
    {
        decide(ctx.dry_run, state, self.source.as_str())
    }
}

/// A directory with its parents.
#[derive(Debug, PartialEq, Eq)]
pub struct EnsureDir {
    pub path: String,
}

impl EnsureDir {
    pub fn new(path: String) -> (r: Self)
        ensures
            r == (EnsureDir { path }),
    {
        EnsureDir { path }
    }

    /// The line that shows the creation of the directory.
    pub fn line(&self) -> (r: String)
        ensures
            r@ == "create directory: "@ + self.path@,
    {
        concat2("create directory: ", self.path.as_str())
    }

    /// Whether the directory is to be created.
    pub fn execute(&self, ctx: &Context) -> (r: bool)
        ensures
            r == !ctx.dry_run,
    {
        !ctx.dry_run
    }
}

/// A move of a file or a directory.
#[derive(Debug, PartialEq, Eq)]
pub struct MoveFile {
    pub ctx: Context,
    pub src: String,
    pub dst: String,
}

impl MoveFile {
    pub fn new(ctx: Context, src: String, dst: String) -> (r: Self)
        ensures
            r == (MoveFile { ctx, src, dst }),
    {
        MoveFile { ctx, src, dst }
    }

    /// How the move is shown.
    pub fn label(&self) -> (l: ActionLabel)
        ensures
            shows(l, overlay_target(self.ctx), self.src@, self.dst@),
    {
        match &self.ctx.overlay {
            Some(o) => match &o.target {
                Some(t) => label_of(Some(t), self.src.as_str(), self.dst.as_str()),
                None => label_of(None, self.src.as_str(), self.dst.as_str()),
            },
            None => label_of(None, self.src.as_str(), self.dst.as_str()),
        }
    }

    /// The line that shows the move, with the roots of its label as they are
    /// written.
    pub fn line(&self, from_root: &str, to_root: &str) -> (r: String)
        ensures
            r@ == action_line(
                "move file:"@,
                overlay_target(self.ctx),
                self.src@,
                self.dst@,
                from_root@,
                to_root@,
            ),
    {
        line_of("move file:", &self.label(), from_root, to_root)
    }

    /// Whether the move is to be made.
    pub fn execute(&self, ctx: &Context) -> (r: bool)
        ensures
            r == !ctx.dry_run,
    {
        !ctx.dry_run
    }
}

/// Something that was met on a walk through an overlay.
#[derive(Debug, PartialEq, Eq)]
pub struct WalkEntry {
    pub path: String,
    pub is_dir: bool,
    /// Whether the overlay links such a directory as a unit.
    pub link_dir: bool,
    /// Whether the overlay excludes it.
    pub excluded: bool,
}

/// What linking does with one thing that was met.
#[derive(Debug, PartialEq, Eq)]
pub enum LinkAction {
    /// Link the directory as a unit.
    DirLink { source: String, target: String },
    /// Create the directory.
    Dir { target: String },
    /// Link the file.
    Link { source: String, target: String },
}

/// [`LinkAction`] over text.
pub enum LinkActionView {
    DirLink { source: Seq<char>, target: Seq<char> },
    Dir { target: Seq<char> },
    Link { source: Seq<char>, target: Seq<char> },
}

impl View for LinkAction {
    type V = LinkActionView;

    open spec fn view(&self) -> LinkActionView {
        match *self {
            LinkAction::DirLink { source, target } => LinkActionView::DirLink {
                source: source@,
                target: target@,
            },
            LinkAction::Dir { target } => LinkActionView::Dir { target: target@ },
            LinkAction::Link { source, target } => LinkActionView::Link {
                source: source@,
                target: target@,
            },
        }
    }
}

/// The actions over text.
pub open spec fn action_views(v: Seq<LinkAction>) -> Seq<LinkActionView> {
    v.map_values(|a: LinkAction| a@)
}

/// Whether the directory at `j` is linked as a unit.
pub open spec fn is_unit(entries: Seq<WalkEntry>, j: int) -> bool {
    entries[j].is_dir && entries[j].link_dir && !Special::Descriptor.holds(entries[j].path@)
}

/// Whether the entry at `i` lies in a directory that was linked as a unit before
/// it was met.
pub open spec fn in_unit(entries: Seq<WalkEntry>, i: int) -> bool {
    exists|j: int|
        0 <= j < i && #[trigger] is_unit(entries, j) && path::path_starts_with(
            entries[i].path@,
            entries[j].path@,
        )
}

/// What linking does with an entry that lies at `rel` in its overlay.
pub open spec fn link_action(e: WalkEntry, to: Seq<char>, rel: Seq<char>) -> LinkActionView {
    let target = path::joined(to, rel);
    if e.is_dir && e.link_dir {
        LinkActionView::DirLink { source: e.path@, target }
    } else if e.is_dir {
        LinkActionView::Dir { target }
    } else {
        LinkActionView::Link { source: e.path@, target }
    }
}

/// Whether linking can do nothing with the entry at `i`: it is no descriptor, lies
/// in no directory that is linked as a unit, and does not lie under `root`.
pub open spec fn is_stray(entries: Seq<WalkEntry>, root: Seq<char>, i: int) -> bool {
    !Special::Descriptor.holds(entries[i].path@) && !in_unit(entries, i) && path::relative_to(
        entries[i].path@,
        root,
    ) is None
}

/// What linking does with the first `n` entries of a walk through `root`: overlay
/// descriptors are passed over, and so is what lies in a directory that is linked
/// as a unit. Nothing is planned where an entry does not lie under `root`.
pub open spec fn link_plan(
    entries: Seq<WalkEntry>,
    root: Seq<char>,
    to: Seq<char>,
    n: nat,
) -> Option<Seq<LinkActionView>>
    decreases n,
{
    if n == 0 {
        Some(Seq::empty())
    } else {
        let i = n - 1;
        match link_plan(entries, root, to, i as nat) {
            None => None,
            Some(before) => if Special::Descriptor.holds(entries[i].path@) || in_unit(entries, i) {
                Some(before)
            } else {
                match path::relative_to(entries[i].path@, root) {
                    None => None,
                    Some(rel) => Some(before.push(link_action(entries[i], to, rel))),
                }
            },
        }
    }
}

/// Why linking could not be planned.
#[derive(Debug)]
pub enum LinkError {
    /// The pattern of descriptors is not valid.
    Pattern(globset::Error),
    /// The entry at this place does not lie under the root, and it is the first one
    /// that should.
    Outside(usize),
}

proof fn lemma_link_plan_fails(
    entries: Seq<WalkEntry>,
    root: Seq<char>,
    to: Seq<char>,
    a: nat,
    b: nat,
)
    requires
        a <= b,
        link_plan(entries, root, to, a) is None,
    ensures
        link_plan(entries, root, to, b) is None,
    decreases b - a,
{
    if a < b {
        lemma_link_plan_fails(entries, root, to, a, (b - 1) as nat);
    }
}

/// Plans the linking of an overlay at `root` into the directory `to`, given a
/// walk through it in which directories come before what they hold.
pub fn link(entries: &Vec<WalkEntry>, root: &str, to: &str) -> (r: Result<
    Vec<LinkAction>,
    LinkError,
>)
    ensures
        match r {
            Ok(plan) => Special::Descriptor.valid() && link_plan(
                entries@,
                root@,
                to@,
                entries@.len(),
            ) == Some(action_views(plan@)),
            Err(LinkError::Pattern(_)) => !Special::Descriptor.valid(),
            Err(LinkError::Outside(place)) => Special::Descriptor.valid() && link_plan(
                entries@,
                root@,
                to@,
                entries@.len(),
            ) is None && place < entries@.len() && is_stray(entries@, root@, place as int)
                && forall|j: int| 0 <= j < place ==> !#[trigger] is_stray(entries@, root@, j),
        },
{
    if let Err(e) = Special::Descriptor.matches_path("") {
        return Err(LinkError::Pattern(e));
    }
    let mut plan: Vec<LinkAction> = Vec::new();
    let mut units: Vec<usize> = Vec::new();
    let mut i: usize = 0;
    assert(action_views(plan@) =~= Seq::<LinkActionView>::empty());
    while i < entries.len()
        invariant
            i <= entries@.len(),
            Special::Descriptor.valid(),
            link_plan(entries@, root@, to@, i as nat) == Some(action_views(plan@)),
            forall|j: int| 0 <= j < i ==> !#[trigger] is_stray(entries@, root@, j),
            forall|k: int|
                0 <= k < units@.len() ==> (#[trigger] units@[k]) < i && is_unit(
                    entries@,
                    units@[k] as int,
                ),
            forall|j: int|
                0 <= j < i && #[trigger] is_unit(entries@, j) ==> exists|k: int|
                    0 <= k < units@.len() && #[trigger] units@[k] == j,
        decreases entries@.len() - i,
    {
        let e = &entries[i];
        let ghost before = plan@;
        let ghost units_before = units@;
        let special = match Special::Descriptor.matches_path(e.path.as_str()) {
            Ok(b) => b,
            Err(x) => {
                return Err(LinkError::Pattern(x));
            },
        };
        let inside = lies_in(entries, &units, i);
        if !special && e.is_dir && e.link_dir {
            units.push(i);
            assert(units@[units@.len() - 1] == i);
        }
        proof {
            assert forall|j: int| 0 <= j < i + 1 && #[trigger] is_unit(entries@, j) implies exists|
                k: int,
            |
                0 <= k < units@.len() && #[trigger] units@[k] == j by {
                if j < i {
                    let k = choose|k: int|
                        0 <= k < units_before.len() && #[trigger] units_before[k] == j;
                    assert(units@[k] == j);
                }
            }
        }
        if !special && !inside {
            match strip_base(e.path.as_str(), root) {
                None => {
                    proof {
                        lemma_link_plan_fails(
                            entries@,
                            root@,
                            to@,
                            (i + 1) as nat,
                            entries@.len(),
                        );
                    }
                    return Err(LinkError::Outside(i));
                },
                Some(rel) => {
                    let target = join_path(to, rel.as_str());
                    if e.is_dir && e.link_dir {
                        plan.push(LinkAction::DirLink { source: e.path.clone(), target });
                    } else if e.is_dir {
                        plan.push(LinkAction::Dir { target });
                    } else {
                        plan.push(LinkAction::Link { source: e.path.clone(), target });
                    }
                    assert(action_views(plan@) =~= action_views(before).push(
                        link_action(entries@[i as int], to@, rel@),
                    ));
                },
            }
        }
        i = i + 1;
    }
    Ok(plan)
}

/// Whether the entry at `i` lies under one of `units`.
pub fn lies_in(entries: &Vec<WalkEntry>, units: &Vec<usize>, i: usize) -> (r: bool)
    requires
        i < entries@.len(),
        forall|k: int| 0 <= k < units@.len() ==> (#[trigger] units@[k]) < i,
    ensures
        r == exists|k: int|
            0 <= k < units@.len() && path::path_starts_with(
                entries@[i as int].path@,
                entries@[(#[trigger] units@[k]) as int].path@,
            ),
{
    let mut k: usize = 0;
    while k < units.len()
        invariant
            k <= units@.len(),
            i < entries@.len(),
            forall|k: int| 0 <= k < units@.len() ==> (#[trigger] units@[k]) < i,
            forall|m: int|
                0 <= m < k ==> !path::path_starts_with(
                    entries@[i as int].path@,
                    entries@[(#[trigger] units@[m]) as int].path@,
                ),
        decreases units@.len() - k,
    {
        if starts_with_path(entries[i].path.as_str(), entries[units[k]].path.as_str()) {
            assert(units@[k as int] < i);
            return true;
        }
        k = k + 1;
    }
    false
}

/// How a file or a directory is taken into an overlay: moved from `src` to
/// `target`, and linked back.
#[derive(Debug, PartialEq, Eq)]
pub struct AddPlan {
    pub src: String,
    pub target: String,
    /// The directory that must exist for the move.
    pub parent: Option<String>,
    /// Whether a directory is linked back as a unit.
    pub as_dir: bool,
}

impl AddPlan {
    /// Whether this takes what lies at `rel` under the covered directory into the
    /// overlay at `root`.
    pub open spec fn takes(&self, src: Seq<char>, root: Seq<char>, rel: Seq<char>) -> bool {
        &&& self.src@ == src
        &&& self.target@ == path::joined(root, rel)
        &&& text::opt_text(self.parent) == path::parent_of(path::joined(root, rel))
    }

    /// The move that undoes a plan whose link failed: none after a dry run, and
    /// none for a directory.
    pub fn rollback(&self, ctx: &Context) -> (r: Option<MoveBack>)
        ensures
            r is Some == (!ctx.dry_run && !self.as_dir),
            r matches Some(m) ==> m.from == self.target && m.to == self.src,
    {
        if ctx.dry_run || self.as_dir {
            None
        } else {
            Some(MoveBack { from: self.target.clone(), to: self.src.clone() })
        }
    }
}

/// A move that undoes another.
#[derive(Debug, PartialEq, Eq)]
pub struct MoveBack {
    pub from: String,
    pub to: String,
}

/// What is said of a path that the overlay does not cover.
pub open spec fn not_included(src: Seq<char>, root: Seq<char>) -> Seq<char> {
    src + " is not included in "@ + root
}

/// Where `path`, read from `cwd`, lies under the covered directory `root`. Fails
/// where it does not.
pub fn included_path(cwd: &str, path: &str, root: &str) -> (r: Result<String, String>)
    ensures
        match r {
            Ok(rel) => path::relative_to(path::joined(cwd@, path@), root@) == Some(rel@),
            Err(e) => path::relative_to(path::joined(cwd@, path@), root@) is None && e@ == not_included(
                path::joined(cwd@, path@),
                root@,
            ),
        },
{
    let src = join_path(cwd, path);
    match strip_base(src.as_str(), root) {
        Some(rel) => Ok(rel),
        None => Err(concat3(src.as_str(), " is not included in ", root)),
    }
}

/// Plans to take the file `file`, read from `cwd`, into the overlay at
/// `overlay_root`, which covers `root`.
pub fn add_file(cwd: &str, file: &str, root: &str, overlay_root: &str) -> (r: Result<
    AddPlan,
    String,
>)
    ensures
        match r {
            Ok(p) => {
                let src = path::joined(cwd@, file@);
                let rel = path::relative_to(src, root@);
                rel is Some && !p.as_dir && p.takes(src, overlay_root@, rel->0)
            },
            Err(e) => path::relative_to(path::joined(cwd@, file@), root@) is None && e@ == not_included(
                path::joined(cwd@, file@),
                root@,
            ),
        },
{
    let rel = included_path(cwd, file, root)?;
    let target = join_path(overlay_root, rel.as_str());
    let parent = parent(target.as_str());
    Ok(AddPlan { src: join_path(cwd, file), target, parent, as_dir: false })
}

/// Plans to take the directory `dir`, read from `cwd`, into the overlay at
/// `overlay_root`, which covers `root`: as a unit where `link_dir` says so, else
/// file by file. `files` are the files that lie in it.
pub fn add_dir(
    cwd: &str,
    dir: &str,
    root: &str,
    overlay_root: &str,
    link_dir: bool,
    files: &Vec<String>,
) -> (r: Result<Vec<AddPlan>, String>)
    ensures
        ({
            let src = path::joined(cwd@, dir@);
            let rel = path::relative_to(src, root@);
            match r {
                Ok(plans) => rel is Some && if link_dir {
                    plans@.len() == 1 && plans@[0].as_dir && plans@[0].takes(
                        src,
                        overlay_root@,
                        rel->0,
                    )
                } else {
                    plans@.len() == files@.len() && forall|i: int|
                        0 <= i < files@.len() ==> {
                            let from = path::joined(cwd@, files@[i]@);
                            path::relative_to(from, root@) is Some && !(#[trigger] plans@[i]).as_dir
                                && plans@[i].takes(
                                from,
                                overlay_root@,
                                path::relative_to(from, root@)->0,
                            )
                        }
                },
                Err(e) => {
                    ||| rel is None && e@ == not_included(src, root@)
                    ||| rel is Some && !link_dir && exists|i: int|
                        0 <= i < files@.len() && path::relative_to(
                            path::joined(cwd@, (#[trigger] files@[i])@),
                            root@,
                        ) is None && e@ == not_included(path::joined(cwd@, files@[i]@), root@)
                            && forall|j: int|
                            0 <= j < i ==> path::relative_to(
                                path::joined(cwd@, (#[trigger] files@[j])@),
                                root@,
                            ) is Some
                },
            }
        }),
{
    let rel = included_path(cwd, dir, root)?;
    let mut plans: Vec<AddPlan> = Vec::new();
    if link_dir {
        let target = join_path(overlay_root, rel.as_str());
        let parent = parent(target.as_str());
        plans.push(AddPlan { src: join_path(cwd, dir), target, parent, as_dir: true });
        return Ok(plans);
    }
    let mut i: usize = 0;
    while i < files.len()
        invariant
            i <= files@.len(),
            plans@.len() == i,
            !link_dir,
            path::relative_to(path::joined(cwd@, dir@), root@) is Some,
            forall|k: int|
                0 <= k < i ==> {
                    let from = path::joined(cwd@, files@[k]@);
                    path::relative_to(from, root@) is Some && !(#[trigger] plans@[k]).as_dir
                        && plans@[k].takes(from, overlay_root@, path::relative_to(from, root@)->0)
                },
            forall|k: int|
                0 <= k < i ==> path::relative_to(
                    path::joined(cwd@, (#[trigger] files@[k])@),
                    root@,
                ) is Some,
        decreases files@.len() - i,
    {
        match add_file(cwd, files[i].as_str(), root, overlay_root) {
            Ok(p) => {
                plans.push(p);
            },
            Err(e) => {
                assert(path::relative_to(path::joined(cwd@, files@[i as int]@), root@) is None);
                return Err(e);
            },
        }
        i = i + 1;
    }
    Ok(plans)
}

/// What stands at a path that is to be added.
#[derive(Debug, Clone, Copy, PartialEq, Eq, Structural)]
pub enum PathKind {
    Directory,
    File,
    Other,
}

/// How a path is added.
#[derive(Debug, PartialEq, Eq)]
pub enum AddAs {
    Directory(String),
    File(String),
}

/// Decides how `path`, read from `cwd`, is added. Fails where it is neither a
/// file nor a directory.
pub fn add_path(cwd: &str, path: &str, kind: PathKind) -> (r: Result<AddAs, String>)
    ensures
        match r {
            Ok(AddAs::Directory(src)) => kind is Directory && src@ == path::joined(cwd@, path@),
            Ok(AddAs::File(src)) => kind is File && src@ == path::joined(cwd@, path@),
            Err(e) => kind is Other && e@ == path::joined(cwd@, path@)
                + " does not exist or is not a file/directory"@,
        },
{
    let src = join_path(cwd, path);
    match kind {
        PathKind::Directory => Ok(AddAs::Directory(src)),
        PathKind::File => Ok(AddAs::File(src)),
        PathKind::Other => {
            let mut e = src;
            e.append(" does not exist or is not a file/directory");
            Err(e)
        },
    }
}

/// A link that leads to its source is left alone, so that whatever was linked is
/// not linked again.
pub proof fn links_are_made_once(dry_run: bool, to: String, source: Seq<char>)
    requires
        path::components(to@) == path::components(source),
    ensures
        ensure_step(dry_run, LinkState::Symlink(to), source) == EnsureStep::Done,
{
}

/// What is added to an overlay is linked back by linking the overlay: from the
/// place where it lay before, to the place where it lies now.
pub proof fn added_files_are_linked_back(
    plan: AddPlan,
    src: Seq<char>,
    root: Seq<char>,
    overlay_root: Seq<char>,
    e: WalkEntry,
)
    requires
        path::path_starts_with(src, root),
        path::components(root).len() > 0,
        path::components(overlay_root).len() > 0,
        plan.takes(src, overlay_root, path::relative_to(src, root)->0),
        e.path@ == plan.target@,
        e.is_dir == plan.as_dir,
        e.link_dir == plan.as_dir,
    ensures
        path::relative_to(e.path@, overlay_root) is Some,
        match link_action(e, root, path::relative_to(e.path@, overlay_root)->0) {
            LinkActionView::Link { source, target } => !plan.as_dir && source == plan.target@
                && path::components(target) == path::components(plan.src@),
            LinkActionView::DirLink { source, target } => plan.as_dir && source == plan.target@
                && path::components(target) == path::components(plan.src@),
            LinkActionView::Dir { .. } => false,
        },
{
    path::moving_keeps_the_place(src, root, overlay_root);
}

/// A conflict is settled by force where that is allowed, refused where nothing may be
/// asked, and else by the answer of the user, who is asked where there is none; a
/// directory is taken in as a whole.
pub proof fn conflicts_are_settled_by_the_user(
    ctx: Context,
    target: Seq<char>,
    answer: Option<ConflictChoice>,
    is_dir: bool,
    step: ConflictStep,
)
    requires
        settled(ctx, target, answer, is_dir, step),
    ensures
        ctx.force ==> step is Replace,
        !ctx.force && ctx.no_prompt ==> step is Refuse && step->Refuse_0@ == "Conflict: "@ + target
            + " already exists"@,
        !ctx.force && !ctx.no_prompt ==> {
            &&& answer is None <==> step is Ask
            &&& answer == Some(ConflictChoice::Skip) <==> step is Skip
            &&& answer == Some(ConflictChoice::Overwrite) <==> step is Replace
            &&& answer == Some(ConflictChoice::Diff) <==> step is ShowDiff
            &&& answer == Some(ConflictChoice::Absorb) && is_dir <==> step is AbsorbDirectory
            &&& answer == Some(ConflictChoice::Absorb) && !is_dir <==> step is AbsorbFile
        },
{
}

/// A link is made only where nothing stands in its place, and never in a dry run;
/// what stands there is a conflict unless it is the link already.
pub proof fn links_replace_nothing_unasked(dry_run: bool, state: LinkState, source: Seq<char>)
    ensures
        ensure_step(dry_run, state, source) is Link <==> !dry_run && state is Missing,
        ensure_step(dry_run, state, source) is Conflict <==> !dry_run && (state is Other || (
        state is Symlink && path::components(state->Symlink_0@) != path::components(source))),
        dry_run ==> ensure_step(dry_run, state, source) is Done,
{
}

/// What lies in an overlay is linked at the same place below its target: files as
/// links to them, directories as directories, or as one link where they are units.
pub proof fn links_lie_where_files_lie(e: WalkEntry, root: Seq<char>, to: Seq<char>)
    requires
        path::components(root).len() > 0,
        path::path_starts_with(e.path@, root),
    ensures
        ({
            let a = link_action(e, to, path::relative_to(e.path@, root)->0);
            let place = path::components(to) + path::components(e.path@).skip(
                path::components(root).len() as int,
            );
            &&& !e.is_dir ==> (a matches LinkActionView::Link { source, target } && source == e.path@
                && path::components(target) == place)
            &&& e.is_dir && e.link_dir ==> (a matches LinkActionView::DirLink {
                source,
                target,
            } && source == e.path@ && path::components(target) == place)
            &&& e.is_dir && !e.link_dir ==> (a matches LinkActionView::Dir { target }
                && path::components(target) == place)
        }),
{
    path::stripping_leaves_components(e.path@, root);
    path::joining_appends_components(to, path::relative_to(e.path@, root)->0);
}

/// Everything in an overlay is linked but its descriptor and what lies in a directory
/// that is linked as a unit.
pub proof fn everything_in_an_overlay_is_linked(
    entries: Seq<WalkEntry>,
    root: Seq<char>,
    to: Seq<char>,
    n: nat,
    i: int,
)
    requires
        0 <= i < n <= entries.len(),
        link_plan(entries, root, to, n) is Some,
        !Special::Descriptor.holds(entries[i].path@),
        forall|j: int|
            0 <= j < i && (#[trigger] entries[j]).is_dir && entries[j].link_dir
                && !Special::Descriptor.holds(entries[j].path@) ==> !path::path_starts_with(
                entries[i].path@,
                entries[j].path@,
            ),
    ensures
        path::path_starts_with(entries[i].path@, root),
        link_plan(entries, root, to, n)->0.contains(
            link_action(entries[i], to, path::relative_to(entries[i].path@, root)->0),
        ),
    decreases n,
{
    assert(!in_unit(entries, i)) by {
        if in_unit(entries, i) {
            let j = choose|j: int|
                0 <= j < i && #[trigger] is_unit(entries, j) && path::path_starts_with(
                    entries[i].path@,
                    entries[j].path@,
                );
            assert(entries[j].is_dir);
        }
    }
    let before = link_plan(entries, root, to, (n - 1) as nat)->0;
    let all = link_plan(entries, root, to, n)->0;
    let a = link_action(entries[i], to, path::relative_to(entries[i].path@, root)->0);
    if i == n - 1 {
        assert(all[all.len() - 1] == a);
    } else {
        everything_in_an_overlay_is_linked(entries, root, to, (n - 1) as nat, i);
        let m = choose|m: int| 0 <= m < before.len() && before[m] == a;
        assert(all[m] == a);
    }
}

/// Nothing is linked but what lies in the overlay, and neither its descriptor nor what
/// lies in a unit.
pub proof fn nothing_else_is_linked(
    entries: Seq<WalkEntry>,
    root: Seq<char>,
    to: Seq<char>,
    n: nat,
    m: int,
)
    requires
        n <= entries.len(),
        link_plan(entries, root, to, n) is Some,
        0 <= m < link_plan(entries, root, to, n)->0.len(),
    ensures
        exists|i: int|
            0 <= i < n && !Special::Descriptor.holds((#[trigger] entries[i]).path@)
                && path::path_starts_with(entries[i].path@, root) && link_plan(
                entries,
                root,
                to,
                n,
            )->0[m] == link_action(entries[i], to, path::relative_to(entries[i].path@, root)->0)
                && forall|j: int|
                0 <= j < i && (#[trigger] entries[j]).is_dir && entries[j].link_dir
                    && !Special::Descriptor.holds(entries[j].path@) ==> !path::path_starts_with(
                    entries[i].path@,
                    entries[j].path@,
                ),
    decreases n,
{
    let before = link_plan(entries, root, to, (n - 1) as nat)->0;
    if m < before.len() {
        nothing_else_is_linked(entries, root, to, (n - 1) as nat, m);
        let i = choose|i: int|
            0 <= i < n - 1 && !Special::Descriptor.holds((#[trigger] entries[i]).path@)
                && path::path_starts_with(entries[i].path@, root) && before[m] == link_action(
                entries[i],
                to,
                path::relative_to(entries[i].path@, root)->0,
            ) && forall|j: int|
                0 <= j < i && (#[trigger] entries[j]).is_dir && entries[j].link_dir
                    && !Special::Descriptor.holds(entries[j].path@) ==> !path::path_starts_with(
                    entries[i].path@,
                    entries[j].path@,
                );
        assert(link_plan(entries, root, to, n)->0[m] == before[m]);
        assert(entries[i].path@ == entries[i].path@);
    } else {
        assert forall|j: int|
            0 <= j < n - 1 && (#[trigger] entries[j]).is_dir && entries[j].link_dir
                && !Special::Descriptor.holds(entries[j].path@) implies !path::path_starts_with(
            entries[n - 1].path@,
            entries[j].path@,
        ) by {
            assert(is_unit(entries, j));
        }
        assert(path::path_starts_with(entries[n - 1].path@, root));
    }
}

/// What is added goes to the same place in the overlay that it has below the covered
/// directory, and the directory that it lies in there is made.
pub proof fn added_files_keep_their_place(
    plan: AddPlan,
    src: Seq<char>,
    root: Seq<char>,
    overlay_root: Seq<char>,
)
    requires
        path::path_starts_with(src, root),
        path::components(root).len() > 0,
        plan.takes(src, overlay_root, path::relative_to(src, root)->0),
    ensures
        plan.src@ == src,
        path::components(plan.target@) == path::components(overlay_root) + path::components(
            src,
        ).skip(path::components(root).len() as int),
        plan.parent is Some ==> path::components(plan.parent->0@) == path::components(
            plan.target@,
        ).drop_last(),
{
    path::stripping_leaves_components(src, root);
    path::joining_appends_components(overlay_root, path::relative_to(src, root)->0);
    if plan.parent is Some {
        path::parents_have_one_component_less(plan.target@);
    }
}

/// An action within an overlay is shown by the place that both ends share, and any
/// other with both of its ends.
pub proof fn actions_show_both_ends(
    verb: Seq<char>,
    root: Option<Seq<char>>,
    from: Seq<char>,
    to: Seq<char>,
    a: Seq<char>,
    b: Seq<char>,
)
    ensures
        root is None || !path::path_starts_with(from, root->0) ==> action_line(
            verb,
            root,
            from,
            to,
            a,
            b,
        ) == verb + " "@ + from + " -> "@ + to,
        root is Some && path::path_starts_with(from, root->0) ==> action_line(
            verb,
            root,
            from,
            to,
            a,
            b,
        ) == verb + " {"@ + a + " -> "@ + b + "}"@ + path::relative_to(from, root->0)->0,
{
}

/// Linking stops where an entry that would be linked does not lie in the overlay.
pub proof fn entries_from_elsewhere_stop_the_linking(
    entries: Seq<WalkEntry>,
    root: Seq<char>,
    to: Seq<char>,
    n: nat,
    i: int,
)
    requires
        0 <= i < n <= entries.len(),
        !Special::Descriptor.holds(entries[i].path@),
        !path::path_starts_with(entries[i].path@, root),
        forall|j: int|
            0 <= j < i && (#[trigger] entries[j]).is_dir && entries[j].link_dir
                && !Special::Descriptor.holds(entries[j].path@) ==> !path::path_starts_with(
                entries[i].path@,
                entries[j].path@,
            ),
    ensures
        is_stray(entries, root, i),
        link_plan(entries, root, to, n) is None,
    decreases n,
{
    assert(!in_unit(entries, i)) by {
        if in_unit(entries, i) {
            let j = choose|j: int|
                0 <= j < i && #[trigger] is_unit(entries, j) && path::path_starts_with(
                    entries[i].path@,
                    entries[j].path@,
                );
            assert(entries[j].is_dir);
        }
    }
    if i < n - 1 {
        entries_from_elsewhere_stop_the_linking(entries, root, to, (n - 1) as nat, i);
    }
}

/// Where everything that was found lies in the overlay, linking goes on to the end.
pub proof fn entries_of_the_overlay_are_linked_to_the_end(
    entries: Seq<WalkEntry>,
    root: Seq<char>,
    to: Seq<char>,
    n: nat,
)
    requires
        n <= entries.len(),
        forall|i: int| 0 <= i < n ==> path::path_starts_with((#[trigger] entries[i]).path@, root),
    ensures
        link_plan(entries, root, to, n) is Some,
        forall|i: int| 0 <= i < n ==> !#[trigger] is_stray(entries, root, i),
    decreases n,
{
    if n > 0 {
        entries_of_the_overlay_are_linked_to_the_end(entries, root, to, (n - 1) as nat);
        assert(path::path_starts_with(entries[n - 1].path@, root));
    }
    assert forall|i: int| 0 <= i < n implies !#[trigger] is_stray(entries, root, i) by {
        assert(path::path_starts_with(entries[i].path@, root));
    }
}

/// A label leads from one end of an action to the other: within an overlay by the
/// roots of both and the place that they share, elsewhere by the two paths.
pub proof fn labels_lead_from_end_to_end(
    l: ActionLabel,
    root: Option<Seq<char>>,
    from: Seq<char>,
    to: Seq<char>,
)
    requires
        shows(l, root, from, to),
    ensures
        l is Within <==> root is Some && path::path_starts_with(from, root->0),
        l matches ActionLabel::Within { from_root, to_root, rel } ==> {
            &&& from_root@ == root->0
            &&& path::relative_to(from, from_root@) == Some(rel@)
            &&& rel@.is_suffix_of(to) ==> to_root@ + rel@ == to
            &&& !rel@.is_suffix_of(to) ==> to_root@ == to
        },
        l matches ActionLabel::Plain { from: a, to: b } ==> a@ == from && b@ == to,
{
    if let ActionLabel::Within { from_root, to_root, rel } = l {
        if rel@.is_suffix_of(to) {
            assert(to_root@ + rel@ =~= to);
        }
    }
}

/// What does not lie in a directory is refused with its path and the directory.
pub proof fn refusals_name_path_and_directory(src: Seq<char>, root: Seq<char>)
    ensures
        src.is_prefix_of(not_included(src, root)),
        root.is_suffix_of(not_included(src, root)),
        not_included(src, root).len() == src.len() + " is not included in "@.len() + root.len(),
{
    let r = not_included(src, root);
    assert(r.subrange(0, src.len() as int) =~= src);
    assert(r.subrange(r.len() - root.len(), r.len() as int) =~= root);
}

} // verus!
