//! Managed blocks: a piece of text kept between two marker lines inside a file
//! that is otherwise left alone.

use crate::exec::Context;
use crate::overlays::FileMode;
use crate::sidecar;
use crate::sidecar::{collect, Declaration};
use crate::table;
use crate::text;
use crate::text::{concat2, cut, find_char_in, replace_char, same, to_chars};
use vstd::prelude::*;

verus! {

/// The line that opens the block of `marker`.
pub open spec fn begin_of(marker: Seq<char>) -> Seq<char> {
    "# >>> over: "@ + marker + " >>>"@
}

/// The line that closes the block of `marker`.
pub open spec fn end_of(marker: Seq<char>) -> Seq<char> {
    "# <<< over: "@ + marker + " <<<"@
}

/// Where the line that starts at `from` ends, its newline included.
pub open spec fn line_end(text: Seq<char>, from: int) -> int {
    let nl = text::find_char(text, '\n', from);
    if nl < text.len() {
        nl + 1
    } else {
        text.len() as int
    }
}

/// The first line at or after `from` that reads `needle`: where it starts and
/// where it ends, its newline included.
pub open spec fn line_at(text: Seq<char>, needle: Seq<char>, from: int) -> Option<(int, int)>
    decreases text.len() - from,
    when 0 <= from via line_at_decreases
{
    if from >= text.len() {
        None
    } else if text.subrange(from, text::find_char(text, '\n', from)) == needle {
        Some((from, line_end(text, from)))
    } else {
        line_at(text, needle, line_end(text, from))
    }
}

#[via_fn]
proof fn line_at_decreases(text: Seq<char>, needle: Seq<char>, from: int) {
    if from < text.len() {
        text::lemma_find_char(text, '\n', from);
    }
}

/// Where the block of `marker` lies: the start and the end of its opening line,
/// the start and the end of its closing line.
pub open spec fn block_at(text: Seq<char>, marker: Seq<char>) -> Option<(int, int, int, int)> {
    match line_at(text, begin_of(marker), 0) {
        None => None,
        Some(b) => match line_at(text, end_of(marker), b.1) {
            None => None,
            Some(e) => Some((b.0, b.1, e.0, e.1)),
        },
    }
}

/// `s` without a newline at its end, if it has one.
pub open spec fn chomp(s: Seq<char>) -> Seq<char> {
    if s.len() > 0 && s.last() == '\n' {
        s.drop_last()
    } else {
        s
    }
}

/// `s` with a newline at its end, unless it is empty or has one.
pub open spec fn terminated(s: Seq<char>) -> Seq<char> {
    if s.len() == 0 || s.last() == '\n' {
        s
    } else {
        s.push('\n')
    }
}

/// The block that `text` holds for `marker`.
pub open spec fn block_in(text: Seq<char>, marker: Seq<char>) -> BlockView {
    match block_at(text, marker) {
        Some(b) => BlockView::Found(chomp(text.subrange(b.1, b.2))),
        None => if line_at(text, begin_of(marker), 0) is None && line_at(
            text,
            end_of(marker),
            0,
        ) is None {
            BlockView::Absent
        } else {
            BlockView::Malformed
        },
    }
}

/// `text` with a block for `marker` behind it.
pub open spec fn appended(text: Seq<char>, marker: Seq<char>, content: Seq<char>) -> Seq<char> {
    terminated(text) + (begin_of(marker).push('\n') + (terminated(content) + end_of(marker).push(
        '\n',
    )))
}

/// `text` with other content in the block of `marker`; `text` itself where it
/// has no such block.
pub open spec fn with_content(
    text: Seq<char>,
    marker: Seq<char>,
    content: Seq<char>,
) -> Seq<char> {
    match block_at(text, marker) {
        Some(b) => text.take(b.1) + terminated(content) + text.skip(b.2),
        None => text,
    }
}

/// `text` without the block of `marker`; `text` itself where it has no such
/// block.
pub open spec fn without_block(text: Seq<char>, marker: Seq<char>) -> Seq<char> {
    match block_at(text, marker) {
        Some(b) => text.take(b.0) + text.skip(b.3),
        None => text,
    }
}

/// What [`BlockState`] says, over text.
pub enum BlockView {
    Absent,
    Found(Seq<char>),
    Malformed,
}

/// Whether, and how, a file holds the block of a marker.
#[derive(Debug, Clone, Copy, PartialEq, Eq)]
pub enum BlockState<'a> {
    /// Neither marker line is there.
    Absent,
    /// Both marker lines are there, with this text between them.
    Found(&'a str),
    /// One marker line without the other.
    Malformed,
}

impl<'a> BlockState<'a> {
    pub open spec fn view(&self) -> BlockView {
        match self {
            BlockState::Absent => BlockView::Absent,
            BlockState::Found(s) => BlockView::Found(s@),
            BlockState::Malformed => BlockView::Malformed,
        }
    }
}

/// The line that opens the block of `marker`.
pub fn begin_line(marker: &str) -> (r: String)
    ensures
        r@ == begin_of(marker@),
{
    let mut r = "# >>> over: ".to_owned();
    r.append(marker);
    r.append(" >>>");
    r
}

/// The line that closes the block of `marker`.
pub fn end_line(marker: &str) -> (r: String)
    ensures
        r@ == end_of(marker@),
{
    let mut r = "# <<< over: ".to_owned();
    r.append(marker);
    r.append(" <<<");
    r
}

/// A pair of positions as integers.
pub open spec fn span_int(p: Option<(usize, usize)>) -> Option<(int, int)> {
    match p {
        Some(q) => Some((q.0 as int, q.1 as int)),
        None => None,
    }
}

/// The first line of `text` at or after the character `from` that reads
/// `needle`: where it starts and where it ends, its newline included.
pub fn find_line(text: &str, needle: &str, from: usize) -> (r: Option<(usize, usize)>)
    ensures
        span_int(r) == line_at(text@, needle@, from as int),
        r matches Some(p) ==> from <= p.0 < p.1 <= text@.len(),
{
    let v = to_chars(text);
    let n: usize = v.len();
    let mut pos: usize = from;
    while pos < n
        invariant
            v@ == text@,
            n == text@.len(),
            from <= pos,
            line_at(text@, needle@, from as int) == line_at(text@, needle@, pos as int),
        decreases n - pos,
    {
        let nl: usize = find_char_in(&v, '\n', pos);
        let end: usize = if nl < n {
            nl + 1
        } else {
            n
        };
        let line = cut(text, pos, nl);
        if same(line.as_str(), needle) {
            return Some((pos, end));
        }
        pos = end;
    }
    None
}

/// The block that `text` holds for `marker`.
pub fn find_block<'a>(text: &'a str, marker: &str) -> (r: BlockState<'a>)
    ensures
        r@ == block_in(text@, marker@),
{
    let begin = begin_line(marker);
    let end = end_line(marker);
    match find_line(text, begin.as_str(), 0) {
        None => {
            if find_line(text, end.as_str(), 0).is_some() {
                BlockState::Malformed
            } else {
                BlockState::Absent
            }
        },
        Some((_, begin_end)) => {
            match find_line(text, end.as_str(), begin_end) {
                None => BlockState::Malformed,
                Some((end_start, _)) => {
                    let ghost content = text@.subrange(begin_end as int, end_start as int);
                    if end_start > begin_end && text.get_char(end_start - 1) == '\n' {
                        let r = text.substring_char(begin_end, end_start - 1);
                        assert(r@ =~= chomp(content));
                        BlockState::Found(r)
                    } else {
                        BlockState::Found(text.substring_char(begin_end, end_start))
                    }
                },
            }
        },
    }
}

/// `s` with a newline at its end, unless it is empty or has one.
fn terminate(s: &str) -> (r: String)
    ensures
        r@ == terminated(s@),
{
    let n: usize = s.unicode_len();
    let mut r = s.to_owned();
    if n > 0 && s.get_char(n - 1) != '\n' {
        proof {
            reveal_strlit("\n");
        }
        r.append("\n");
        assert(r@ =~= s@.push('\n'));
    }
    r
}

/// The marker lines with `content` between them, and nothing else.
pub fn block_only(marker: &str, content: &str) -> (r: String)
    ensures
        r@ == appended(Seq::empty(), marker@, content@),
{
    proof {
        reveal_strlit("");
    }
    assert(""@ =~= Seq::<char>::empty());
    append_block("", marker, content)
}

/// `text` with a block for `marker` behind it.
pub fn append_block(text: &str, marker: &str, content: &str) -> (r: String)
    ensures
        r@ == appended(text@, marker@, content@),
{
    proof {
        reveal_strlit("\n");
    }
    let mut out = terminate(text);
    let begin = begin_line(marker);
    let body = terminate(content);
    let end = end_line(marker);
    out.append(begin.as_str());
    out.append("\n");
    out.append(body.as_str());
    out.append(end.as_str());
    out.append("\n");
    assert(out@ =~= appended(text@, marker@, content@));
    out
}

/// `text` with other content in the block of `marker`, every other character
/// left alone; `text` itself where it has no such block.
pub fn replace_block(text: &str, marker: &str, content: &str) -> (r: String)
    ensures
        r@ == with_content(text@, marker@, content@),
{
    let begin = begin_line(marker);
    let end = end_line(marker);
    let begin_end = match find_line(text, begin.as_str(), 0) {
        Some((_, e)) => e,
        None => {
            return text.to_owned();
        },
    };
    let end_start = match find_line(text, end.as_str(), begin_end) {
        Some((s, _)) => s,
        None => {
            return text.to_owned();
        },
    };
    let mut out = cut(text, 0, begin_end);
    let body = terminate(content);
    let tail = cut(text, end_start, text.unicode_len());
    out.append(body.as_str());
    out.append(tail.as_str());
    assert(out@ =~= with_content(text@, marker@, content@));
    out
}

/// `text` without the block of `marker`, every other character left alone;
/// `text` itself where it has no such block.
pub fn remove_block(text: &str, marker: &str) -> (r: String)
    ensures
        r@ == without_block(text@, marker@),
{
    let begin = begin_line(marker);
    let end = end_line(marker);
    let begin_at = match find_line(text, begin.as_str(), 0) {
        Some(p) => p,
        None => {
            return text.to_owned();
        },
    };
    let end_end = match find_line(text, end.as_str(), begin_at.1) {
        Some((_, e)) => e,
        None => {
            return text.to_owned();
        },
    };
    let mut out = cut(text, 0, begin_at.0);
    let tail = cut(text, end_end, text.unicode_len());
    out.append(tail.as_str());
    assert(out@ =~= without_block(text@, marker@));
    out
}

/// What a `.partial` sidecar declares.
#[derive(Debug, PartialEq, Eq)]
pub struct PartialConfig {
    /// The file that the block goes into.
    pub target: String,
    pub content: String,
    /// Tells the block from others in the same file; the name of the sidecar
    /// where it is missing.
    pub marker: Option<String>,
}

impl Declaration for PartialConfig {
    open spec fn usable(&self) -> bool {
        self.target@.len() > 0 && self.content@.len() > 0
    }

    fn is_usable(&self) -> (r: bool) {
        self.target.as_str().unicode_len() > 0 && self.content.as_str().unicode_len() > 0
    }
}

/// The sidecars by name, every backslash in a name read as a slash.
pub open spec fn portable(files: Seq<(String, PartialConfig)>) -> Seq<
    (Seq<char>, PartialConfig),
> {
    files.map_values(|f: (String, PartialConfig)| (text::replaced(f.0@, '\\', '/'), f.1))
}

/// The blocks that `sidecars` declare, ordered by name: of several sidecars for
/// one name TOML takes precedence over YAML, and `.yaml` over `.yml`; one
/// without a target or without content is skipped. Fails on a file that is not
/// named like a sidecar.
pub fn discover_partials(sidecars: Vec<(String, PartialConfig)>) -> (r: Result<
    Vec<(String, PartialConfig)>,
    String,
>)
    ensures
        match r {
            Ok(found) => {
                &&& sidecar::first_stray(portable(sidecars@), ".partial"@, 0) is None
                &&& sidecar::declares(table::named(found@), portable(sidecars@), ".partial"@)
            },
            Err(e) => {
                let i = sidecar::first_stray(portable(sidecars@), ".partial"@, 0);
                i is Some && e@ == "unexpected partial config file: "@ + sidecars@[i->0].0@
            },
        },
{
    let ghost given = sidecars@;
    let mut names: Vec<String> = Vec::new();
    let mut files: Vec<(String, PartialConfig)> = Vec::new();
    for file in it: sidecars
        invariant
            it.seq() == given,
            names@.len() == it.index(),
            forall|k: int| 0 <= k < names@.len() ==> (#[trigger] names@[k])@ == given[k].0@,
            table::named(files@) == portable(given).take(it.index() as int),
    {
        let ghost before = files@;
        let name = replace_char(file.0.as_str(), '\\', '/');
        names.push(file.0);
        files.push((name, file.1));
        assert(table::named(files@) =~= table::named(before).push(portable(given)[it.index() as int]));
        assert(table::named(files@) =~= portable(given).take(it.index() + 1));
    }
    assert(table::named(files@) =~= portable(given));
    proof {
        sidecar::lemma_first_stray(portable(given), ".partial"@, 0);
    }
    match collect(files, ".partial") {
        Ok(found) => Ok(found),
        Err(i) => Err(concat2("unexpected partial config file: ", names[i].as_str())),
    }
}

/// What a conflict comes to.
#[derive(Debug, PartialEq, Eq)]
pub enum Resolution {
    /// Go on and write.
    Proceed,
    /// Leave everything as it is.
    Skip,
    /// Fail with this message.
    Refuse(String),
    /// Ask the user.
    Ask,
    /// Show how the first text differs from the second, and ask the user again.
    ShowDiff(String, String),
}

/// What to do about a directory or a symlink where a file should be.
#[derive(Debug, Clone, Copy, PartialEq, Eq, Structural)]
pub enum StructuralChoice {
    Skip,
    Overwrite,
}

impl StructuralChoice {
    /// How the choice is offered.
    pub fn label(self) -> (r: String)
        ensures
            r@ == match self {
                StructuralChoice::Skip => "Skip"@,
                StructuralChoice::Overwrite => "Overwrite (replace with a fresh file)"@,
            },
    {
        match self {
            StructuralChoice::Skip => "Skip".to_owned(),
            StructuralChoice::Overwrite => "Overwrite (replace with a fresh file)".to_owned(),
        }
    }

    /// The choices in the order in which they are offered.
    pub fn all() -> (r: Vec<StructuralChoice>)
        ensures
            r@ == seq![StructuralChoice::Skip, StructuralChoice::Overwrite],
    {
        vec![StructuralChoice::Skip, StructuralChoice::Overwrite]
    }
}

/// What to do about a block that does not hold what it should.
#[derive(Debug, Clone, Copy, PartialEq, Eq, Structural)]
pub enum BlockChoice {
    Skip,
    Overwrite,
    Diff,
}

impl BlockChoice {
    /// How the choice is offered.
    pub fn label(self) -> (r: String)
        ensures
            r@ == match self {
                BlockChoice::Skip => "Skip"@,
                BlockChoice::Overwrite => "Overwrite (replace the managed block)"@,
                BlockChoice::Diff => "Diff (show differences, then decide)"@,
            },
    {
        match self {
            BlockChoice::Skip => "Skip".to_owned(),
            BlockChoice::Overwrite => "Overwrite (replace the managed block)".to_owned(),
            BlockChoice::Diff => "Diff (show differences, then decide)".to_owned(),
        }
    }

    /// The choices in the order in which they are offered.
    pub fn all() -> (r: Vec<BlockChoice>)
        ensures
            r@ == seq![BlockChoice::Skip, BlockChoice::Overwrite, BlockChoice::Diff],
    {
        vec![BlockChoice::Skip, BlockChoice::Overwrite, BlockChoice::Diff]
    }
}

/// What is said of a directory or a symlink at `target`.
pub open spec fn structural_refusal(target: Seq<char>) -> Seq<char> {
    "partial-file conflict: '"@ + target
        + "' is a directory or symlink, not a plain file (use --force to replace it or run interactively to choose)"@
}

/// Decides about a directory or a symlink at `target`: it gives way when the run
/// is forced, is an error when nobody may be asked, and is otherwise left to the
/// user. `answer` is what the user chose, once asked. Where the decision is to go
/// on, the target is to be removed first.
pub fn resolve_structural_conflict(
    ctx: &Context,
    target: &str,
    answer: Option<StructuralChoice>,
) -> (r: Resolution)
    ensures
        ctx.force ==> r is Proceed,
        !ctx.force && ctx.no_prompt ==> r is Refuse && r->Refuse_0@ == structural_refusal(
            target@,
        ),
        !ctx.force && !ctx.no_prompt ==> r == match answer {
            None => Resolution::Ask,
            Some(StructuralChoice::Skip) => Resolution::Skip,
            Some(StructuralChoice::Overwrite) => Resolution::Proceed,
        },
{
    if ctx.force {
        return Resolution::Proceed;
    }
    if ctx.no_prompt {
        let mut m = "partial-file conflict: '".to_owned();
        m.append(target);
        m.append(
            "' is a directory or symlink, not a plain file (use --force to replace it or run interactively to choose)",
        );
        return Resolution::Refuse(m);
    }
    match answer {
        None => Resolution::Ask,
        Some(StructuralChoice::Skip) => Resolution::Skip,
        Some(StructuralChoice::Overwrite) => Resolution::Proceed,
    }
}

/// What is said of the block of `marker` in `target`.
pub open spec fn block_refusal(target: Seq<char>, marker: Seq<char>) -> Seq<char> {
    "partial-file conflict: managed block '"@ + marker + "' in '"@ + target
        + "' doesn't match the overlay's content (use --force to overwrite or run interactively to choose)"@
}

/// The text that a block is compared by: its content, or the whole file where it
/// has no well-formed block.
pub open spec fn shown(current: Seq<char>, marker: Seq<char>) -> Seq<char> {
    match block_in(current, marker) {
        BlockView::Found(c) => c,
        _ => current,
    }
}

/// Decides about a block of `marker` in `target`, whose text is `current`, that
/// does not hold `desired`: it is overwritten when the run is forced, is an error
/// when nobody may be asked, and is otherwise left to the user. `answer` is what
/// the user chose, once asked.
pub fn resolve_block_conflict(
    ctx: &Context,
    target: &str,
    marker: &str,
    current: &str,
    desired: &str,
    answer: Option<BlockChoice>,
) -> (r: Resolution)
    ensures
        ctx.force ==> r is Proceed,
        !ctx.force && ctx.no_prompt ==> r is Refuse && r->Refuse_0@ == block_refusal(
            target@,
            marker@,
        ),
        !ctx.force && !ctx.no_prompt ==> match answer {
            None => r is Ask,
            Some(BlockChoice::Skip) => r is Skip,
            Some(BlockChoice::Overwrite) => r is Proceed,
            Some(BlockChoice::Diff) => r is ShowDiff && r->ShowDiff_0@ == shown(
                current@,
                marker@,
            ) && r->ShowDiff_1@ == desired@,
        },
{
    if ctx.force {
        return Resolution::Proceed;
    }
    if ctx.no_prompt {
        let mut m = "partial-file conflict: managed block '".to_owned();
        m.append(marker);
        m.append("' in '");
        m.append(target);
        m.append(
            "' doesn't match the overlay's content (use --force to overwrite or run interactively to choose)",
        );
        return Resolution::Refuse(m);
    }
    match answer {
        None => Resolution::Ask,
        Some(BlockChoice::Skip) => Resolution::Skip,
        Some(BlockChoice::Overwrite) => Resolution::Proceed,
        Some(BlockChoice::Diff) => {
            let existing = match find_block(current, marker) {
                BlockState::Found(x) => x,
                _ => current,
            };
            Resolution::ShowDiff(existing.to_owned(), desired.to_owned())
        },
    }
}

/// What stands at the target of a managed block.
#[derive(Debug, PartialEq, Eq)]
pub enum TargetState {
    Missing,
    Directory,
    Symlink,
    /// A file with this text.
    File(String),
}

/// What is to be done about a managed block.
#[derive(Debug, PartialEq, Eq)]
pub enum PartialStep {
    /// Nothing.
    Done,
    /// Create the target's parent directories and write this text to the target.
    Create(String),
    /// Write this text to the target.
    Write(String),
    /// Settle the conflict with what stands at the target.
    StructuralConflict,
    /// Settle the conflict with what the block holds.
    BlockConflict,
}

/// Keeps a block of `content` in the file `target`.
#[derive(Debug, PartialEq, Eq)]
pub struct EnsurePartialBlock {
    pub target: String,
    pub marker: String,
    pub content: String,
    /// What the permissions are set to after a write; untouched where missing.
    pub permissions: Option<FileMode>,
}

impl EnsurePartialBlock {
    pub fn new(target: String, marker: String, content: String) -> (r: Self)
        ensures
            r == (EnsurePartialBlock { target, marker, content, permissions: None }),
    {
        EnsurePartialBlock { target, marker, content, permissions: None }
    }

    /// The same, with the permissions that the target is to have.
    pub fn with_permissions(self, permissions: Option<FileMode>) -> (r: Self)
        ensures
            r == (EnsurePartialBlock { permissions, ..self }),
    {
        EnsurePartialBlock {
            target: self.target,
            marker: self.marker,
            content: self.content,
            permissions,
        }
    }

    /// How the block is shown, in a file whose path is written as `path`.
    pub fn label(&self, path: &str) -> (r: String)
        ensures
            r@ == "partial block: "@ + path@ + " ("@ + self.marker@ + ")"@,
    {
        let mut r = concat2("partial block: ", path);
        r.append(" (");
        r.append(self.marker.as_str());
        r.append(")");
        r
    }

    /// Decides what is to be done, given what stands at the target. A dry run
    /// does nothing.
    pub fn execute(&self, ctx: &Context, state: &TargetState) -> (r: PartialStep)
        ensures
            ctx.dry_run ==> r is Done,
            !ctx.dry_run ==> match *state {
                TargetState::Missing => r is Create && r->Create_0@ == appended(
                    Seq::empty(),
                    self.marker@,
                    self.content@,
                ),
                TargetState::Directory | TargetState::Symlink => r is StructuralConflict,
                TargetState::File(current) => match block_in(current@, self.marker@) {
                    BlockView::Absent => r is Write && r->Write_0@ == appended(
                        current@,
                        self.marker@,
                        self.content@,
                    ),
                    BlockView::Found(c) => if c == self.content@ {
                        r is Done
                    } else {
                        r is BlockConflict
                    },
                    BlockView::Malformed => r is BlockConflict,
                },
            },
    {
        if ctx.dry_run {
            return PartialStep::Done;
        }
        match state {
            TargetState::Missing => PartialStep::Create(
                block_only(self.marker.as_str(), self.content.as_str()),
            ),
            TargetState::Directory => PartialStep::StructuralConflict,
            TargetState::Symlink => PartialStep::StructuralConflict,
            TargetState::File(current) => {
                match find_block(current.as_str(), self.marker.as_str()) {
                    BlockState::Absent => PartialStep::Write(
                        append_block(
                            current.as_str(),
                            self.marker.as_str(),
                            self.content.as_str(),
                        ),
                    ),
                    BlockState::Found(existing) => {
                        if same(existing, self.content.as_str()) {
                            PartialStep::Done
                        } else {
                            PartialStep::BlockConflict
                        }
                    },
                    BlockState::Malformed => PartialStep::BlockConflict,
                }
            },
        }
    }

    /// What is to be done once a conflict is settled in favour of writing. Stray
    /// marker lines are never removed: a well-formed block follows them.
    pub fn overwrite(&self, state: &TargetState) -> (r: PartialStep)
        ensures
            r is Write,
            r->Write_0@ == match *state {
                TargetState::File(current) => if block_in(current@, self.marker@) is Found {
                    with_content(current@, self.marker@, self.content@)
                } else {
                    appended(current@, self.marker@, self.content@)
                },
                _ => appended(Seq::empty(), self.marker@, self.content@),
            },
    {
        match state {
            TargetState::File(current) => {
                let text = current.as_str();
                match find_block(text, self.marker.as_str()) {
                    BlockState::Found(_) => PartialStep::Write(
                        replace_block(text, self.marker.as_str(), self.content.as_str()),
                    ),
                    _ => PartialStep::Write(
                        append_block(text, self.marker.as_str(), self.content.as_str()),
                    ),
                }
            },
            _ => PartialStep::Write(block_only(self.marker.as_str(), self.content.as_str())),
        }
    }
}

// What lines are where, in text that is put together.

proof fn lemma_line_at(text: Seq<char>, needle: Seq<char>, from: int)
    requires
        0 <= from,
    ensures
        line_at(text, needle, from) matches Some(p) ==> {
            &&& from <= p.0 < p.1 <= text.len()
            &&& p.1 == line_end(text, p.0)
            &&& text.subrange(p.0, text::find_char(text, '\n', p.0)) == needle
        },
    decreases text.len() - from,
{
    if from < text.len() {
        text::lemma_find_char(text, '\n', from);
        if text.subrange(from, text::find_char(text, '\n', from)) != needle {
            lemma_line_at(text, needle, line_end(text, from));
        }
    }
}

proof fn lemma_find_char_prefix(x: Seq<char>, y: Seq<char>, c: char, from: int)
    requires
        0 <= from <= x.len(),
    ensures
        text::find_char(x, c, from) < x.len() ==> text::find_char(x + y, c, from) == text::find_char(x, c, from),
        text::find_char(x, c, from) >= x.len() ==> text::find_char(x + y, c, from) == x.len() + text::find_char(
            y,
            c,
            0,
        ),
{
    text::lemma_find_char(x, c, from);
    text::lemma_find_char(y, c, 0);
    let at = text::find_char(x, c, from);
    if at < x.len() {
        text::lemma_find_char_is(x + y, c, from, at);
    } else {
        text::lemma_find_char_is(x + y, c, from, x.len() + text::find_char(y, c, 0));
    }
}

proof fn lemma_find_char_shift(x: Seq<char>, y: Seq<char>, c: char, k: int)
    requires
        0 <= k <= y.len(),
    ensures
        text::find_char(x + y, c, x.len() + k) == x.len() + text::find_char(y, c, k),
{
    text::lemma_find_char(y, c, k);
    text::lemma_find_char_is(x + y, c, x.len() + k, x.len() + text::find_char(y, c, k));
}

/// A pair of positions, moved on by `n`.
spec fn shifted(p: Option<(int, int)>, n: int) -> Option<(int, int)> {
    match p {
        Some(q) => Some((q.0 + n, q.1 + n)),
        None => None,
    }
}

proof fn lemma_line_at_shift(x: Seq<char>, y: Seq<char>, needle: Seq<char>, k: int)
    requires
        0 <= k,
    ensures
        line_at(x + y, needle, x.len() + k) == shifted(line_at(y, needle, k), x.len() as int),
    decreases y.len() - k,
{
    if k < y.len() {
        text::lemma_find_char(y, '\n', k);
        lemma_find_char_shift(x, y, '\n', k);
        let nl = text::find_char(y, '\n', k);
        assert((x + y).subrange(x.len() + k, x.len() + nl) =~= y.subrange(k, nl));
        lemma_line_at_shift(x, y, needle, line_end(y, k));
    }
}

/// Whether a line that is put behind `s` starts a line of its own.
spec fn is_terminated(s: Seq<char>) -> bool {
    s.len() == 0 || s.last() == '\n'
}

proof fn lemma_line_at_prefix(x: Seq<char>, y: Seq<char>, needle: Seq<char>, from: int)
    requires
        is_terminated(x),
        0 <= from <= x.len(),
    ensures
        line_at(x + y, needle, from) == match line_at(x, needle, from) {
            Some(p) => Some(p),
            None => shifted(line_at(y, needle, 0), x.len() as int),
        },
    decreases x.len() - from,
{
    if from < x.len() {
        text::lemma_find_char(x, '\n', from);
        lemma_find_char_prefix(x, y, '\n', from);
        let nl = text::find_char(x, '\n', from);
        assert(nl < x.len()) by {
            if nl >= x.len() {
                assert(x[x.len() - 1] != '\n');
            }
        }
        assert((x + y).subrange(from, nl) =~= x.subrange(from, nl));
        lemma_line_at_prefix(x, y, needle, line_end(x, from));
    } else {
        lemma_line_at_shift(x, y, needle, 0);
    }
}

proof fn lemma_line_at_terminated(s: Seq<char>, needle: Seq<char>, from: int)
    requires
        0 <= from <= s.len(),
        from == s.len() ==> is_terminated(s),
    ensures
        line_at(terminated(s), needle, from) is Some == line_at(s, needle, from) is Some,
        line_at(s, needle, from) matches Some(p) ==> {
            let q = line_at(terminated(s), needle, from)->0;
            &&& q.0 == p.0
            &&& p.1 < s.len() ==> q.1 == p.1
            &&& p.1 == s.len() ==> q.1 == terminated(s).len()
        },
    decreases s.len() - from,
{
    if s.len() > 0 && s.last() != '\n' && from < s.len() {
        let t = terminated(s);
        let y = seq!['\n'];
        assert(t =~= s + y);
        text::lemma_find_char(s, '\n', from);
        lemma_find_char_prefix(s, y, '\n', from);
        assert(text::find_char(y, '\n', 0) == 0);
        let nl = text::find_char(s, '\n', from);
        assert(t.subrange(from, nl) =~= s.subrange(from, nl));
        if s.subrange(from, nl) != needle {
            if nl < s.len() {
                lemma_line_at_terminated(s, needle, line_end(s, from));
            } else {
                assert(line_at(t, needle, t.len() as int) is None);
            }
        }
    }
}

/// The content that is found in a block after `content` was put into it.
pub open spec fn kept_content(content: Seq<char>) -> Seq<char> {
    chomp(terminated(content))
}

/// Whether `content` can stand in the block of `marker`: the marker is one line,
/// and no line of the content closes the block.
pub open spec fn fits(marker: Seq<char>, content: Seq<char>) -> bool {
    &&& !marker.contains('\n')
    &&& line_at(content, end_of(marker), 0) is None
}

proof fn lemma_markers_are_lines(marker: Seq<char>, tail: Seq<char>)
    requires
        !marker.contains('\n'),
    ensures
        line_at(begin_of(marker).push('\n') + tail, begin_of(marker), 0) == Some(
            (0int, begin_of(marker).len() as int + 1),
        ),
        line_at(end_of(marker).push('\n') + tail, end_of(marker), 0) == Some(
            (0int, end_of(marker).len() as int + 1),
        ),
{
    reveal_strlit("# >>> over: ");
    reveal_strlit(" >>>");
    reveal_strlit("# <<< over: ");
    reveal_strlit(" <<<");
    let b = begin_of(marker);
    let e = end_of(marker);
    assert forall|i: int| 0 <= i < b.len() implies b[i] != '\n' by {
        if 12 <= i < 12 + marker.len() {
            assert(b[i] == marker[i - 12]);
        }
    }
    assert forall|i: int| 0 <= i < e.len() implies e[i] != '\n' by {
        if 12 <= i < 12 + marker.len() {
            assert(e[i] == marker[i - 12]);
        }
    }
    let x = b.push('\n') + tail;
    let y = e.push('\n') + tail;
    text::lemma_find_char_is(x, '\n', 0, b.len() as int);
    text::lemma_find_char_is(y, '\n', 0, e.len() as int);
    assert(x.subrange(0, b.len() as int) =~= b);
    assert(y.subrange(0, e.len() as int) =~= e);
}

proof fn lemma_appended_block(text: Seq<char>, marker: Seq<char>, content: Seq<char>)
    requires
        fits(marker, content),
        line_at(text, begin_of(marker), 0) is None,
    ensures
        ({
            let begin = terminated(text).len() as int;
            let body = begin + begin_of(marker).len() + 1;
            let end = body + terminated(content).len();
            block_at(appended(text, marker, content), marker) == Some(
                (begin, body, end, end + end_of(marker).len() + 1),
            )
        }),
{
    let t = terminated(text);
    let b = begin_of(marker).push('\n');
    let c = terminated(content);
    let e = end_of(marker).push('\n');
    let out = appended(text, marker, content);
    lemma_markers_are_lines(marker, c + e);
    lemma_markers_are_lines(marker, Seq::empty());
    lemma_line_at_terminated(text, begin_of(marker), 0);
    lemma_line_at_prefix(t, b + (c + e), begin_of(marker), 0);
    assert(out =~= (t + b) + (c + e));
    lemma_line_at_shift(t + b, c + e, end_of(marker), 0);
    lemma_line_at_terminated(content, end_of(marker), 0);
    lemma_line_at_prefix(c, e, end_of(marker), 0);
    assert(e + Seq::<char>::empty() =~= e);
}

/// A block that was appended is found again with its content.
pub proof fn appended_block_is_found(text: Seq<char>, marker: Seq<char>, content: Seq<char>)
    requires
        fits(marker, content),
        block_in(text, marker) == BlockView::Absent,
    ensures
        block_in(appended(text, marker, content), marker) == BlockView::Found(
            kept_content(content),
        ),
{
    lemma_appended_block(text, marker, content);
    let out = appended(text, marker, content);
    let b = block_at(out, marker)->0;
    assert(out.subrange(b.1, b.2) =~= terminated(content));
}

/// The content of a block is found as it was put in, unless it ends with a
/// newline, which is then the one that ends its last line.
pub proof fn content_is_kept(content: Seq<char>)
    ensures
        content.len() == 0 || content.last() != '\n' ==> kept_content(content) == content,
        content.len() > 0 && content.last() == '\n' ==> kept_content(content)
            == content.drop_last(),
{
    if content.len() > 0 && content.last() != '\n' {
        assert(kept_content(content) =~= content);
    }
}

/// Appending a block leaves what stood in the file before it, character for
/// character.
pub proof fn appending_keeps_the_file(text: Seq<char>, marker: Seq<char>, content: Seq<char>)
    ensures
        text.is_prefix_of(appended(text, marker, content)),
{
    assert(appended(text, marker, content).subrange(0, text.len() as int) =~= text);
}

/// Removing a block that was appended gives the file back, with a newline at
/// its end.
pub proof fn removing_undoes_appending(text: Seq<char>, marker: Seq<char>, content: Seq<char>)
    requires
        fits(marker, content),
        block_in(text, marker) == BlockView::Absent,
    ensures
        without_block(appended(text, marker, content), marker) == terminated(text),
{
    lemma_appended_block(text, marker, content);
    assert(without_block(appended(text, marker, content), marker) =~= terminated(text));
}

proof fn lemma_block_at(text: Seq<char>, marker: Seq<char>)
    ensures
        block_at(text, marker) matches Some(b) ==> {
            &&& 0 <= b.0 < b.1 <= b.2 < b.3 <= text.len()
            &&& text[b.1 - 1] == '\n'
            &&& line_at(text, begin_of(marker), 0) == Some((b.0, b.1))
            &&& line_at(text, end_of(marker), b.1) == Some((b.2, b.3))
        },
{
    lemma_line_at(text, begin_of(marker), 0);
    if let Some(b) = block_at(text, marker) {
        lemma_line_at(text, end_of(marker), b.1);
        text::lemma_find_char(text, '\n', b.0);
    }
}

proof fn lemma_line_at_from_match(text: Seq<char>, needle: Seq<char>, from: int)
    requires
        0 <= from,
        line_at(text, needle, from) is Some,
    ensures
        line_at(text, needle, (line_at(text, needle, from)->0).0) == line_at(text, needle, from),
{
    lemma_line_at(text, needle, from);
}

proof fn lemma_opening_stays(text: Seq<char>, marker: Seq<char>)
    requires
        block_at(text, marker) is Some,
    ensures
        ({
            let b = block_at(text, marker)->0;
            &&& is_terminated(text.take(b.1))
            &&& line_at(text.take(b.1), begin_of(marker), 0) == Some((b.0, b.1))
        }),
{
    lemma_block_at(text, marker);
    let b = block_at(text, marker)->0;
    let x = text.take(b.1);
    let y = text.skip(b.1);
    assert(text =~= x + y);
    assert(x.last() == text[b.1 - 1]);
    lemma_line_at_prefix(x, y, begin_of(marker), 0);
    lemma_line_at(y, begin_of(marker), 0);
}

proof fn lemma_closing_stays(text: Seq<char>, marker: Seq<char>)
    requires
        block_at(text, marker) is Some,
    ensures
        ({
            let b = block_at(text, marker)->0;
            line_at(text.skip(b.2), end_of(marker), 0) == Some((0int, b.3 - b.2))
        }),
{
    lemma_block_at(text, marker);
    let b = block_at(text, marker)->0;
    lemma_line_at_from_match(text, end_of(marker), b.1);
    let w = text.take(b.2);
    let z = text.skip(b.2);
    assert(text =~= w + z);
    lemma_line_at_shift(w, z, end_of(marker), 0);
}

proof fn lemma_replaced_block(text: Seq<char>, marker: Seq<char>, content: Seq<char>)
    requires
        fits(marker, content),
        block_at(text, marker) is Some,
    ensures
        ({
            let b = block_at(text, marker)->0;
            let end = b.1 + terminated(content).len();
            block_at(with_content(text, marker, content), marker) == Some(
                (b.0, b.1, end, end + (b.3 - b.2)),
            )
        }),
{
    lemma_block_at(text, marker);
    lemma_opening_stays(text, marker);
    lemma_closing_stays(text, marker);
    let b = block_at(text, marker)->0;
    let x = text.take(b.1);
    let c = terminated(content);
    let z = text.skip(b.2);
    let out = with_content(text, marker, content);
    assert(out =~= x + (c + z));
    assert(line_at(out, begin_of(marker), 0) == Some((b.0, b.1))) by {
        lemma_line_at_prefix(x, c + z, begin_of(marker), 0);
    }
    assert(line_at(c + z, end_of(marker), 0) == Some((c.len() as int, c.len() + (b.3 - b.2)))) by {
        lemma_line_at_terminated(content, end_of(marker), 0);
        lemma_line_at_prefix(c, z, end_of(marker), 0);
    }
    lemma_line_at_shift(x, c + z, end_of(marker), 0);
}

/// A block whose content was replaced is found again with the new content.
pub proof fn replaced_content_is_found(text: Seq<char>, marker: Seq<char>, content: Seq<char>)
    requires
        fits(marker, content),
        block_in(text, marker) is Found,
    ensures
        block_in(with_content(text, marker, content), marker) == BlockView::Found(
            kept_content(content),
        ),
{
    lemma_block_at(text, marker);
    lemma_replaced_block(text, marker, content);
    let out = with_content(text, marker, content);
    let b = block_at(out, marker)->0;
    assert(out.subrange(b.1, b.2) =~= terminated(content));
}

/// A block that was written is in place: it is found with its content, so that the
/// next run has nothing to do. That needs a file without stray marker lines, and
/// content that does not end with a newline.
pub proof fn written_blocks_are_in_place(text: Seq<char>, marker: Seq<char>, content: Seq<char>)
    requires
        fits(marker, content),
        content.len() == 0 || content.last() != '\n',
        !(block_in(text, marker) is Malformed),
    ensures
        block_in(
            if block_in(text, marker) is Found {
                with_content(text, marker, content)
            } else {
                appended(text, marker, content)
            },
            marker,
        ) == BlockView::Found(content),
        block_in(appended(Seq::empty(), marker, content), marker) == BlockView::Found(content),
{
    content_is_kept(content);
    if block_in(text, marker) is Found {
        replaced_content_is_found(text, marker, content);
    } else {
        appended_block_is_found(text, marker, content);
    }
    appended_block_is_found(Seq::empty(), marker, content);
}

/// Replacing content leaves everything outside the block as it was: what stood
/// before its content, and what stood from its closing line on.
pub proof fn replacing_keeps_the_rest(text: Seq<char>, marker: Seq<char>, content: Seq<char>)
    requires
        block_at(text, marker) is Some,
    ensures
        ({
            let b = block_at(text, marker)->0;
            let out = with_content(text, marker, content);
            &&& text.take(b.1).is_prefix_of(out)
            &&& text.skip(b.2).is_suffix_of(out)
            &&& out.len() == b.1 + terminated(content).len() + (text.len() - b.2)
        }),
{
    lemma_block_at(text, marker);
    let b = block_at(text, marker)->0;
    let out = with_content(text, marker, content);
    assert(out.subrange(0, b.1) =~= text.take(b.1));
    assert(out.subrange(out.len() - (text.len() - b.2), out.len() as int) =~= text.skip(b.2));
}

/// Replacing content a second time by the same content changes nothing.
pub proof fn replacing_is_idempotent(text: Seq<char>, marker: Seq<char>, content: Seq<char>)
    requires
        fits(marker, content),
    ensures
        with_content(with_content(text, marker, content), marker, content) == with_content(
            text,
            marker,
            content,
        ),
{
    if block_at(text, marker) is Some {
        lemma_block_at(text, marker);
        lemma_replaced_block(text, marker, content);
        let out = with_content(text, marker, content);
        assert(with_content(out, marker, content) =~= out);
    }
}

/// A file without a well-formed block is left alone by replacing and removing.
pub proof fn nothing_happens_without_a_block(
    text: Seq<char>,
    marker: Seq<char>,
    content: Seq<char>,
)
    requires
        !(block_in(text, marker) is Found),
    ensures
        with_content(text, marker, content) == text,
        without_block(text, marker) == text,
{
}

/// Whether no line of `text` opens or closes the block of `marker`.
pub open spec fn free_of(text: Seq<char>, marker: Seq<char>) -> bool {
    line_at(text, begin_of(marker), 0) is None && line_at(text, end_of(marker), 0) is None
}

proof fn lemma_marker_lines_differ(a: Seq<char>, b: Seq<char>)
    requires
        a != b,
    ensures
        begin_of(a) != begin_of(b),
        end_of(a) != end_of(b),
        begin_of(a) != end_of(b),
        end_of(a) != begin_of(b),
{
    reveal_strlit("# >>> over: ");
    reveal_strlit(" >>>");
    reveal_strlit("# <<< over: ");
    reveal_strlit(" <<<");
    assert(begin_of(a)[2] == '>' && begin_of(b)[2] == '>');
    assert(end_of(a)[2] == '<' && end_of(b)[2] == '<');
    assert(begin_of(a).subrange(12, begin_of(a).len() - 4) =~= a);
    assert(begin_of(b).subrange(12, begin_of(b).len() - 4) =~= b);
    assert(end_of(a).subrange(12, end_of(a).len() - 4) =~= a);
    assert(end_of(b).subrange(12, end_of(b).len() - 4) =~= b);
}

proof fn lemma_own_block_is_free(marker: Seq<char>, content: Seq<char>, other: Seq<char>)
    requires
        marker != other,
        !marker.contains('\n'),
        free_of(content, other),
    ensures
        free_of(
            begin_of(marker).push('\n') + (terminated(content) + end_of(marker).push('\n')),
            other,
        ),
{
    let b = begin_of(marker).push('\n');
    let c = terminated(content);
    let e = end_of(marker).push('\n');
    lemma_marker_lines_differ(marker, other);
    lemma_markers_are_lines(marker, Seq::empty());
    assert(b + Seq::<char>::empty() =~= b);
    assert(e + Seq::<char>::empty() =~= e);
    lemma_single_line(begin_of(marker), begin_of(other));
    lemma_single_line(begin_of(marker), end_of(other));
    lemma_single_line(end_of(marker), begin_of(other));
    lemma_single_line(end_of(marker), end_of(other));
    lemma_line_at_terminated(content, begin_of(other), 0);
    lemma_line_at_terminated(content, end_of(other), 0);
    lemma_line_at_prefix(c, e, begin_of(other), 0);
    lemma_line_at_prefix(c, e, end_of(other), 0);
    lemma_line_at_prefix(b, c + e, begin_of(other), 0);
    lemma_line_at_prefix(b, c + e, end_of(other), 0);
}

proof fn lemma_single_line(line: Seq<char>, needle: Seq<char>)
    requires
        line_at(line.push('\n'), line, 0) == Some((0int, line.len() as int + 1)),
        line != needle,
    ensures
        line_at(line.push('\n'), needle, 0) is None,
{
    let t = line.push('\n');
    lemma_line_at(t, line, 0);
    text::lemma_find_char(t, '\n', 0);
    assert(t.subrange(0, text::find_char(t, '\n', 0)) == line);
    assert(line_end(t, 0) == t.len());
    assert(line_at(t, needle, t.len() as int) is None);
}

/// Blocks of different markers do not touch each other: appending the block of
/// one marker leaves the block of another, and its absence, as they were.
pub proof fn appending_leaves_other_blocks(
    text: Seq<char>,
    marker: Seq<char>,
    content: Seq<char>,
    other: Seq<char>,
)
    requires
        marker != other,
        !marker.contains('\n'),
        free_of(content, other),
    ensures
        block_in(appended(text, marker, content), other) == block_in(text, other),
{
    let t = terminated(text);
    let own = begin_of(marker).push('\n') + (terminated(content) + end_of(marker).push('\n'));
    let out = appended(text, marker, content);
    lemma_own_block_is_free(marker, content, other);
    lemma_line_at_terminated(text, begin_of(other), 0);
    lemma_line_at_terminated(text, end_of(other), 0);
    lemma_line_at_prefix(t, own, begin_of(other), 0);
    lemma_line_at_prefix(t, own, end_of(other), 0);
    lemma_line_at(text, begin_of(other), 0);
    lemma_line_at(t, begin_of(other), 0);
    if let Some(b) = line_at(text, begin_of(other), 0) {
        let q = line_at(t, begin_of(other), 0)->0;
        lemma_line_at_prefix(t, own, end_of(other), q.1);
        lemma_line_at(text, end_of(other), b.1);
        if b.1 == text.len() {
            // The opening line is the last one: no closing line can follow.
            assert(line_at(text, end_of(other), b.1) is None);
            assert(line_at(t, end_of(other), q.1) is None);
        } else {
            lemma_line_at_terminated(text, end_of(other), b.1);
            if let Some(e) = line_at(text, end_of(other), b.1) {
                assert(out.subrange(b.1, e.0) =~= text.subrange(b.1, e.0));
            }
        }
    }
}

/// Where a file holds the two lines of a marker, what lies between them is the block;
/// removing takes out the lines and what lies between them, replacing only what lies
/// between them, and neither touches anything else.
pub proof fn blocks_lie_between_their_lines(
    before: Seq<char>,
    marker: Seq<char>,
    body: Seq<char>,
    behind: Seq<char>,
    content: Seq<char>,
)
    requires
        !marker.contains('\n'),
        before.len() == 0 || before.last() == '\n',
        body.len() == 0 || body.last() == '\n',
        line_at(before, "# >>> over: "@ + marker + " >>>"@, 0) is None,
        line_at(body, "# <<< over: "@ + marker + " <<<"@, 0) is None,
    ensures
        ({
            let first = ("# >>> over: "@ + marker + " >>>"@).push('\n');
            let last = ("# <<< over: "@ + marker + " <<<"@).push('\n');
            let text = before + first + body + last + behind;
            let ended = if content.len() == 0 || content.last() == '\n' {
                content
            } else {
                content.push('\n')
            };
            &&& body.len() > 0 ==> block_in(text, marker) == BlockView::Found(body.drop_last())
            &&& body.len() == 0 ==> block_in(text, marker) == BlockView::Found(body)
            &&& without_block(text, marker) == before + behind
            &&& with_content(text, marker, content) == before + first + ended + last + behind
        }),
{
    let first = begin_of(marker).push('\n');
    let last = end_of(marker).push('\n');
    let text = before + first + body + last + behind;
    lemma_block_between(before, marker, body, behind);
    lemma_cut(before, first, body, last, behind);
    assert(with_content(text, marker, content) =~= before + first + terminated(content) + last
        + behind);
}

proof fn lemma_block_between(
    before: Seq<char>,
    marker: Seq<char>,
    body: Seq<char>,
    behind: Seq<char>,
)
    requires
        !marker.contains('\n'),
        is_terminated(before),
        is_terminated(body),
        line_at(before, begin_of(marker), 0) is None,
        line_at(body, end_of(marker), 0) is None,
    ensures
        ({
            let first = begin_of(marker).push('\n');
            let last = end_of(marker).push('\n');
            let start: int = (before.len() + first.len()) as int;
            block_at(before + first + body + last + behind, marker) == Some(
                (
                    before.len() as int,
                    start,
                    start + body.len(),
                    start + body.len() + last.len(),
                ),
            )
        }),
{
    let first = begin_of(marker).push('\n');
    let last = end_of(marker).push('\n');
    let rest = body + (last + behind);
    let text = before + first + body + last + behind;
    assert(text =~= before + (first + rest));
    lemma_markers_are_lines(marker, rest);
    lemma_markers_are_lines(marker, behind);
    lemma_line_at_prefix(before, first + rest, begin_of(marker), 0);
    assert(text =~= (before + first) + rest);
    lemma_line_at_shift(before + first, rest, end_of(marker), 0);
    lemma_line_at_prefix(body, last + behind, end_of(marker), 0);
}

proof fn lemma_cut(
    before: Seq<char>,
    first: Seq<char>,
    body: Seq<char>,
    last: Seq<char>,
    behind: Seq<char>,
)
    ensures
        ({
            let text = before + first + body + last + behind;
            let start: int = (before.len() + first.len()) as int;
            &&& text.subrange(start, start + body.len()) == body
            &&& text.take(before.len() as int) == before
            &&& text.skip(start + body.len() + last.len()) == behind
            &&& text.take(start) == before + first
            &&& text.skip(start + body.len()) == last + behind
        }),
{
    let text = before + first + body + last + behind;
    let start: int = (before.len() + first.len()) as int;
    assert(text.subrange(start, start + body.len()) =~= body);
    assert(text.take(before.len() as int) =~= before);
    assert(text.skip(start + body.len() + last.len()) =~= behind);
    assert(text.take(start) =~= before + first);
    assert(text.skip(start + body.len()) =~= last + behind);
}

/// A line is found where the whole of it stands between two line breaks, and the first
/// such line is.
pub proof fn lines_are_found_whole(text: Seq<char>, needle: Seq<char>, from: int, q: int)
    requires
        0 <= from <= text.len(),
        0 < from < text.len() ==> text[from - 1] == '\n',
    ensures
        line_at(text, needle, from) matches Some(p) ==> {
            &&& from <= p.0 && is_line_of(text, needle, p.0)
            &&& from <= q < p.0 ==> !is_line_of(text, needle, q)
            &&& p.1 == if p.0 + needle.len() < text.len() {
                p.0 + needle.len() + 1
            } else {
                text.len() as int
            }
        },
        line_at(text, needle, from) is None && from <= q ==> !is_line_of(text, needle, q),
    decreases text.len() - from,
{
    if from < text.len() {
        let end = text::find_char(text, '\n', from);
        text::lemma_find_char(text, '\n', from);
        let line = text.subrange(from, end);
        if line == needle {
            assert forall|k: int| 0 <= k < needle.len() implies needle[k] != '\n' by {
                assert(needle[k] == text[from + k]);
            }
            assert(text.subrange(from, from + needle.len()) =~= needle);
        } else {
            let next = line_end(text, from);
            lines_are_found_whole(text, needle, next, q);
            if from <= q < next && is_line_of(text, needle, q) {
                if q == from {
                    assert forall|i: int| from <= i < q + needle.len() implies text[i] != '\n' by {
                        assert(needle[i - q] == text.subrange(q, q + needle.len())[i - q]);
                        assert(needle.contains(needle[i - q]));
                    }
                    text::lemma_find_char_is(text, '\n', from, q + needle.len());
                }
            }
        }
    }
}

/// Whether a whole line of a text, its line break left out, starts at `at`.
pub open spec fn is_line_of(text: Seq<char>, line: Seq<char>, at: int) -> bool {
    &&& 0 <= at < text.len()
    &&& at + line.len() <= text.len()
    &&& at == 0 || text[at - 1] == '\n'
    &&& !line.contains('\n')
    &&& text.subrange(at, at + line.len()) == line
    &&& at + line.len() == text.len() || text[at + line.len()] == '\n'
}

/// What differs from the desired content is shown by the content of its block, and
/// by the whole file where there is no block to show.
pub proof fn blocks_are_shown_by_their_content(
    current: Seq<char>,
    marker: Seq<char>,
    content: Seq<char>,
)
    ensures
        block_in(current, marker) == BlockView::Found(content) ==> shown(current, marker)
            == content,
        !(block_in(current, marker) is Found) ==> shown(current, marker) == current,
{
}

/// A refusal names the file, and the block where it is about one.
pub proof fn refusals_name_file_and_block(target: Seq<char>, marker: Seq<char>)
    ensures
        ("partial-file conflict: managed block '"@ + marker + "' in '"@ + target).is_prefix_of(
            block_refusal(target, marker),
        ),
        ("partial-file conflict: '"@ + target + "' is a directory or symlink"@).is_prefix_of(
            structural_refusal(target),
        ),
{
    reveal_strlit("' is a directory or symlink");
    reveal_strlit(
        "' is a directory or symlink, not a plain file (use --force to replace it or run interactively to choose)",
    );
    let a = "partial-file conflict: managed block '"@ + marker + "' in '"@ + target;
    let r = block_refusal(target, marker);
    assert(r.subrange(0, a.len() as int) =~= a);
    let short = "' is a directory or symlink"@;
    let long =
        "' is a directory or symlink, not a plain file (use --force to replace it or run interactively to choose)"@;
    assert(long.subrange(0, short.len() as int) =~= short);
    let b = "partial-file conflict: '"@ + target + short;
    let s = structural_refusal(target);
    assert forall|k: int| 0 <= k < b.len() implies b[k] == s[k] by {
        let n = ("partial-file conflict: '"@ + target).len();
        if k >= n {
            assert(b[k] == short[k - n]);
            assert(s[k] == long[k - n]);
            assert(long.subrange(0, short.len() as int)[k - n] == short[k - n]);
        }
    }
    assert(s.subrange(0, b.len() as int) =~= b);
}

/// The names of sidecars are read with `/` between their components.
pub proof fn sidecar_names_hold_no_backslash(files: Seq<(String, PartialConfig)>, i: int, k: int)
    requires
        0 <= i < files.len(),
        0 <= k < files[i].0@.len(),
    ensures
        portable(files).len() == files.len(),
        portable(files)[i].1 == files[i].1,
        portable(files)[i].0.len() == files[i].0@.len(),
        files[i].0@[k] == '\\' ==> portable(files)[i].0[k] == '/',
        files[i].0@[k] != '\\' ==> portable(files)[i].0[k] == files[i].0@[k],
{
}

} // verus!
