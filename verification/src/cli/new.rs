//! The command that creates an overlay.

use crate::overlays;
use crate::overlays::Format;
use crate::path;
use crate::path::{join_path, parent, same_path};
use crate::table;
use crate::table::{copy_pairs, put_entry, sort_by_key};
use crate::text;
use crate::text::{concat2, concat3, decimal_text, same, strip_prefix};
use vstd::prelude::*;

verus! {

/// The arguments of the command.
#[derive(Debug, PartialEq, Eq)]
pub struct Params {
    pub path: Option<String>,
    pub target: Option<String>,
    pub format: Option<Format>,
    pub dry_run: bool,
    pub force: bool,
}

/// The format of a new descriptor: the one that is asked for, else the preferred
/// one, else TOML.
pub fn resolve_format(flag: Option<Format>, preferred: Option<Format>) -> (r: Format)
    ensures
        r == match (flag, preferred) {
            (Some(f), _) => f,
            (None, Some(p)) => p,
            (None, None) => Format::Toml,
        },
{
    match flag {
        Some(f) => f,
        None => match preferred {
            Some(p) => p,
            None => Format::default(),
        },
    }
}

/// The descriptor of an overlay.
pub fn descriptor_path(overlay_root: &str, format: Format) -> (r: String)
    ensures
        r@ == path::joined(overlay_root@, "over."@ + format.name()),
{
    join_path(overlay_root, concat2("over.", format.extension().as_str()).as_str())
}

/// The error for an overlay that is already there, unless it may be replaced.
pub fn check_new(overlay_root: &str, present: bool, force: bool) -> (r: Result<(), String>)
    ensures
        match r {
            Ok(_) => !present || force,
            Err(e) => present && !force && e@ == "overlay already exists at "@ + overlay_root@,
        },
{
    if present && !force {
        return Err(concat2("overlay already exists at ", overlay_root));
    }
    Ok(())
}

/// The directory that a target stands for.
pub open spec fn target_path(target: Seq<char>, home: Seq<char>) -> Seq<char> {
    if target == "~"@ {
        home
    } else if "~/"@.is_prefix_of(target) {
        path::joined(home, target.skip(2))
    } else {
        target
    }
}

/// The directory that a target stands for; the home directory must be known.
pub fn resolve_target_path(target: &str, home: &Option<String>) -> (r: Result<String, String>)
    ensures
        match (r, *home) {
            (Ok(p), Some(h)) => p@ == target_path(target@, h@),
            (Err(e), None) => e@ == "could not determine home directory"@,
            _ => false,
        },
{
    let home = match home {
        Some(h) => h,
        None => return Err("could not determine home directory".to_owned()),
    };
    proof {
        reveal_strlit("~/");
    }
    if same(target, "~") {
        return Ok(home.clone());
    }
    match strip_prefix(target, "~/") {
        Some(rest) => Ok(join_path(home.as_str(), rest.as_str())),
        None => Ok(target.to_owned()),
    }
}

/// Something in the target directory that may go into the overlay.
#[derive(Debug, PartialEq, Eq)]
pub struct TargetItem {
    pub name: String,
    pub path: String,
    pub is_dir: bool,
    /// Whether it holds a `.git`.
    pub has_git: bool,
    /// The URL of `origin`, where it is a git repository that has one.
    pub url: Option<String>,
}

/// Whether an item is a git repository.
pub open spec fn is_repository(item: TargetItem) -> bool {
    item.is_dir && item.has_git
}

/// How an item is offered.
pub open spec fn item_label(item: TargetItem) -> Seq<char> {
    if is_repository(item) {
        item.name@ + "/ (git repo)"@
    } else if item.is_dir {
        item.name@ + "/"@
    } else {
        item.name@
    }
}

/// How an item is offered.
pub fn label(item: &TargetItem) -> (r: String)
    ensures
        r@ == item_label(*item),
{
    if item.is_dir && item.has_git {
        concat2(item.name.as_str(), "/ (git repo)")
    } else if item.is_dir {
        concat2(item.name.as_str(), "/")
    } else {
        item.name.clone()
    }
}

/// The items behind their labels.
pub open spec fn labelled(items: Seq<TargetItem>) -> Seq<(Seq<char>, TargetItem)> {
    items.map_values(|i: TargetItem| (item_label(i), i))
}

/// The items as they are offered: by label.
pub fn offered_items(items: Vec<TargetItem>) -> (r: Vec<(String, TargetItem)>)
    ensures
        table::named(r@) == table::by_key(labelled(items@)),
{
    let mut rest = items;
    let ghost all = rest@;
    let mut back: Vec<(String, TargetItem)> = Vec::new();
    while rest.len() > 0
        invariant
            rest@.len() <= all.len(),
            rest@ == all.take(rest@.len() as int),
            table::named(back@) == labelled(all).skip(rest@.len() as int),
        decreases rest@.len(),
    {
        let ghost n = rest@.len();
        let ghost before = back@;
        let item = rest.pop().unwrap();
        assert(item == all[n - 1]);
        let l = label(&item);
        back.insert(0, (l, item));
        assert(table::named(back@) =~= table::named(before).insert(0, (item_label(item), item)));
        assert(table::named(back@) =~= labelled(all).skip(n - 1));
        assert(rest@ =~= all.take(n - 1));
    }
    assert(table::named(back@) =~= labelled(all));
    sort_by_key(back)
}

/// What goes into the overlay: repositories by name, and other paths.
pub struct Absorbed {
    pub git: Vec<(String, String)>,
    pub files: Vec<String>,
}

/// [`Absorbed`] over text.
pub struct AbsorbedView {
    pub git: Seq<(Seq<char>, Seq<char>)>,
    pub files: Seq<Seq<char>>,
}

impl View for Absorbed {
    type V = AbsorbedView;

    open spec fn view(&self) -> AbsorbedView {
        AbsorbedView { git: table::pairs(self.git@), files: text::texts(self.files@) }
    }
}

/// What goes into the overlay after one more item: a repository with its URL, or
/// nothing where it has none; anything else as a path.
pub open spec fn absorb_one(a: AbsorbedView, item: TargetItem) -> AbsorbedView {
    if is_repository(item) {
        match item.url {
            Some(url) => AbsorbedView { git: table::put(a.git, item.name@, url@), ..a },
            None => a,
        }
    } else {
        AbsorbedView { files: a.files.push(item.path@), ..a }
    }
}

/// What goes into the overlay for the first `n` selected items.
pub open spec fn absorbed(
    items: Seq<(String, TargetItem)>,
    selected: Seq<usize>,
    n: nat,
) -> AbsorbedView
    decreases n,
{
    if n == 0 {
        AbsorbedView { git: Seq::empty(), files: Seq::empty() }
    } else {
        absorb_one(
            absorbed(items, selected, (n - 1) as nat),
            items[selected[n - 1] as int].1,
        )
    }
}

/// What goes into the overlay for the selected items.
pub fn absorb(items: &Vec<(String, TargetItem)>, selected: &Vec<usize>) -> (r: Absorbed)
    requires
        forall|k: int| 0 <= k < selected@.len() ==> (#[trigger] selected@[k]) < items@.len(),
    ensures
        r@ == absorbed(items@, selected@, selected@.len()),
        ({
            let picked = Seq::new(selected@.len(), |j: int| items@[selected@[j] as int].1);
            let plain = picked.filter(|item: TargetItem| !(item.is_dir && item.has_git));
            r.files@.len() == plain.len() && forall|k: int|
                0 <= k < plain.len() ==> (#[trigger] r.files@[k])@ == plain[k].path@
        }),
{
    let mut r = Absorbed { git: Vec::new(), files: Vec::new() };
    let mut i: usize = 0;
    assert(table::pairs(r.git@) =~= Seq::<(Seq<char>, Seq<char>)>::empty());
    assert(text::texts(r.files@) =~= Seq::<Seq<char>>::empty());
    while i < selected.len()
        invariant
            i <= selected@.len(),
            forall|k: int| 0 <= k < selected@.len() ==> (#[trigger] selected@[k]) < items@.len(),
            r@ == absorbed(items@, selected@, i as nat),
        decreases selected@.len() - i,
    {
        let ghost before = r;
        assert(selected@[i as int] < items@.len());
        let item = &items[selected[i]].1;
        if item.is_dir && item.has_git {
            if let Some(url) = &item.url {
                put_entry(&mut r.git, item.name.clone(), url.clone());
                proof {
                    lemma_put_pairs(before.git@, r.git@, item.name@, *url);
                }
            }
        } else {
            r.files.push(item.path.clone());
            assert(text::texts(r.files@) =~= text::texts(before.files@).push(item.path@));
        }
        i = i + 1;
    }
    proof {
        absorbed_files_are_the_picked_ones(items@, selected@);
        let files = text::texts(r.files@);
        assert(files.len() == r.files@.len());
        assert forall|k: int| 0 <= k < r.files@.len() implies (#[trigger] r.files@[k])@ == files[k] by {}
    }
    r
}

proof fn lemma_put_pairs(
    before: Seq<(String, String)>,
    after: Seq<(String, String)>,
    key: Seq<char>,
    value: String,
)
    requires
        table::named(after) == table::put(table::named(before), key, value),
    ensures
        table::pairs(after) == table::put(table::pairs(before), key, value@),
{
    let f = |s: String| s@;
    table::lemma_put_mapped(table::named(before), key, value, f);
    assert(table::mapped(table::named(before), f) =~= table::pairs(before));
    assert(table::mapped(table::named(after), f) =~= table::pairs(after));
}

#[via_fn]
proof fn ancestors_decreases(dir: Seq<char>, root: Seq<char>) {
    path::lemma_parent_is_shorter(dir);
}

/// The directories above `dir`, the closest first, up to `root` or else to the
/// top.
pub open spec fn ancestors(dir: Seq<char>, root: Seq<char>) -> Seq<Seq<char>>
    decreases dir.len(),
    via ancestors_decreases
{
    match path::parent_of(dir) {
        None => Seq::empty(),
        Some(p) => if path::components(p) == path::components(root) {
            seq![p]
        } else {
            seq![p] + ancestors(p, root)
        },
    }
}

/// The directories that an overlay inherits from: those above it up to the root of
/// the repository, the closest first, and none for an overlay at that root.
pub open spec fn inherited_from(overlay_root: Seq<char>, repo_root: Seq<char>) -> Seq<Seq<char>> {
    if path::components(overlay_root) == path::components(repo_root) {
        Seq::empty()
    } else {
        ancestors(overlay_root, repo_root)
    }
}

/// The directories above an overlay whose descriptors it inherits from, the
/// closest first.
pub fn inherited_directories(repo_root: &str, overlay_root: &str) -> (r: Vec<String>)
    ensures
        text::texts(r@) == inherited_from(overlay_root@, repo_root@),
{
    let mut r: Vec<String> = Vec::new();
    if same_path(overlay_root, repo_root) {
        assert(text::texts(r@) =~= Seq::<Seq<char>>::empty());
        return r;
    }
    let ghost all = inherited_from(overlay_root@, repo_root@);
    let mut dir = overlay_root.to_owned();
    assert(text::texts(r@) + ancestors(dir@, repo_root@) =~= all);
    loop
        invariant
            all == inherited_from(overlay_root@, repo_root@),
            text::texts(r@) + ancestors(dir@, repo_root@) == all,
        decreases dir@.len(),
    {
        let p = match parent(dir.as_str()) {
            Some(p) => p,
            None => {
                assert(text::texts(r@) =~= all);
                return r;
            },
        };
        let ghost before = r@;
        let ghost d = dir@;
        proof {
            path::lemma_parent_is_shorter(d);
        }
        r.push(p.clone());
        assert(text::texts(r@) =~= text::texts(before).push(p@));
        if same_path(p.as_str(), repo_root) {
            assert(text::texts(r@) =~= all);
            return r;
        }
        assert(text::texts(r@) + ancestors(p@, repo_root@) =~= text::texts(before) + ancestors(d, repo_root@));
        dir = p;
    }
}

proof fn lemma_ancestors(dir: Seq<char>, root: Seq<char>)
    requires
        path::path_starts_with(dir, root),
        path::components(dir) != path::components(root),
        path::components(root).len() > 0 || !path::is_absolute(dir),
    ensures
        ancestors(dir, root).len() == path::components(dir).len() - path::components(root).len(),
        forall|i: int|
            0 <= i < ancestors(dir, root).len() ==> path::components(
                #[trigger] ancestors(dir, root)[i],
            ) == path::components(dir).take(path::components(dir).len() - 1 - i),
    decreases dir.len(),
{
    let c = path::components(dir);
    let m = path::components(root).len();
    assert(path::components(root) =~= c.take(m as int));
    assert(c.len() > m) by {
        if c.len() == m {
            assert(c.take(m as int) =~= c);
        }
    }
    path::parents_have_one_component_less(dir);
    path::lemma_parent_is_shorter(dir);
    let p = path::parent_of(dir)->0;
    assert(c.drop_last() =~= c.take(c.len() - 1));
    if path::components(p) != path::components(root) {
        assert(path::path_starts_with(p, root));
        lemma_ancestors(p, root);
        assert forall|i: int| 0 <= i < ancestors(dir, root).len() implies path::components(
            #[trigger] ancestors(dir, root)[i],
        ) == c.take(c.len() - 1 - i) by {
            if i > 0 {
                assert(ancestors(dir, root)[i] == ancestors(p, root)[i - 1]);
                assert(c.drop_last().take(c.len() - 1 - i) =~= c.take(c.len() - 1 - i));
            }
        }
    }
}

/// An overlay in a repository inherits from the directory that it lies in, then
/// from the one above that, and so on, with the root of the repository last: from
/// none that lies outside.
pub proof fn overlays_inherit_within_the_repository(
    overlay_root: Seq<char>,
    repo_root: Seq<char>,
)
    requires
        path::path_starts_with(overlay_root, repo_root),
        path::components(repo_root).len() > 0 || !path::is_absolute(overlay_root),
    ensures
        ({
            let c = path::components(overlay_root);
            let found = inherited_from(overlay_root, repo_root);
            &&& found.len() == c.len() - path::components(repo_root).len()
            &&& forall|i: int|
                0 <= i < found.len() ==> path::components(#[trigger] found[i]) == c.take(
                    c.len() - 1 - i,
                ) && path::path_starts_with(found[i], repo_root)
        }),
{
    let c = path::components(overlay_root);
    let m = path::components(repo_root).len();
    assert(path::components(repo_root) =~= c.take(m as int));
    if c != path::components(repo_root) {
        lemma_ancestors(overlay_root, repo_root);
        let found = inherited_from(overlay_root, repo_root);
        assert forall|i: int| 0 <= i < found.len() implies path::path_starts_with(
            #[trigger] found[i],
            repo_root,
        ) by {
            assert(c.take(m as int) =~= c.take(c.len() - 1 - i).take(m as int));
        }
    }
}

/// What the descriptor of a directory says.
#[derive(Debug, PartialEq, Eq)]
pub enum Descriptor {
    Missing,
    /// It cannot be read.
    Broken,
    /// It is there, with a target or without one.
    Present { target: Option<String> },
}

/// The target of the first descriptor at or after `from` that has one.
pub open spec fn first_target(found: Seq<Descriptor>, from: int) -> Seq<char>
    decreases found.len() - from,
{
    if from >= found.len() {
        overlays::default_target()
    } else {
        match found[from] {
            Descriptor::Present { target } => match target {
                Some(t) => t@,
                None => first_target(found, from + 1),
            },
            _ => first_target(found, from + 1),
        }
    }
}

/// The target that an overlay inherits: that of the closest descriptor above it
/// that has one, `~` where there is none or where one of them cannot be read.
pub open spec fn inherited_target(found: Seq<Descriptor>) -> Seq<char> {
    if exists|i: int| 0 <= i < found.len() && #[trigger] found[i] is Broken {
        overlays::default_target()
    } else {
        first_target(found, 0)
    }
}

/// The target that an overlay inherits from the descriptors above it, the closest
/// first.
pub fn resolve_inherited_target(found: &Vec<Descriptor>) -> (r: String)
    ensures
        r@ == inherited_target(found@),
{
    let mut i: usize = 0;
    while i < found.len()
        invariant
            i <= found@.len(),
            forall|k: int| 0 <= k < i ==> !(#[trigger] found@[k] is Broken),
        decreases found@.len() - i,
    {
        if matches!(found[i], Descriptor::Broken) {
            assert(found@[i as int] is Broken);
            return "~".to_owned();
        }
        i = i + 1;
    }
    let mut k: usize = 0;
    while k < found.len()
        invariant
            k <= found@.len(),
            forall|k: int| 0 <= k < found@.len() ==> !(#[trigger] found@[k] is Broken),
            first_target(found@, 0) == first_target(found@, k as int),
        decreases found@.len() - k,
    {
        if let Descriptor::Present { target: Some(t) } = &found[k] {
            return t.clone();
        }
        k = k + 1;
    }
    "~".to_owned()
}

/// The target that a descriptor states: none where it is inherited anyway.
pub fn descriptor_target(target: &str, inherited: &str) -> (r: Option<String>)
    ensures
        match r {
            Some(t) => target@ != inherited@ && t@ == target@,
            None => target@ == inherited@,
        },
{
    if same(target, inherited) {
        None
    } else {
        Some(target.to_owned())
    }
}

/// The lines of the first `n` repositories in a TOML descriptor.
pub open spec fn toml_lines(entries: Seq<(Seq<char>, Seq<char>)>, n: nat) -> Seq<char>
    decreases n,
{
    if n == 0 {
        Seq::empty()
    } else {
        toml_lines(entries, (n - 1) as nat) + entries[n - 1].0 + " = { url = \""@ + entries[n
            - 1].1 + "\" }\n"@
    }
}

/// The lines of the first `n` repositories in a YAML descriptor.
pub open spec fn yaml_lines(entries: Seq<(Seq<char>, Seq<char>)>, n: nat) -> Seq<char>
    decreases n,
{
    if n == 0 {
        Seq::empty()
    } else {
        yaml_lines(entries, (n - 1) as nat) + "  "@ + entries[n - 1].0 + ":\n    url: \""@
            + entries[n - 1].1 + "\"\n"@
    }
}

/// A descriptor: the line of the target, where it has one, and the section of the
/// repositories, where it has any, with an empty line between them.
pub open spec fn sections(head: Option<Seq<char>>, body: Option<Seq<char>>) -> Seq<char> {
    match (head, body) {
        (Some(h), Some(b)) => h + "\n"@ + b,
        (Some(h), None) => h,
        (None, Some(b)) => b,
        (None, None) => Seq::empty(),
    }
}

/// A descriptor in TOML; the repositories are ordered by name.
pub open spec fn toml_descriptor(
    target: Option<Seq<char>>,
    git: Seq<(Seq<char>, Seq<char>)>,
) -> Seq<char> {
    sections(
        match target {
            Some(t) => Some("target = \""@ + t + "\"\n"@),
            None => None,
        },
        if git.len() > 0 {
            Some("[git]\n"@ + toml_lines(table::by_key(git), git.len()))
        } else {
            None
        },
    )
}

/// A descriptor in YAML; the repositories are ordered by name.
pub open spec fn yaml_descriptor(
    target: Option<Seq<char>>,
    git: Seq<(Seq<char>, Seq<char>)>,
) -> Seq<char> {
    sections(
        match target {
            Some(t) => Some("target: \""@ + t + "\"\n"@),
            None => None,
        },
        if git.len() > 0 {
            Some("git:\n"@ + yaml_lines(table::by_key(git), git.len()))
        } else {
            None
        },
    )
}

fn join_sections(head: Option<String>, body: Option<String>) -> (r: String)
    ensures
        r@ == sections(text::opt_text(head), text::opt_text(body)),
{
    match (head, body) {
        (Some(h), Some(b)) => concat3(h.as_str(), "\n", b.as_str()),
        (Some(h), None) => h,
        (None, Some(b)) => b,
        (None, None) => {
            let r = String::new();
            assert(r@ =~= Seq::<char>::empty());
            r
        },
    }
}

proof fn lemma_by_key_pairs(a: Seq<(String, String)>, b: Seq<(String, String)>)
    requires
        table::named(b) == table::by_key(table::named(a)),
    ensures
        table::pairs(b) == table::by_key(table::pairs(a)),
        b.len() == a.len(),
{
    table::ordering_by_key(table::named(a));
    assert(table::named(a).len() == a.len());
    assert(table::named(b).len() == b.len());
    lemma_by_key_values(table::named(a));
    assert(values_as_text(table::named(a)) =~= table::pairs(a));
    assert(values_as_text(table::named(b)) =~= table::pairs(b));
}

/// The values of a table as text.
pub open spec fn values_as_text(m: Seq<(Seq<char>, String)>) -> Seq<(Seq<char>, Seq<char>)> {
    m.map_values(|p: (Seq<char>, String)| (p.0, p.1@))
}

proof fn lemma_by_key_values(m: Seq<(Seq<char>, String)>)
    ensures
        table::by_key(values_as_text(m)) == values_as_text(table::by_key(m)),
    decreases m.len(),
{
    if m.len() > 0 {
        lemma_by_key_values(m.drop_first());
        assert(values_as_text(m).drop_first() =~= values_as_text(m.drop_first()));
        let rest = table::by_key(m.drop_first());
        lemma_slot_values(rest, m[0].0, 0);
        table::lemma_key_slot(rest, m[0].0, 0);
        let at = table::key_slot(rest, m[0].0, 0);
        assert(values_as_text(rest.insert(at, m[0])) =~= values_as_text(rest).insert(
            at,
            values_as_text(m)[0],
        ));
    } else {
        assert(table::by_key(values_as_text(m)) =~= values_as_text(table::by_key(m)));
    }
}

proof fn lemma_slot_values(m: Seq<(Seq<char>, String)>, key: Seq<char>, from: int)
    requires
        0 <= from <= m.len(),
    ensures
        table::key_slot(values_as_text(m), key, from) == table::key_slot(
            m,
            key,
            from,
        ),
    decreases m.len() - from,
{
    if from < m.len() {
        assert(values_as_text(m)[from].0 == m[from].0);
        lemma_slot_values(m, key, from + 1);
    }
}

/// A descriptor in TOML.
pub fn build_toml_descriptor(target: Option<&str>, git: &Vec<(String, String)>) -> (r: String)
    ensures
        r@ == toml_descriptor(
            match target {
                Some(t) => Some(t@),
                None => None,
            },
            table::pairs(git@),
        ),
{
    let head = match target {
        Some(t) => Some(concat3("target = \"", t, "\"\n")),
        None => None,
    };
    let body = if git.len() == 0 {
        None
    } else {
        let mut out = "[git]\n".to_owned();
        let entries = sort_by_key(copy_pairs(git));
        proof {
            lemma_by_key_pairs(git@, entries@);
        }
        let ghost all = table::by_key(table::pairs(git@));
        let mut i: usize = 0;
        assert(out@ =~= "[git]\n"@ + toml_lines(all, 0));
        while i < entries.len()
            invariant
                i <= entries@.len(),
                table::pairs(entries@) == all,
                out@ == "[git]\n"@ + toml_lines(all, i as nat),
            decreases entries@.len() - i,
        {
            let ghost before = out@;
            assert(all[i as int] == (entries@[i as int].0@, entries@[i as int].1@));
            out.append(entries[i].0.as_str());
            out.append(" = { url = \"");
            out.append(entries[i].1.as_str());
            out.append("\" }\n");
            assert(out@ =~= "[git]\n"@ + toml_lines(all, (i + 1) as nat));
            i = i + 1;
        }
        Some(out)
    };
    join_sections(head, body)
}

/// A descriptor in YAML.
pub fn build_yaml_descriptor(target: Option<&str>, git: &Vec<(String, String)>) -> (r: String)
    ensures
        r@ == yaml_descriptor(
            match target {
                Some(t) => Some(t@),
                None => None,
            },
            table::pairs(git@),
        ),
{
    let head = match target {
        Some(t) => Some(concat3("target: \"", t, "\"\n")),
        None => None,
    };
    let body = if git.len() == 0 {
        None
    } else {
        let mut out = "git:\n".to_owned();
        let entries = sort_by_key(copy_pairs(git));
        proof {
            lemma_by_key_pairs(git@, entries@);
        }
        let ghost all = table::by_key(table::pairs(git@));
        let mut i: usize = 0;
        assert(out@ =~= "git:\n"@ + yaml_lines(all, 0));
        while i < entries.len()
            invariant
                i <= entries@.len(),
                table::pairs(entries@) == all,
                out@ == "git:\n"@ + yaml_lines(all, i as nat),
            decreases entries@.len() - i,
        {
            assert(all[i as int] == (entries@[i as int].0@, entries@[i as int].1@));
            out.append("  ");
            out.append(entries[i].0.as_str());
            out.append(":\n    url: \"");
            out.append(entries[i].1.as_str());
            out.append("\"\n");
            assert(out@ =~= "git:\n"@ + yaml_lines(all, (i + 1) as nat));
            i = i + 1;
        }
        Some(out)
    };
    join_sections(head, body)
}

/// The text of a new descriptor.
pub fn build_descriptor(target: Option<&str>, format: Format, git: &Vec<(String, String)>) -> (r:
    String)
    ensures
        ({
            let t = match target {
                Some(t) => Some(t@),
                None => None,
            };
            r@ == match format {
                Format::Toml => toml_descriptor(t, table::pairs(git@)),
                Format::Yaml => yaml_descriptor(t, table::pairs(git@)),
            }
        }),
{
    match format {
        Format::Toml => build_toml_descriptor(target, git),
        Format::Yaml => build_yaml_descriptor(target, git),
    }
}

/// What is said of the paths that went into the overlay.
pub open spec fn absorbed_text(n: nat) -> Seq<char> {
    if n == 0 {
        Seq::empty()
    } else {
        " ("@ + text::decimal(n) + (if n == 1 {
            " path absorbed"@
        } else {
            " paths absorbed"@
        }) + ")"@
    }
}

/// What is said of the paths that went into the overlay.
pub fn absorbed_note(n: usize) -> (r: String)
    ensures
        r@ == absorbed_text(n as nat),
{
    if n == 0 {
        let r = String::new();
        assert(r@ =~= Seq::<char>::empty());
        return r;
    }
    let mut r = concat2(" (", decimal_text(n as u64).as_str());
    if n == 1 {
        r.append(" path absorbed");
    } else {
        r.append(" paths absorbed");
    }
    r.append(")");
    r
}

/// The files that go into an overlay are the paths of the picked items that are not
/// git repositories, files and directories alike, in the order of the picks.
pub proof fn absorbed_files_are_the_picked_ones(
    items: Seq<(String, TargetItem)>,
    selected: Seq<usize>,
)
    ensures
        ({
            let picked = Seq::new(selected.len(), |j: int| items[selected[j] as int].1);
            let plain = picked.filter(|item: TargetItem| !(item.is_dir && item.has_git));
            let files = absorbed(items, selected, selected.len()).files;
            &&& files.len() == plain.len()
            &&& forall|k: int| 0 <= k < plain.len() ==> #[trigger] files[k] == plain[k].path@
            &&& forall|j: int|
                0 <= j < selected.len() && !((#[trigger] picked[j]).is_dir && picked[j].has_git)
                    ==> files.contains(picked[j].path@)
        }),
{
    let picked = Seq::new(selected.len(), |j: int| items[selected[j] as int].1);
    lemma_absorbed_files(items, selected, selected.len());
    assert(picked.take(selected.len() as int) =~= picked);
    let f = |item: TargetItem| !(item.is_dir && item.has_git);
    let plain = picked.filter(f);
    let files = absorbed(items, selected, selected.len()).files;
    assert forall|j: int|
        0 <= j < selected.len() && !((#[trigger] picked[j]).is_dir && picked[j].has_git) implies files.contains(
        picked[j].path@,
    ) by {
        broadcast use vstd::seq_lib::group_filter_ensures;

        assert(picked.contains(picked[j]));
        assert(f(picked[j]));
        assert(plain.contains(picked[j]));
        let k = choose|k: int| 0 <= k < plain.len() && plain[k] == picked[j];
        assert(files[k] == picked[j].path@);
    }
}

proof fn lemma_absorbed_files(items: Seq<(String, TargetItem)>, selected: Seq<usize>, n: nat)
    requires
        n <= selected.len(),
    ensures
        ({
            let picked = Seq::new(selected.len(), |j: int| items[selected[j] as int].1);
            let plain = picked.take(n as int).filter(
                |item: TargetItem| !(item.is_dir && item.has_git),
            );
            let files = absorbed(items, selected, n).files;
            &&& files.len() == plain.len()
            &&& forall|k: int| 0 <= k < plain.len() ==> #[trigger] files[k] == plain[k].path@
        }),
    decreases n,
{
    reveal(Seq::filter);
    if n > 0 {
        lemma_absorbed_files(items, selected, (n - 1) as nat);
        let picked = Seq::new(selected.len(), |j: int| items[selected[j] as int].1);
        assert(picked.take(n as int).drop_last() =~= picked.take(n - 1));
    }
}

/// Every picked git repository that has a URL goes into the overlay under its name,
/// with the URL of its last pick; no other name does.
pub proof fn absorbed_repositories_are_the_picked_ones(
    items: Seq<(String, TargetItem)>,
    selected: Seq<usize>,
    n: nat,
    name: Seq<char>,
    k: int,
)
    requires
        n <= selected.len(),
    ensures
        ({
            let picked = Seq::new(selected.len(), |j: int| items[selected[j] as int].1);
            let found = table::lookup(absorbed(items, selected, n).git, name);
            &&& (forall|j: int|
                0 <= j < n ==> !((#[trigger] picked[j]).is_dir && picked[j].has_git && picked[j].url
                    is Some && picked[j].name@ == name)) ==> found is None
            &&& 0 <= k < n && picked[k].is_dir && picked[k].has_git && picked[k].url is Some
                && picked[k].name@ == name && (forall|j: int|
                k < j < n ==> !((#[trigger] picked[j]).is_dir && picked[j].has_git && picked[j].url
                    is Some && picked[j].name@ == name)) ==> found == Some(picked[k].url->0@)
        }),
    decreases n,
{
    let picked = Seq::new(selected.len(), |j: int| items[selected[j] as int].1);
    if n > 0 {
        absorbed_repositories_are_the_picked_ones(items, selected, (n - 1) as nat, name, k);
        let before = absorbed(items, selected, (n - 1) as nat).git;
        let last = picked[n - 1];
        assert(last == items[selected[n - 1] as int].1);
        if last.is_dir && last.has_git && last.url is Some {
            table::putting_sets_one_key(before, last.name@, last.url->0@, name);
        }
    } else {
        assert(absorbed(items, selected, 0).git.len() == 0);
    }
}

/// An item is offered by its name: a directory with a slash behind it, and a git
/// repository marked as one.
pub proof fn items_are_offered_by_name(item: TargetItem)
    ensures
        item.name@.is_prefix_of(item_label(item)),
        !item.is_dir ==> item_label(item) == item.name@,
        item.is_dir && !item.has_git ==> item_label(item) == item.name@ + "/"@,
        item.is_dir && item.has_git ==> item_label(item) == item.name@ + "/ (git repo)"@,
{
    let l = item_label(item);
    assert(l.subrange(0, item.name@.len() as int) =~= item.name@);
}

/// Every item is offered, behind its label, in the order of the labels.
pub proof fn every_item_is_offered(items: Seq<TargetItem>, k: int)
    requires
        0 <= k < items.len(),
    ensures
        table::by_key(labelled(items)).len() == items.len(),
        table::keys_in_order(table::by_key(labelled(items))),
        table::by_key(labelled(items)).contains((item_label(items[k]), items[k])),
{
    broadcast use vstd::seq_lib::group_to_multiset_ensures;

    let all = labelled(items);
    table::ordering_by_key(all);
    let p = (item_label(items[k]), items[k]);
    assert(all[k] == p);
    assert(all.contains(p));
    assert(all.to_multiset().count(p) > 0);
}

/// A tilde stands for the home directory, alone or before a slash and a path below
/// it; any other target stands for itself.
pub proof fn a_tilde_stands_for_home(target: Seq<char>, home: Seq<char>, rest: Seq<char>)
    ensures
        target_path("~"@, home) == home,
        !path::is_absolute(rest) && !path::opens_with_dot(rest) ==> path::components(
            target_path("~/"@ + rest, home),
        ) == path::components(home) + path::components(rest),
        target != "~"@ && !"~/"@.is_prefix_of(target) ==> target_path(target, home) == target,
{
    reveal_strlit("~");
    reveal_strlit("~/");
    let t = "~/"@ + rest;
    assert(t.subrange(0, 2) =~= "~/"@);
    assert(t.skip(2) =~= rest);
    assert(t.len() >= 2 && "~"@.len() == 1);
    if !path::is_absolute(rest) && !path::opens_with_dot(rest) {
        path::joining_appends_components(home, rest);
    }
}

/// The target of a new overlay is that of the closest descriptor above it that
/// states one, and the home directory where none does or one cannot be read.
pub proof fn the_closest_target_is_inherited(found: Seq<Descriptor>, k: int)
    ensures
        (exists|i: int| 0 <= i < found.len() && #[trigger] found[i] is Broken) ==> inherited_target(found)
            == "~"@,
        (forall|i: int|
            0 <= i < found.len() ==> !(#[trigger] found[i] is Broken) && !(
            found[i] matches Descriptor::Present { target } && target is Some)) ==> inherited_target(
            found,
        ) == "~"@,
        0 <= k < found.len() && (forall|i: int|
            0 <= i < found.len() ==> !(#[trigger] found[i] is Broken)) && (forall|i: int|
            0 <= i < k ==> !(#[trigger] found[i] matches Descriptor::Present { target } && target
                is Some)) && (found[k] matches Descriptor::Present { target } && target is Some)
            ==> inherited_target(found) == found[k]->target->0@,
{
    if forall|i: int|
        0 <= i < found.len() ==> !(#[trigger] found[i] matches Descriptor::Present { target } && target
            is Some) {
        lemma_first_target(found, 0, found.len() as int);
    }
    if 0 <= k < found.len() && (forall|i: int|
        0 <= i < k ==> !(#[trigger] found[i] matches Descriptor::Present { target } && target
            is Some)) {
        lemma_first_target(found, 0, k);
    }
}

proof fn lemma_first_target(found: Seq<Descriptor>, from: int, to: int)
    requires
        0 <= from <= to <= found.len(),
        forall|i: int|
            from <= i < to ==> !(#[trigger] found[i] matches Descriptor::Present { target } && target
                is Some),
    ensures
        first_target(found, from) == first_target(found, to),
    decreases to - from,
{
    if from < to {
        lemma_first_target(found, from + 1, to);
    }
}

proof fn lemma_toml_lines(entries: Seq<(Seq<char>, Seq<char>)>, n: nat, k: int) -> (r: (
    Seq<char>,
    Seq<char>,
))
    requires
        0 <= k < n <= entries.len(),
    ensures
        toml_lines(entries, n) == r.0 + (entries[k].0 + " = { url = \""@ + entries[k].1 + "\" }\n"@)
            + r.1,
    decreases n,
{
    let before = toml_lines(entries, (n - 1) as nat);
    let last = entries[n - 1].0 + " = { url = \""@ + entries[n - 1].1 + "\" }\n"@;
    assert(toml_lines(entries, n) =~= before + last);
    if k == n - 1 {
        assert(before + last =~= before + last + Seq::<char>::empty());
        (before, Seq::empty())
    } else {
        let (a, b) = lemma_toml_lines(entries, (n - 1) as nat, k);
        let line = entries[k].0 + " = { url = \""@ + entries[k].1 + "\" }\n"@;
        assert(a + line + b + last =~= a + line + (b + last));
        (a, b + last)
    }
}

proof fn lemma_yaml_lines(entries: Seq<(Seq<char>, Seq<char>)>, n: nat, k: int) -> (r: (
    Seq<char>,
    Seq<char>,
))
    requires
        0 <= k < n <= entries.len(),
    ensures
        yaml_lines(entries, n) == r.0 + ("  "@ + entries[k].0 + ":\n    url: \""@ + entries[k].1
            + "\"\n"@) + r.1,
    decreases n,
{
    let before = yaml_lines(entries, (n - 1) as nat);
    let last = "  "@ + entries[n - 1].0 + ":\n    url: \""@ + entries[n - 1].1 + "\"\n"@;
    assert(yaml_lines(entries, n) =~= before + last);
    if k == n - 1 {
        assert(before + last =~= before + last + Seq::<char>::empty());
        (before, Seq::empty())
    } else {
        let (a, b) = lemma_yaml_lines(entries, (n - 1) as nat, k);
        let line = "  "@ + entries[k].0 + ":\n    url: \""@ + entries[k].1 + "\"\n"@;
        assert(a + line + b + last =~= a + line + (b + last));
        (a, b + last)
    }
}

/// A descriptor opens with its target, where it has one, goes on behind an empty line
/// with the section for git, where there are repositories, and is empty where there
/// is neither. Every repository has its line there, with its URL.
pub proof fn descriptors_state_everything(
    target: Option<Seq<char>>,
    git: Seq<(Seq<char>, Seq<char>)>,
    k: int,
)
    ensures
        ({
            let d = toml_descriptor(target, git);
            let y = yaml_descriptor(target, git);
            &&& target is None && git.len() == 0 ==> d.len() == 0 && y.len() == 0
            &&& target is Some ==> ("target = \""@ + target->0 + "\"\n"@).is_prefix_of(d) && (
            "target: \""@ + target->0 + "\"\n"@).is_prefix_of(y)
            &&& target is Some && git.len() == 0 ==> d == "target = \""@ + target->0 + "\"\n"@ && y
                == "target: \""@ + target->0 + "\"\n"@
            &&& target is None && git.len() > 0 ==> "[git]\n"@.is_prefix_of(d)
                && "git:\n"@.is_prefix_of(y)
            &&& target is Some && git.len() > 0 ==> ("target = \""@ + target->0 + "\"\n"@ + "\n"@
                + "[git]\n"@).is_prefix_of(d) && ("target: \""@ + target->0 + "\"\n"@ + "\n"@
                + "git:\n"@).is_prefix_of(y)
            &&& 0 <= k < git.len() ==> exists|a: Seq<char>, b: Seq<char>|
                d == #[trigger] (a + (git[k].0 + " = { url = \""@ + git[k].1 + "\" }\n"@) + b)
            &&& 0 <= k < git.len() ==> exists|a: Seq<char>, b: Seq<char>|
                y == #[trigger] (a + ("  "@ + git[k].0 + ":\n    url: \""@ + git[k].1 + "\"\n"@)
                    + b)
        }),
{
    let d = toml_descriptor(target, git);
    let y = yaml_descriptor(target, git);
    let sorted = table::by_key(git);
    table::ordering_by_key(git);
    let lines = toml_lines(sorted, git.len());
    let ylines = yaml_lines(sorted, git.len());
    if target is Some {
        let h = "target = \""@ + target->0 + "\"\n"@;
        let g = "target: \""@ + target->0 + "\"\n"@;
        assert(d.subrange(0, h.len() as int) =~= h);
        assert(y.subrange(0, g.len() as int) =~= g);
        if git.len() > 0 {
            let hh = h + "\n"@ + "[git]\n"@;
            let gg = g + "\n"@ + "git:\n"@;
            assert(d =~= hh + lines);
            assert(y =~= gg + ylines);
            assert(d.subrange(0, hh.len() as int) =~= hh);
            assert(y.subrange(0, gg.len() as int) =~= gg);
        }
    } else if git.len() > 0 {
        assert(d.subrange(0, "[git]\n"@.len() as int) =~= "[git]\n"@);
        assert(y.subrange(0, "git:\n"@.len() as int) =~= "git:\n"@);
    }
    if 0 <= k < git.len() {
        broadcast use vstd::seq_lib::group_to_multiset_ensures;

        assert(git.contains(git[k]));
        assert(git.to_multiset().count(git[k]) > 0);
        assert(sorted.contains(git[k]));
        let i = choose|i: int| 0 <= i < sorted.len() && sorted[i] == git[k];
        let (a, b) = lemma_toml_lines(sorted, git.len(), i);
        let (ya, yb) = lemma_yaml_lines(sorted, git.len(), i);
        let front = d.take(d.len() - lines.len());
        let yfront = y.take(y.len() - ylines.len());
        let line = git[k].0 + " = { url = \""@ + git[k].1 + "\" }\n"@;
        let yline = "  "@ + git[k].0 + ":\n    url: \""@ + git[k].1 + "\"\n"@;
        assert(d =~= front + lines);
        assert(y =~= yfront + ylines);
        assert(d =~= (front + a) + line + b);
        assert(y =~= (yfront + ya) + yline + yb);
    }
}

/// What went into a new overlay is counted, where anything did.
pub proof fn absorbed_paths_are_counted(n: nat)
    ensures
        absorbed_text(0) == Seq::<char>::empty(),
        absorbed_text(1) == " ("@ + text::decimal(1) + " path absorbed)"@,
        n > 1 ==> absorbed_text(n) == " ("@ + text::decimal(n) + " paths absorbed)"@,
{
    reveal_strlit(")");
    reveal_strlit(" path absorbed");
    reveal_strlit(" paths absorbed");
    reveal_strlit(" path absorbed)");
    reveal_strlit(" paths absorbed)");
    assert(" path absorbed"@ + ")"@ =~= " path absorbed)"@);
    assert(" paths absorbed"@ + ")"@ =~= " paths absorbed)"@);
    assert(absorbed_text(1) =~= " ("@ + text::decimal(1) + (" path absorbed"@ + ")"@));
    if n > 1 {
        assert(absorbed_text(n) =~= " ("@ + text::decimal(n) + (" paths absorbed"@ + ")"@));
    }
}

} // verus!
