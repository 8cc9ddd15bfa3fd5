//! The command that shows which files of a repository belong to its overlay.

use crate::path;
use crate::path::{file_name, join_path, same_path, starts_with_path, strip_base};
use crate::text;
use crate::text::{concat2, decimal_text, same};
use vstd::prelude::*;

verus! {

/// Whether a name is that of a descriptor.
pub open spec fn is_descriptor_name(name: Seq<char>) -> bool {
    name == "over.yml"@ || name == "over.yaml"@ || name == "over.toml"@
}

/// Whether a path is that of a descriptor.
pub fn is_overlay_descriptor(path: &str) -> (r: bool)
    ensures
        r == (path::file_name_of(path@) is Some && is_descriptor_name(path::file_name_of(path@)->0)),
{
    match file_name(path) {
        Some(n) => same(n.as_str(), "over.yml") || same(n.as_str(), "over.yaml") || same(
            n.as_str(),
            "over.toml",
        ),
        None => false,
    }
}

/// Whether a directory of the working tree is looked into.
pub fn is_walked(file_name: &str) -> (r: bool)
    ensures
        r == (file_name@ != ".git"@),
{
    !same(file_name, ".git")
}

/// Something in the working tree.
#[derive(Debug, PartialEq, Eq)]
pub struct WorktreeEntry {
    pub path: String,
    /// Where it leads, for a link that can be read; resolved where that exists.
    pub link: Option<String>,
}

/// The path of an entry in the working tree, for a link into the overlay.
pub open spec fn managed_path(e: WorktreeEntry, workdir: Seq<char>, overlay_root: Seq<char>) -> Option<
    Seq<char>,
> {
    if e.link is Some && path::path_starts_with(e.link->0@, overlay_root) {
        path::relative_to(e.path@, workdir)
    } else {
        None
    }
}

/// The paths of those of the first `n` entries that link into the overlay.
pub open spec fn managed(
    entries: Seq<WorktreeEntry>,
    workdir: Seq<char>,
    overlay_root: Seq<char>,
    n: nat,
) -> Seq<Seq<char>>
    decreases n,
{
    if n == 0 {
        Seq::empty()
    } else {
        let before = managed(entries, workdir, overlay_root, (n - 1) as nat);
        match managed_path(entries[n - 1], workdir, overlay_root) {
            Some(p) => before.push(p),
            None => before,
        }
    }
}

/// The files of the working tree that belong to the overlay.
pub fn find_managed_files(entries: &Vec<WorktreeEntry>, workdir: &str, overlay_root: &str) -> (r:
    Vec<String>)
    ensures
        text::texts(r@) == managed(entries@, workdir@, overlay_root@, entries@.len()),
{
    let mut r: Vec<String> = Vec::new();
    let mut i: usize = 0;
    assert(text::texts(r@) =~= Seq::<Seq<char>>::empty());
    while i < entries.len()
        invariant
            i <= entries@.len(),
            text::texts(r@) == managed(entries@, workdir@, overlay_root@, i as nat),
        decreases entries@.len() - i,
    {
        let ghost before = r@;
        if let Some(target) = &entries[i].link {
            if starts_with_path(target.as_str(), overlay_root) {
                if let Some(rel) = strip_base(entries[i].path.as_str(), workdir) {
                    r.push(rel);
                    assert(text::texts(r@) =~= text::texts(before).push(rel@));
                }
            }
        }
        i = i + 1;
    }
    r
}

/// A file of the overlay, and what lies in its place in the repository.
#[derive(Debug, PartialEq, Eq)]
pub struct OverlayFile {
    pub path: String,
    /// Its resolved path, where that can be told.
    pub canonical: Option<String>,
    /// Where the link in its place leads, if there is one that can be read.
    pub link: Option<String>,
}

/// Whether a link leads to a file of the overlay: by its path, by its resolved
/// path, or by its path within the overlay.
pub open spec fn links_to(f: OverlayFile, overlay_root: Seq<char>) -> bool {
    match f.link {
        None => false,
        Some(t) => {
            ||| path::components(t@) == path::components(f.path@)
            ||| f.canonical is Some && path::components(t@) == path::components(f.canonical->0@)
            ||| match (path::relative_to(t@, overlay_root), path::relative_to(f.path@, overlay_root)) {
                (Some(a), Some(b)) => path::components(a) == path::components(b),
                _ => false,
            }
        },
    }
}

/// Whether the link in the place of a file leads to it.
pub fn is_symlink_to(f: &OverlayFile, overlay_root: &str) -> (r: bool)
    ensures
        r == links_to(*f, overlay_root@),
{
    let target = match &f.link {
        Some(t) => t.as_str(),
        None => return false,
    };
    if same_path(target, f.path.as_str()) {
        return true;
    }
    if let Some(c) = &f.canonical {
        if same_path(target, c.as_str()) {
            return true;
        }
    }
    match (strip_base(target, overlay_root), strip_base(f.path.as_str(), overlay_root)) {
        (Some(a), Some(b)) => same_path(a.as_str(), b.as_str()),
        _ => false,
    }
}

/// The path of a file below its directory, where it is not applied: a descriptor
/// never is, and is passed over.
pub open spec fn unapplied_path(f: OverlayFile, dir: Seq<char>, overlay_root: Seq<char>) -> Option<
    Seq<char>,
> {
    if (path::file_name_of(f.path@) is Some && is_descriptor_name(path::file_name_of(f.path@)->0)) || links_to(
        f,
        overlay_root,
    ) {
        None
    } else {
        path::relative_to(f.path@, dir)
    }
}

/// The paths of those of the first `n` files that are not applied.
pub open spec fn unapplied(
    files: Seq<OverlayFile>,
    dir: Seq<char>,
    overlay_root: Seq<char>,
    n: nat,
) -> Seq<Seq<char>>
    decreases n,
{
    if n == 0 {
        Seq::empty()
    } else {
        let before = unapplied(files, dir, overlay_root, (n - 1) as nat);
        match unapplied_path(files[n - 1], dir, overlay_root) {
            Some(p) => before.push(p),
            None => before,
        }
    }
}

/// Where a file of the overlay is linked in the repository.
pub fn linked_place(file: &str, dir: &str, repo_root: &str) -> (r: Option<String>)
    ensures
        match (path::relative_to(file@, dir@), r) {
            (Some(rel), Some(p)) => p@ == path::joined(repo_root@, rel),
            (None, None) => true,
            _ => false,
        },
{
    match strip_base(file, dir) {
        Some(rel) => Some(join_path(repo_root, rel.as_str())),
        None => None,
    }
}

/// The files of the overlay below `dir` that are not applied.
pub fn find_unapplied_files(files: &Vec<OverlayFile>, dir: &str, overlay_root: &str) -> (r: Vec<
    String,
>)
    ensures
        text::texts(r@) == unapplied(files@, dir@, overlay_root@, files@.len()),
{
    let mut r: Vec<String> = Vec::new();
    let mut i: usize = 0;
    assert(text::texts(r@) =~= Seq::<Seq<char>>::empty());
    while i < files.len()
        invariant
            i <= files@.len(),
            text::texts(r@) == unapplied(files@, dir@, overlay_root@, i as nat),
        decreases files@.len() - i,
    {
        let ghost before = r@;
        if !is_overlay_descriptor(files[i].path.as_str()) && !is_symlink_to(
            &files[i],
            overlay_root,
        ) {
            if let Some(rel) = strip_base(files[i].path.as_str(), dir) {
                r.push(rel);
                assert(text::texts(r@) =~= text::texts(before).push(rel@));
            }
        }
        i = i + 1;
    }
    r
}

/// A heading with a count.
pub open spec fn heading(title: Seq<char>, n: nat) -> Seq<char> {
    title + " ("@ + text::decimal(n) + ")"@
}

/// The lines behind marks.
pub open spec fn marked(mark: Seq<char>, files: Seq<Seq<char>>) -> Seq<Seq<char>> {
    files.map_values(|f: Seq<char>| mark + f)
}

/// The lines that show the files that belong to the overlay, and those that are
/// not applied.
pub open spec fn report(managed: Seq<Seq<char>>, unapplied: Seq<Seq<char>>) -> Seq<Seq<char>> {
    if managed.len() == 0 && unapplied.len() == 0 {
        seq!["  No overlay-managed files found"@]
    } else {
        (if managed.len() > 0 {
            seq![heading("Managed files"@, managed.len())] + marked("  "@, managed)
        } else {
            Seq::empty()
        }) + (if managed.len() > 0 && unapplied.len() > 0 {
            seq![""@]
        } else {
            Seq::empty()
        }) + (if unapplied.len() > 0 {
            seq![heading("Overlay files not applied"@, unapplied.len())] + marked("  ? "@, unapplied)
        } else {
            Seq::empty()
        })
    }
}

fn push_section(r: &mut Vec<String>, title: &str, mark: &str, files: &Vec<String>)
    ensures
        text::texts(final(r)@) == text::texts(old(r)@) + (seq![heading(title@, files@.len())] + marked(
            mark@,
            text::texts(files@),
        )),
{
    let ghost start = text::texts(r@);
    let mut h = concat2(title, " (");
    h.append(decimal_text(files.len() as u64).as_str());
    h.append(")");
    r.push(h);
    let ghost head = text::texts(r@);
    assert(head =~= start + seq![heading(title@, files@.len())]);
    let ghost all = marked(mark@, text::texts(files@));
    let mut i: usize = 0;
    assert(head =~= head + all.take(0));
    while i < files.len()
        invariant
            i <= files@.len(),
            all == marked(mark@, text::texts(files@)),
            text::texts(r@) == head + all.take(i as int),
        decreases files@.len() - i,
    {
        let ghost before = r@;
        r.push(concat2(mark, files[i].as_str()));
        assert(text::texts(files@)[i as int] == files@[i as int]@);
        assert(text::texts(r@) =~= text::texts(before).push(all[i as int]));
        assert(text::texts(r@) =~= head + all.take(i + 1));
        i = i + 1;
    }
    assert(all.take(files@.len() as int) =~= all);
    assert(text::texts(r@) =~= start + (seq![heading(title@, files@.len())] + all));
}

/// The lines that show what was found.
pub fn report_lines(managed: &Vec<String>, unapplied: &Vec<String>) -> (r: Vec<String>)
    ensures
        text::texts(r@) == report(text::texts(managed@), text::texts(unapplied@)),
{
    let mut r: Vec<String> = Vec::new();
    if managed.len() == 0 && unapplied.len() == 0 {
        r.push("  No overlay-managed files found".to_owned());
        assert(text::texts(r@) =~= seq!["  No overlay-managed files found"@]);
        return r;
    }
    if managed.len() > 0 {
        push_section(&mut r, "Managed files", "  ", managed);
    }
    let ghost first = text::texts(r@);
    assert(first =~= if managed@.len() > 0 {
        seq![heading("Managed files"@, managed@.len())] + marked("  "@, text::texts(managed@))
    } else {
        Seq::empty()
    });
    if managed.len() > 0 && unapplied.len() > 0 {
        r.push("".to_owned());
        assert(text::texts(r@) =~= first + seq![""@]);
    } else {
        assert(text::texts(r@) =~= first + Seq::<Seq<char>>::empty());
    }
    if unapplied.len() > 0 {
        push_section(&mut r, "Overlay files not applied", "  ? ", unapplied);
    } else {
        assert(text::texts(r@) =~= text::texts(r@) + Seq::<Seq<char>>::empty());
    }
    r
}

proof fn lemma_managed_at(
    entries: Seq<WorktreeEntry>,
    workdir: Seq<char>,
    overlay_root: Seq<char>,
    n: nat,
    k: int,
) -> (m: int)
    requires
        0 <= k < n <= entries.len(),
        managed_path(entries[k], workdir, overlay_root) is Some,
    ensures
        0 <= m < managed(entries, workdir, overlay_root, n).len(),
        Some(managed(entries, workdir, overlay_root, n)[m]) == managed_path(
            entries[k],
            workdir,
            overlay_root,
        ),
    decreases n,
{
    let before = managed(entries, workdir, overlay_root, (n - 1) as nat);
    if k == n - 1 {
        before.len() as int
    } else {
        lemma_managed_at(entries, workdir, overlay_root, (n - 1) as nat, k)
    }
}

proof fn lemma_managed_from(
    entries: Seq<WorktreeEntry>,
    workdir: Seq<char>,
    overlay_root: Seq<char>,
    n: nat,
    m: int,
) -> (k: int)
    requires
        n <= entries.len(),
        0 <= m < managed(entries, workdir, overlay_root, n).len(),
    ensures
        0 <= k < n,
        Some(managed(entries, workdir, overlay_root, n)[m]) == managed_path(
            entries[k],
            workdir,
            overlay_root,
        ),
    decreases n,
{
    let before = managed(entries, workdir, overlay_root, (n - 1) as nat);
    if m < before.len() {
        lemma_managed_from(entries, workdir, overlay_root, (n - 1) as nat, m)
    } else {
        n - 1
    }
}

/// A link in the repository that leads into the overlay is a managed file, named by
/// its whole path in the repository.
pub proof fn links_into_the_overlay_are_managed(
    entries: Seq<WorktreeEntry>,
    workdir: Seq<char>,
    overlay_root: Seq<char>,
    k: int,
)
    requires
        path::components(workdir).len() > 0,
        0 <= k < entries.len(),
        entries[k].link is Some,
        path::path_starts_with(entries[k].link->0@, overlay_root),
        path::path_starts_with(entries[k].path@, workdir),
    ensures
        exists|m: int|
            0 <= m < managed(entries, workdir, overlay_root, entries.len()).len()
                && path::components(
                #[trigger] managed(entries, workdir, overlay_root, entries.len())[m],
            ) == path::components(entries[k].path@).skip(path::components(workdir).len() as int),
{
    path::stripping_leaves_components(entries[k].path@, workdir);
    let m = lemma_managed_at(entries, workdir, overlay_root, entries.len(), k);
    assert(path::components(managed(entries, workdir, overlay_root, entries.len())[m])
        == path::components(entries[k].path@).skip(path::components(workdir).len() as int));
}

/// Only links in the repository that lead into the overlay are managed files.
pub proof fn managed_files_are_links_into_the_overlay(
    entries: Seq<WorktreeEntry>,
    workdir: Seq<char>,
    overlay_root: Seq<char>,
    m: int,
)
    requires
        path::components(workdir).len() > 0,
        0 <= m < managed(entries, workdir, overlay_root, entries.len()).len(),
    ensures
        exists|k: int|
            0 <= k < entries.len() && (#[trigger] entries[k]).link is Some
                && path::path_starts_with(entries[k].link->0@, overlay_root)
                && path::path_starts_with(entries[k].path@, workdir) && path::components(
                managed(entries, workdir, overlay_root, entries.len())[m],
            ) == path::components(entries[k].path@).skip(path::components(workdir).len() as int),
{
    let k = lemma_managed_from(entries, workdir, overlay_root, entries.len(), m);
    path::stripping_leaves_components(entries[k].path@, workdir);
    assert(entries[k].link is Some);
}

proof fn lemma_unapplied_at(
    files: Seq<OverlayFile>,
    dir: Seq<char>,
    overlay_root: Seq<char>,
    n: nat,
    k: int,
) -> (m: int)
    requires
        0 <= k < n <= files.len(),
        unapplied_path(files[k], dir, overlay_root) is Some,
    ensures
        0 <= m < unapplied(files, dir, overlay_root, n).len(),
        Some(unapplied(files, dir, overlay_root, n)[m]) == unapplied_path(
            files[k],
            dir,
            overlay_root,
        ),
    decreases n,
{
    let before = unapplied(files, dir, overlay_root, (n - 1) as nat);
    if k == n - 1 {
        before.len() as int
    } else {
        lemma_unapplied_at(files, dir, overlay_root, (n - 1) as nat, k)
    }
}

proof fn lemma_unapplied_from(
    files: Seq<OverlayFile>,
    dir: Seq<char>,
    overlay_root: Seq<char>,
    n: nat,
    m: int,
) -> (k: int)
    requires
        n <= files.len(),
        0 <= m < unapplied(files, dir, overlay_root, n).len(),
    ensures
        0 <= k < n,
        Some(unapplied(files, dir, overlay_root, n)[m]) == unapplied_path(
            files[k],
            dir,
            overlay_root,
        ),
    decreases n,
{
    let before = unapplied(files, dir, overlay_root, (n - 1) as nat);
    if m < before.len() {
        lemma_unapplied_from(files, dir, overlay_root, (n - 1) as nat, m)
    } else {
        n - 1
    }
}

/// A file of the overlay that has no link, and is not its descriptor, is told as not
/// applied, by its whole path.
pub proof fn files_without_a_link_are_not_applied(
    files: Seq<OverlayFile>,
    dir: Seq<char>,
    overlay_root: Seq<char>,
    k: int,
)
    requires
        path::components(dir).len() > 0,
        0 <= k < files.len(),
        files[k].link is None,
        path::path_starts_with(files[k].path@, dir),
        path::file_name_of(files[k].path@) != Some("over.yml"@),
        path::file_name_of(files[k].path@) != Some("over.yaml"@),
        path::file_name_of(files[k].path@) != Some("over.toml"@),
    ensures
        exists|m: int|
            0 <= m < unapplied(files, dir, overlay_root, files.len()).len() && path::components(
                #[trigger] unapplied(files, dir, overlay_root, files.len())[m],
            ) == path::components(files[k].path@).skip(path::components(dir).len() as int),
{
    path::stripping_leaves_components(files[k].path@, dir);
    let m = lemma_unapplied_at(files, dir, overlay_root, files.len(), k);
    assert(path::components(unapplied(files, dir, overlay_root, files.len())[m])
        == path::components(files[k].path@).skip(path::components(dir).len() as int));
}

/// Only files of the overlay that no link leads to are told as not applied, and never
/// its descriptor.
pub proof fn files_that_are_not_applied_have_no_link(
    files: Seq<OverlayFile>,
    dir: Seq<char>,
    overlay_root: Seq<char>,
    m: int,
)
    requires
        path::components(dir).len() > 0,
        0 <= m < unapplied(files, dir, overlay_root, files.len()).len(),
    ensures
        exists|k: int|
            0 <= k < files.len() && path::path_starts_with((#[trigger] files[k]).path@, dir)
                && path::file_name_of(files[k].path@) != Some("over.yml"@) && path::file_name_of(
                files[k].path@,
            ) != Some("over.yaml"@) && path::file_name_of(files[k].path@) != Some("over.toml"@) && (
            files[k].link is Some ==> path::components(files[k].link->0@) != path::components(
                files[k].path@,
            )) && path::components(unapplied(files, dir, overlay_root, files.len())[m])
                == path::components(files[k].path@).skip(path::components(dir).len() as int),
{
    let k = lemma_unapplied_from(files, dir, overlay_root, files.len(), m);
    path::stripping_leaves_components(files[k].path@, dir);
    assert(path::path_starts_with(files[k].path@, dir));
}

/// A file of an overlay is applied where the link leads to it, by its own path, by
/// the path that it really has, or by the same place in the overlay; a file without
/// a link is not.
pub proof fn links_lead_to_the_file(f: OverlayFile, overlay_root: Seq<char>)
    requires
        path::components(overlay_root).len() > 0,
    ensures
        f.link is None ==> !links_to(f, overlay_root),
        f.link matches Some(t) ==> {
            &&& path::components(t@) == path::components(f.path@) ==> links_to(f, overlay_root)
            &&& f.canonical is Some && path::components(t@) == path::components(f.canonical->0@)
                ==> links_to(f, overlay_root)
            &&& links_to(f, overlay_root) ==> path::components(t@) == path::components(f.path@) || (
            f.canonical is Some && path::components(t@) == path::components(f.canonical->0@)) || (
            path::path_starts_with(t@, overlay_root) && path::path_starts_with(f.path@, overlay_root)
                && path::components(t@).skip(path::components(overlay_root).len() as int)
                == path::components(f.path@).skip(path::components(overlay_root).len() as int))
        },
{
    if let Some(t) = f.link {
        if path::path_starts_with(t@, overlay_root) {
            path::stripping_leaves_components(t@, overlay_root);
        }
        if path::path_starts_with(f.path@, overlay_root) {
            path::stripping_leaves_components(f.path@, overlay_root);
        }
    }
}

/// Every managed file and every file that is not applied is reported, each under its
/// heading with their number.
pub proof fn every_file_is_reported(managed: Seq<Seq<char>>, unapplied: Seq<Seq<char>>, k: int)
    ensures
        ({
            let r = report(managed, unapplied);
            &&& managed.len() == 0 && unapplied.len() == 0 ==> r == seq![
                "  No overlay-managed files found"@,
            ]
            &&& managed.len() > 0 ==> r[0] == "Managed files ("@ + text::decimal(managed.len()) + ")"@
            &&& 0 <= k < managed.len() ==> r[1 + k] == "  "@ + managed[k]
            &&& 0 <= k < unapplied.len() ==> r[r.len() - unapplied.len() + k] == "  ? "@ + unapplied[k]
            &&& unapplied.len() > 0 ==> r[r.len() - unapplied.len() - 1]
                == "Overlay files not applied ("@ + text::decimal(unapplied.len()) + ")"@
            &&& managed.len() > 0 && unapplied.len() > 0 ==> r.len() == managed.len()
                + unapplied.len() + 3
            &&& managed.len() > 0 && unapplied.len() == 0 ==> r.len() == managed.len() + 1
            &&& managed.len() == 0 && unapplied.len() > 0 ==> r.len() == unapplied.len() + 1
        }),
{
    reveal_strlit("Managed files (");
    reveal_strlit("Managed files");
    reveal_strlit(" (");
    reveal_strlit("Overlay files not applied (");
    reveal_strlit("Overlay files not applied");
    assert("Managed files"@ + " ("@ =~= "Managed files ("@);
    assert("Overlay files not applied"@ + " ("@ =~= "Overlay files not applied ("@);
}

} // verus!
