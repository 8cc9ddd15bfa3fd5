//! The command that adds files to an overlay.

use crate::path;
use crate::path::{join_path, strip_base};
use crate::text;
use crate::text::concat2;
use vstd::prelude::*;

verus! {

/// The arguments of the command.
#[derive(Debug, PartialEq, Eq)]
pub struct Params {
    pub files: Vec<String>,
    pub overlay: Option<String>,
    pub root: Option<String>,
    pub dry_run: bool,
    pub force: bool,
}

/// The target that is offered for a link: its path in the overlay, else its path
/// below the home directory behind `~/`, else as it stands.
pub open spec fn default_link_target(
    link_target: Seq<char>,
    overlay_root: Seq<char>,
    home: Seq<char>,
) -> Seq<char> {
    match path::relative_to(link_target, overlay_root) {
        Some(rel) => rel,
        None => match path::relative_to(link_target, home) {
            Some(rel) => "~/"@ + rel,
            None => link_target,
        },
    }
}

/// The target that is offered for a link to `link_target`.
pub fn compute_default_target(link_target: &str, overlay_root: &str, home: &str) -> (r: String)
    ensures
        r@ == default_link_target(link_target@, overlay_root@, home@),
{
    if let Some(rel) = strip_base(link_target, overlay_root) {
        return rel;
    }
    if let Some(rel) = strip_base(link_target, home) {
        return concat2("~/", rel.as_str());
    }
    link_target.to_owned()
}

/// The sidecar that declares the link at `path` in an overlay: at its path below
/// the home directory, or else at its whole path.
pub open spec fn link_sidecar(path: Seq<char>, overlay_root: Seq<char>, home: Seq<char>) -> Seq<
    char,
> {
    let name = match path::relative_to(path, home) {
        Some(rel) => rel,
        None => path,
    };
    path::joined(overlay_root, name + ".link.toml"@)
}

/// The sidecar that declares the link at `path` in an overlay.
pub fn add_symlink(path: &str, overlay_root: &str, home: &str) -> (r: String)
    ensures
        r@ == link_sidecar(path@, overlay_root@, home@),
{
    let name = match strip_base(path, home) {
        Some(rel) => rel,
        None => path.to_owned(),
    };
    join_path(overlay_root, concat2(name.as_str(), ".link.toml").as_str())
}

/// A path that is to be added.
#[derive(Debug, PartialEq, Eq)]
pub struct AddedPath {
    pub path: String,
    pub is_symlink: bool,
}

/// The paths among the first `n` that are links, or are not.
pub open spec fn chosen(paths: Seq<AddedPath>, symlinks: bool, n: nat) -> Seq<Seq<char>>
    decreases n,
{
    if n == 0 {
        Seq::empty()
    } else {
        let before = chosen(paths, symlinks, (n - 1) as nat);
        if paths[n - 1].is_symlink == symlinks {
            before.push(paths[n - 1].path@)
        } else {
            before
        }
    }
}

/// The links and the other paths, each in their order.
pub fn partition(paths: &Vec<AddedPath>) -> (r: (Vec<String>, Vec<String>))
    ensures
        text::texts(r.0@) == chosen(paths@, true, paths@.len()),
        text::texts(r.1@) == chosen(paths@, false, paths@.len()),
{
    let mut symlinks: Vec<String> = Vec::new();
    let mut regulars: Vec<String> = Vec::new();
    let mut i: usize = 0;
    assert(text::texts(symlinks@) =~= Seq::<Seq<char>>::empty());
    assert(text::texts(regulars@) =~= Seq::<Seq<char>>::empty());
    while i < paths.len()
        invariant
            i <= paths@.len(),
            text::texts(symlinks@) == chosen(paths@, true, i as nat),
            text::texts(regulars@) == chosen(paths@, false, i as nat),
        decreases paths@.len() - i,
    {
        let ghost a = symlinks@;
        let ghost b = regulars@;
        if paths[i].is_symlink {
            symlinks.push(paths[i].path.clone());
            assert(text::texts(symlinks@) =~= text::texts(a).push(paths@[i as int].path@));
        } else {
            regulars.push(paths[i].path.clone());
            assert(text::texts(regulars@) =~= text::texts(b).push(paths@[i as int].path@));
        }
        i = i + 1;
    }
    (symlinks, regulars)
}

/// What a link leads to is written below the overlay or below home where it lies
/// there, the overlay first, and as it is elsewhere.
pub proof fn link_targets_are_written_shortest(
    link_target: Seq<char>,
    overlay_root: Seq<char>,
    home: Seq<char>,
)
    requires
        path::components(overlay_root).len() > 0,
        path::components(home).len() > 0,
    ensures
        ({
            let r = default_link_target(link_target, overlay_root, home);
            let c = path::components(link_target);
            let in_overlay = path::components(overlay_root).is_prefix_of(c);
            let in_home = path::components(home).is_prefix_of(c);
            &&& in_overlay ==> path::components(r) == c.skip(
                path::components(overlay_root).len() as int,
            ) && !path::is_absolute(r)
            &&& !in_overlay && in_home ==> "~/"@.is_prefix_of(r) && path::components(r.skip(2))
                == c.skip(path::components(home).len() as int)
            &&& !in_overlay && !in_home ==> r == link_target
        }),
{
    reveal_strlit("~/");
    if path::path_starts_with(link_target, overlay_root) {
        path::stripping_leaves_components(link_target, overlay_root);
    } else if path::path_starts_with(link_target, home) {
        path::stripping_leaves_components(link_target, home);
        let rel = path::relative_to(link_target, home)->0;
        let r = "~/"@ + rel;
        assert(r.subrange(0, 2) =~= "~/"@);
        assert(r.skip(2) =~= rel);
    }
}

/// The sidecar of a link below home lies at the same place in the overlay, under the
/// name of the link and the ending that makes it a sidecar.
pub proof fn sidecars_lie_where_links_lie(p: Seq<char>, overlay_root: Seq<char>, home: Seq<char>)
    requires
        path::components(home).len() > 0,
        path::path_starts_with(p, home),
    ensures
        ({
            let rel = path::relative_to(p, home)->0;
            &&& path::components(rel) == path::components(p).skip(
                path::components(home).len() as int,
            )
            &&& path::components(rel).len() > 0 ==> path::components(
                link_sidecar(p, overlay_root, home),
            ) == path::components(overlay_root) + path::components(rel + ".link.toml"@)
            &&& (rel + ".link.toml"@).is_suffix_of(link_sidecar(p, overlay_root, home))
        }),
{
    reveal_strlit(".link.toml");
    path::stripping_leaves_components(p, home);
    let rel = path::relative_to(p, home)->0;
    let name = rel + ".link.toml"@;
    let at = path::joined(overlay_root, name);
    assert(!path::is_absolute(name)) by {
        if rel.len() > 0 {
            assert(name[0] == rel[0]);
        } else {
            assert(name[0] == '.');
        }
    }
    assert(at.subrange(at.len() - name.len(), at.len() as int) =~= name);
    if path::components(rel).len() > 0 {
        assert(!path::opens_with_dot(name)) by {
            text::lemma_find_char(name, '/', 0);
            if path::opens_with_dot(name) {
                assert(name[1] == '/');
                if rel.len() > 1 {
                    assert(rel[0] == '.' && rel[1] == '/');
                    text::lemma_find_char_is(rel, '/', 0, 1);
                    assert(path::opens_with_dot(rel));
                } else {
                    assert(name[1] == ".link.toml"@[1 - rel.len()]);
                }
            }
        }
        path::joining_appends_components(overlay_root, name);
    }
}

/// Links and files are told apart, each group in the order in which its paths came.
pub proof fn links_are_told_from_files(paths: Seq<AddedPath>, symlinks: bool)
    ensures
        chosen(paths, symlinks, paths.len()) == paths.filter(
            |p: AddedPath| p.is_symlink == symlinks,
        ).map_values(|p: AddedPath| p.path@),
{
    lemma_chosen(paths, symlinks, paths.len());
    assert(paths.take(paths.len() as int) =~= paths);
}

proof fn lemma_chosen(paths: Seq<AddedPath>, symlinks: bool, n: nat)
    requires
        n <= paths.len(),
    ensures
        chosen(paths, symlinks, n) == paths.take(n as int).filter(
            |p: AddedPath| p.is_symlink == symlinks,
        ).map_values(|p: AddedPath| p.path@),
    decreases n,
{
    reveal(Seq::filter);
    if n > 0 {
        lemma_chosen(paths, symlinks, (n - 1) as nat);
        assert(paths.take(n as int).drop_last() =~= paths.take(n - 1));
        assert(paths.take(n as int).last() == paths[n - 1]);
    }
    assert(chosen(paths, symlinks, n) =~= paths.take(n as int).filter(
        |p: AddedPath| p.is_symlink == symlinks,
    ).map_values(|p: AddedPath| p.path@));
}

} // verus!
