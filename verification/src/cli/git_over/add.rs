//! The command that adds files of a repository to its overlay.

use crate::path;
use crate::path::strip_base;
use crate::text;
use crate::text::concat2;
use vstd::prelude::*;

verus! {

/// The arguments of the command.
#[derive(Debug, PartialEq, Eq)]
pub struct Params {
    pub files: Vec<String>,
    pub overlay: Option<String>,
    pub dry_run: bool,
    pub force: bool,
}

/// The paths of those of the first `n` files that lie in the working directory,
/// from there.
pub open spec fn within(files: Seq<Seq<char>>, workdir: Seq<char>, n: nat) -> Seq<Seq<char>>
    decreases n,
{
    if n == 0 {
        Seq::empty()
    } else {
        let before = within(files, workdir, (n - 1) as nat);
        match path::relative_to(files[n - 1], workdir) {
            Some(rel) => before.push(rel),
            None => before,
        }
    }
}

/// The paths of the files that lie in the working directory, as they are shown.
pub fn added_paths(files: &Vec<String>, workdir: &str) -> (r: Vec<String>)
    ensures
        text::texts(r@) == within(text::texts(files@), workdir@, files@.len()),
{
    let mut r: Vec<String> = Vec::new();
    let ghost all = text::texts(files@);
    let mut i: usize = 0;
    assert(text::texts(r@) =~= Seq::<Seq<char>>::empty());
    while i < files.len()
        invariant
            i <= files@.len(),
            all == text::texts(files@),
            text::texts(r@) == within(all, workdir@, i as nat),
        decreases files@.len() - i,
    {
        let ghost before = r@;
        assert(all[i as int] == files@[i as int]@);
        if let Some(rel) = strip_base(files[i].as_str(), workdir) {
            r.push(rel);
            assert(text::texts(r@) =~= text::texts(before).push(rel@));
        }
        i = i + 1;
    }
    r
}

/// The lines by which the files that lie in the working directory are excluded.
pub fn exclude_entries(files: &Vec<String>, workdir: &str) -> (r: Vec<String>)
    ensures
        text::texts(r@) == within(text::texts(files@), workdir@, files@.len()).map_values(
            |rel: Seq<char>| "/"@ + rel,
        ),
{
    let paths = added_paths(files, workdir);
    let ghost all = text::texts(paths@).map_values(|rel: Seq<char>| "/"@ + rel);
    let mut r: Vec<String> = Vec::new();
    let mut i: usize = 0;
    assert(text::texts(r@) =~= all.take(0));
    while i < paths.len()
        invariant
            i <= paths@.len(),
            all == text::texts(paths@).map_values(|rel: Seq<char>| "/"@ + rel),
            text::texts(r@) == all.take(i as int),
        decreases paths@.len() - i,
    {
        let ghost before = r@;
        r.push(concat2("/", paths[i].as_str()));
        assert(text::texts(paths@)[i as int] == paths@[i as int]@);
        assert(text::texts(r@) =~= text::texts(before).push(all[i as int]));
        assert(text::texts(r@) =~= all.take(i + 1));
        i = i + 1;
    }
    assert(all.take(paths@.len() as int) =~= all);
    r
}

/// Every added file that lies in the repository is named by its whole path there, and
/// nothing else is.
pub proof fn added_files_are_named_within_the_repository(
    files: Seq<Seq<char>>,
    workdir: Seq<char>,
    n: nat,
)
    requires
        n <= files.len(),
        path::components(workdir).len() > 0,
    ensures
        forall|k: int|
            0 <= k < n && path::path_starts_with(#[trigger] files[k], workdir) ==> exists|m: int|
                0 <= m < within(files, workdir, n).len() && path::components(
                    #[trigger] within(files, workdir, n)[m],
                ) == path::components(files[k]).skip(path::components(workdir).len() as int),
        forall|m: int|
            0 <= m < within(files, workdir, n).len() ==> exists|k: int|
                0 <= k < n && path::path_starts_with(#[trigger] files[k], workdir)
                    && path::components(#[trigger] within(files, workdir, n)[m]) == path::components(
                    files[k],
                ).skip(path::components(workdir).len() as int),
    decreases n,
{
    if n > 0 {
        added_files_are_named_within_the_repository(files, workdir, (n - 1) as nat);
        let before = within(files, workdir, (n - 1) as nat);
        let all = within(files, workdir, n);
        let skipped = path::components(workdir).len() as int;
        if path::path_starts_with(files[n - 1], workdir) {
            path::stripping_leaves_components(files[n - 1], workdir);
        }
        assert forall|k: int| 0 <= k < n && path::path_starts_with(#[trigger] files[k], workdir) implies exists|
            m: int,
        |
            0 <= m < all.len() && path::components(#[trigger] all[m]) == path::components(
                files[k],
            ).skip(skipped) by {
            if k == n - 1 {
                assert(path::components(all[before.len() as int]) == path::components(
                    files[n - 1],
                ).skip(skipped));
            } else {
                let m = choose|m: int|
                    0 <= m < before.len() && path::components(#[trigger] before[m])
                        == path::components(files[k]).skip(skipped);
                assert(all[m] == before[m]);
            }
        }
        assert forall|m: int| 0 <= m < all.len() implies exists|k: int|
            0 <= k < n && path::path_starts_with(#[trigger] files[k], workdir) && path::components(
                #[trigger] all[m],
            ) == path::components(files[k]).skip(skipped) by {
            if m < before.len() {
                assert(all[m] == before[m]);
            } else {
                assert(path::path_starts_with(files[n - 1], workdir));
            }
        }
    }
}

} // verus!
