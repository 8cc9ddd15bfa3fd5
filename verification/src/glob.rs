//! Glob patterns over relative paths.

use crate::text;
use vstd::prelude::*;

verus! {

#[verifier::external_type_specification]
#[verifier::external_body]
pub struct ExGlobError(globset::Error);

/// Whether `globset::GlobBuilder::build` takes the pattern.
pub uninterp spec fn glob_valid(pattern: Seq<char>, literal_separator: bool) -> bool;

/// What `globset::GlobMatcher::is_match` says of a path and a valid pattern. With
/// `literal_separator`, wildcards do not match `/`.
pub uninterp spec fn glob_matches(
    pattern: Seq<char>,
    literal_separator: bool,
    path: Seq<char>,
) -> bool;

/// `globset::GlobBuilder::build`, `Glob::compile_matcher` and
/// `GlobMatcher::is_match` in a row. The first fails on an invalid pattern; the
/// match is a function of pattern, option and path (on Unix, where a path is
/// taken as it is). The matcher is compiled under a limit of ten mebibytes and
/// panics beyond it, which no pattern of this length comes near.
#[verifier::external_body]
fn globset_match(pattern: &str, literal_separator: bool, path: &str) -> (r: Result<
    bool,
    globset::Error,
>)
    requires
        pattern@.len() <= 64,
    ensures
        r is Ok == glob_valid(pattern@, literal_separator),
        r matches Ok(b) ==> b == glob_matches(pattern@, literal_separator, path@),
{
    let mut builder = globset::GlobBuilder::new(pattern);
    builder.literal_separator(literal_separator).backslash_escape(true);
    let glob = builder.build()?;
    Ok(glob.compile_matcher().is_match(path))
}

/// A kind of file that is not linked as it stands.
#[derive(Debug, Clone, Copy, PartialEq, Eq, Structural)]
pub enum Special {
    Descriptor,
    Link,
    Partial,
}

impl Special {
    /// The pattern that the files of this kind match.
    pub open spec fn pattern(self) -> Seq<char> {
        match self {
            Special::Descriptor => "**/over.{yml,yaml,toml}"@,
            Special::Link => "**/*.link.{toml,yaml,yml}"@,
            Special::Partial => "**/*.partial.{toml,yaml,yml}"@,
        }
    }

    /// Whether the pattern of this kind can be used at all.
    pub open spec fn valid(self) -> bool {
        glob_valid(self.pattern(), true)
    }

    /// Whether the file at `path` is of this kind.
    pub open spec fn holds(self, path: Seq<char>) -> bool {
        glob_matches(self.pattern(), true, path)
    }

    /// Whether the file at `path` is of this kind.
    pub fn matches_path(self, path: &str) -> (r: Result<bool, globset::Error>)
        ensures
            r is Ok == self.valid(),
            r matches Ok(b) ==> b == self.holds(path@),
    {
        proof {
            reveal_strlit("**/over.{yml,yaml,toml}");
            reveal_strlit("**/*.link.{toml,yaml,yml}");
            reveal_strlit("**/*.partial.{toml,yaml,yml}");
        }
        match self {
            Special::Descriptor => globset_match("**/over.{yml,yaml,toml}", true, path),
            Special::Link => globset_match("**/*.link.{toml,yaml,yml}", true, path),
            Special::Partial => globset_match("**/*.partial.{toml,yaml,yml}", true, path),
        }
    }

    /// Those of the first `n` paths that are of this kind.
    pub open spec fn among(self, paths: Seq<Seq<char>>, n: nat) -> Seq<Seq<char>>
        decreases n,
    {
        if n == 0 {
            Seq::empty()
        } else if self.holds(paths[n - 1]) {
            self.among(paths, (n - 1) as nat).push(paths[n - 1])
        } else {
            self.among(paths, (n - 1) as nat)
        }
    }

    /// Those of the paths that are of this kind, in their order.
    pub fn select(self, paths: &Vec<String>) -> (r: Result<Vec<String>, globset::Error>)
        ensures
            match r {
                Ok(found) => self.valid() && text::texts(found@) == self.among(
                    text::texts(paths@),
                    paths@.len(),
                ),
                Err(_) => !self.valid(),
            },
    {
        if let Err(e) = self.matches_path("") {
            return Err(e);
        }
        let ghost all = text::texts(paths@);
        let mut found: Vec<String> = Vec::new();
        let mut i: usize = 0;
        assert(text::texts(found@) =~= Seq::<Seq<char>>::empty());
        while i < paths.len()
            invariant
                i <= paths@.len(),
                all == text::texts(paths@),
                self.valid(),
                text::texts(found@) == self.among(all, i as nat),
            decreases paths@.len() - i,
        {
            let ghost before = found@;
            assert(all[i as int] == paths@[i as int]@);
            if self.matches_path(paths[i].as_str())? {
                found.push(paths[i].clone());
                assert(text::texts(found@) =~= text::texts(before).push(paths@[i as int]@));
            }
            i = i + 1;
        }
        Ok(found)
    }
}

/// Of a list of paths those are selected that match, in the order of the list.
pub proof fn matching_paths_are_selected(special: Special, paths: Seq<Seq<char>>)
    ensures
        special.among(paths, paths.len()) == paths.filter(
            |p: Seq<char>| glob_matches(special.pattern(), true, p),
        ),
{
    lemma_among(special, paths, paths.len());
    assert(paths.take(paths.len() as int) =~= paths);
}

proof fn lemma_among(special: Special, paths: Seq<Seq<char>>, n: nat)
    requires
        n <= paths.len(),
    ensures
        special.among(paths, n) == paths.take(n as int).filter(
            |p: Seq<char>| glob_matches(special.pattern(), true, p),
        ),
    decreases n,
{
    reveal(Seq::filter);
    if n > 0 {
        lemma_among(special, paths, (n - 1) as nat);
        assert(paths.take(n as int).drop_last() =~= paths.take(n - 1));
        assert(paths.take(n as int).last() == paths[n - 1]);
    }
}

/// A descriptor is named `over`, and a sidecar ends in what it declares and in its
/// format; neither pattern reaches over the components of a path.
pub proof fn special_files_are_told_by_name(path: Seq<char>)
    ensures
        Special::Descriptor.holds(path) == glob_matches("**/over.{yml,yaml,toml}"@, true, path),
        Special::Link.holds(path) == glob_matches("**/*.link.{toml,yaml,yml}"@, true, path),
        Special::Partial.holds(path) == glob_matches("**/*.partial.{toml,yaml,yml}"@, true, path),
        Special::Descriptor.valid() == glob_valid("**/over.{yml,yaml,toml}"@, true),
        Special::Link.valid() == glob_valid("**/*.link.{toml,yaml,yml}"@, true),
        Special::Partial.valid() == glob_valid("**/*.partial.{toml,yaml,yml}"@, true),
{
}

} // verus!
