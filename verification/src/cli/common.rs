//! What several commands have in common.

use crate::path;
use crate::path::{absolute, join_path};
use crate::text;
use crate::text::{concat2, concat3, contains_char, same, strip_prefix};
use vstd::prelude::*;

verus! {

/// Whether a text holds a character that makes it a glob pattern.
pub open spec fn has_wildcard(s: Seq<char>) -> bool {
    s.contains('*') || s.contains('?') || s.contains('[') || s.contains('{')
}

/// Whether a text is a glob pattern.
pub fn is_glob_pattern(s: &str) -> (r: bool)
    ensures
        r == has_wildcard(s@),
{
    contains_char(s, '*') || contains_char(s, '?') || contains_char(s, '[') || contains_char(
        s,
        '{',
    )
}

/// A path with a leading `~` replaced by the home directory, where that is known.
/// The home of another user is not looked up.
pub open spec fn expanded(s: Seq<char>, home: Option<Seq<char>>) -> Seq<char> {
    match home {
        Some(h) => if "~/"@.is_prefix_of(s) {
            path::joined(h, s.skip(2))
        } else if s == "~"@ {
            h
        } else {
            s
        },
        None => s,
    }
}

/// Replaces a leading `~` by the home directory.
pub fn expand_tilde(s: &str, home: &Option<String>) -> (r: String)
    ensures
        r@ == expanded(s@, text::opt_text(*home)),
{
    proof {
        reveal_strlit("~/");
    }
    if let Some(h) = home {
        if let Some(rest) = strip_prefix(s, "~/") {
            return join_path(h.as_str(), rest.as_str());
        }
        if same(s, "~") {
            return h.clone();
        }
    }
    s.to_owned()
}

/// A path from the directory `cwd`.
pub open spec fn from_directory(cwd: Seq<char>, path: Seq<char>) -> Seq<char> {
    if path::is_absolute(path) {
        path
    } else {
        path::joined(cwd, path)
    }
}

/// What an input stands for: a pattern to expand, or a path that must exist.
#[derive(Debug, PartialEq, Eq)]
pub enum Input {
    Pattern(String),
    Path(String),
}

/// What an input stands for.
pub fn read_input(input: &str, cwd: &str, home: &Option<String>) -> (r: Input)
    ensures
        ({
            let s = expanded(input@, text::opt_text(*home));
            match r {
                Input::Pattern(p) => has_wildcard(s) && p@ == s,
                Input::Path(p) => !has_wildcard(s) && p@ == from_directory(cwd@, s),
            }
        }),
{
    let s = expand_tilde(input, home);
    if is_glob_pattern(s.as_str()) {
        Input::Pattern(s)
    } else if absolute(s.as_str()) {
        Input::Path(s)
    } else {
        Input::Path(join_path(cwd, s.as_str()))
    }
}

/// What was found for an input.
#[derive(Debug, PartialEq, Eq)]
pub enum Found {
    /// The paths that a pattern matches.
    Matches(Vec<String>),
    /// Why the pattern cannot be read.
    Invalid(String),
    /// The path exists.
    Present,
    /// There is no such path.
    Absent,
}

/// The paths that an input stands for, or what is wrong with it.
pub open spec fn resolved(
    input: Seq<char>,
    found: Found,
    cwd: Seq<char>,
    home: Option<Seq<char>>,
) -> Result<Seq<Seq<char>>, Seq<char>> {
    let s = expanded(input, home);
    if has_wildcard(s) {
        match found {
            Found::Invalid(e) => Err("Invalid glob pattern '"@ + input + "': "@ + e@),
            Found::Matches(m) => if m@.len() > 0 {
                Ok(text::texts(m@).map_values(|p: Seq<char>| from_directory(cwd, p)))
            } else {
                Err("No files matched pattern '"@ + input + "'"@)
            },
            _ => Err("No files matched pattern '"@ + input + "'"@),
        }
    } else {
        match found {
            Found::Present => Ok(seq![from_directory(cwd, s)]),
            _ => Err(from_directory(cwd, s) + " does not exist"@),
        }
    }
}

/// The paths that the first `n` inputs stand for, or what is wrong with the first
/// that is wrong.
pub open spec fn all_resolved(
    inputs: Seq<Seq<char>>,
    found: Seq<Found>,
    cwd: Seq<char>,
    home: Option<Seq<char>>,
    n: nat,
) -> Result<Seq<Seq<char>>, Seq<char>>
    decreases n,
{
    if n == 0 {
        Ok(Seq::empty())
    } else {
        match all_resolved(inputs, found, cwd, home, (n - 1) as nat) {
            Err(e) => Err(e),
            Ok(before) => match resolved(inputs[n - 1], found[n - 1], cwd, home) {
                Err(e) => Err(e),
                Ok(paths) => Ok(before + paths),
            },
        }
    }
}

fn resolve_input(
    input: &str,
    found: &Found,
    cwd: &str,
    home: &Option<String>,
    paths: &mut Vec<String>,
) -> (r: Option<String>)
    ensures
        match resolved(input@, *found, cwd@, text::opt_text(*home)) {
            Ok(new) => r is None && text::texts(final(paths)@) == text::texts(old(paths)@) + new,
            Err(e) => r is Some && r->0@ == e,
        },
{
    match read_input(input, cwd, home) {
        Input::Pattern(_) => match found {
            Found::Invalid(e) => {
                let mut m = concat3("Invalid glob pattern '", input, "': ");
                m.append(e.as_str());
                return Some(m);
            },
            Found::Matches(matches) => {
                if matches.len() == 0 {
                    return Some(concat3("No files matched pattern '", input, "'"));
                }
                let ghost start = text::texts(paths@);
                let ghost new = text::texts(matches@).map_values(
                    |p: Seq<char>| from_directory(cwd@, p),
                );
                let mut i: usize = 0;
                assert(start =~= start + new.take(0));
                while i < matches.len()
                    invariant
                        i <= matches@.len(),
                        new == text::texts(matches@).map_values(|p: Seq<char>| from_directory(cwd@, p)),
                        text::texts(paths@) == start + new.take(i as int),
                    decreases matches@.len() - i,
                {
                    let ghost before = paths@;
                    let p = matches[i].as_str();
                    if absolute(p) {
                        paths.push(p.to_owned());
                    } else {
                        paths.push(join_path(cwd, p));
                    }
                    assert(text::texts(matches@)[i as int] == p@);
                    assert(text::texts(paths@) =~= text::texts(before).push(new[i as int]));
                    assert(text::texts(paths@) =~= start + new.take(i + 1));
                    i = i + 1;
                }
                assert(new.take(matches@.len() as int) =~= new);
                None
            },
            _ => Some(concat3("No files matched pattern '", input, "'")),
        },
        Input::Path(p) => match found {
            Found::Present => {
                paths.push(p);
                assert(text::texts(paths@) =~= text::texts(old(paths)@) + seq![p@]);
                None
            },
            _ => Some(concat2(p.as_str(), " does not exist")),
        },
    }
}

/// The paths that the inputs stand for; `found` holds what was found for each.
pub fn resolve_inputs(
    inputs: &Vec<String>,
    found: &Vec<Found>,
    cwd: &str,
    home: &Option<String>,
) -> (r: Result<Vec<String>, String>)
    requires
        found@.len() == inputs@.len(),
    ensures
        match (
            all_resolved(text::texts(inputs@), found@, cwd@, text::opt_text(*home), inputs@.len()),
            r,
        ) {
            (Ok(paths), Ok(v)) => text::texts(v@) == paths,
            (Err(e), Err(m)) => m@ == e,
            _ => false,
        },
{
    let mut paths: Vec<String> = Vec::new();
    let ghost h = text::opt_text(*home);
    let ghost all = text::texts(inputs@);
    let mut i: usize = 0;
    assert(text::texts(paths@) =~= Seq::<Seq<char>>::empty());
    while i < inputs.len()
        invariant
            i <= inputs@.len(),
            found@.len() == inputs@.len(),
            h == text::opt_text(*home),
            all == text::texts(inputs@),
            all_resolved(all, found@, cwd@, h, i as nat) == Ok::<Seq<Seq<char>>, Seq<char>>(
                text::texts(paths@),
            ),
        decreases inputs@.len() - i,
    {
        assert(all[i as int] == inputs@[i as int]@);
        if let Some(e) = resolve_input(inputs[i].as_str(), &found[i], cwd, home, &mut paths) {
            proof {
                lemma_error_stays(all, found@, cwd@, h, (i + 1) as nat, inputs@.len());
            }
            return Err(e);
        }
        i = i + 1;
    }
    Ok(paths)
}

proof fn lemma_error_stays(
    inputs: Seq<Seq<char>>,
    found: Seq<Found>,
    cwd: Seq<char>,
    home: Option<Seq<char>>,
    a: nat,
    b: nat,
)
    requires
        a <= b,
        all_resolved(inputs, found, cwd, home, a) is Err,
    ensures
        all_resolved(inputs, found, cwd, home, b) == all_resolved(inputs, found, cwd, home, a),
    decreases b - a,
{
    if a < b {
        lemma_error_stays(inputs, found, cwd, home, a, (b - 1) as nat);
    }
}

/// `~` stands for the home directory, alone and at the start of a path, and nowhere
/// else; without a home directory it stands for itself.
pub proof fn a_tilde_is_expanded(s: Seq<char>, home: Seq<char>, rest: Seq<char>)
    ensures
        expanded("~"@, Some(home)) == home,
        !path::is_absolute(rest) && !path::opens_with_dot(rest) ==> path::components(
            expanded("~/"@ + rest, Some(home)),
        ) == path::components(home) + path::components(rest),
        s != "~"@ && !"~/"@.is_prefix_of(s) ==> expanded(s, Some(home)) == s,
        expanded(s, None) == s,
{
    reveal_strlit("~");
    reveal_strlit("~/");
    let t = "~/"@ + rest;
    assert(t.subrange(0, 2) =~= "~/"@);
    assert(t.skip(2) =~= rest);
    assert("~"@.len() == 1);
    if !path::is_absolute(rest) && !path::opens_with_dot(rest) {
        path::joining_appends_components(home, rest);
    }
}

/// A path that is not absolute is taken from the working directory.
pub proof fn relative_paths_start_at_the_directory(cwd: Seq<char>, p: Seq<char>)
    ensures
        path::is_absolute(p) ==> from_directory(cwd, p) == p,
        !path::is_absolute(p) && !path::opens_with_dot(p) ==> path::components(
            from_directory(cwd, p),
        ) == path::components(cwd) + path::components(p),
{
    if !path::is_absolute(p) && !path::opens_with_dot(p) {
        path::joining_appends_components(cwd, p);
    }
}

/// A pattern stands for everything that it matches, in the order of the matches, and
/// fails where it matches nothing; a path stands for itself where it exists.
pub proof fn inputs_stand_for_what_was_found(
    input: Seq<char>,
    found: Found,
    cwd: Seq<char>,
    home: Option<Seq<char>>,
)
    ensures
        ({
            let s = expanded(input, home);
            let pattern = s.contains('*') || s.contains('?') || s.contains('[') || s.contains('{');
            let r = resolved(input, found, cwd, home);
            &&& r is Ok <==> if pattern {
                found is Matches && found->Matches_0@.len() > 0
            } else {
                found is Present
            }
            &&& r is Ok && pattern ==> r->Ok_0.len() == found->Matches_0@.len()
            &&& r is Ok && pattern ==> forall|k: int|
                0 <= k < r->Ok_0.len() ==> #[trigger] r->Ok_0[k] == from_directory(
                    cwd,
                    found->Matches_0@[k]@,
                )
            &&& r is Ok && !pattern ==> r->Ok_0.len() == 1 && r->Ok_0[0] == from_directory(cwd, s)
            &&& r is Err && pattern && found is Invalid ==> r->Err_0 == "Invalid glob pattern '"@
                + input + "': "@ + found->Invalid_0@
            &&& r is Err && pattern && !(found is Invalid) ==> r->Err_0
                == "No files matched pattern '"@ + input + "'"@
            &&& r is Err && !pattern ==> r->Err_0 == from_directory(cwd, s) + " does not exist"@
        }),
{
}

/// Where every input stands for something, all of it is resolved, and nothing else.
pub proof fn every_input_is_resolved(
    inputs: Seq<Seq<char>>,
    found: Seq<Found>,
    cwd: Seq<char>,
    home: Option<Seq<char>>,
    n: nat,
    p: Seq<char>,
)
    requires
        all_resolved(inputs, found, cwd, home, n) is Ok,
    ensures
        forall|i: int|
            0 <= i < n ==> (#[trigger] resolved(inputs[i], found[i], cwd, home)) is Ok,
        all_resolved(inputs, found, cwd, home, n)->Ok_0.contains(p) <==> exists|i: int|
            0 <= i < n && (#[trigger] resolved(inputs[i], found[i], cwd, home))->Ok_0.contains(p),
    decreases n,
{
    if n > 0 {
        let m = (n - 1) as nat;
        every_input_is_resolved(inputs, found, cwd, home, m, p);
        let before = all_resolved(inputs, found, cwd, home, m)->Ok_0;
        let own = resolved(inputs[n - 1], found[n - 1], cwd, home)->Ok_0;
        let all = before + own;
        if before.contains(p) {
            let k = choose|k: int| 0 <= k < before.len() && before[k] == p;
            assert(all[k] == p);
        }
        if own.contains(p) {
            let k = choose|k: int| 0 <= k < own.len() && own[k] == p;
            assert(all[before.len() + k] == p);
        }
        if all.contains(p) {
            let k = choose|k: int| 0 <= k < all.len() && all[k] == p;
            if k < before.len() {
                assert(before[k] == p);
            } else {
                assert(own[k - before.len()] == p);
            }
        }
    }
}

/// Where an input stands for nothing, the first that does is told of.
pub proof fn the_first_failure_is_told(
    inputs: Seq<Seq<char>>,
    found: Seq<Found>,
    cwd: Seq<char>,
    home: Option<Seq<char>>,
    n: nat,
    i: int,
)
    requires
        0 <= i < n,
        resolved(inputs[i], found[i], cwd, home) is Err,
        forall|j: int| 0 <= j < i ==> (#[trigger] resolved(inputs[j], found[j], cwd, home)) is Ok,
    ensures
        all_resolved(inputs, found, cwd, home, n) is Err,
        all_resolved(inputs, found, cwd, home, n)->Err_0 == resolved(
            inputs[i],
            found[i],
            cwd,
            home,
        )->Err_0,
{
    lemma_resolved_before(inputs, found, cwd, home, i as nat);
    lemma_error_stays(inputs, found, cwd, home, (i + 1) as nat, n);
}

proof fn lemma_resolved_before(
    inputs: Seq<Seq<char>>,
    found: Seq<Found>,
    cwd: Seq<char>,
    home: Option<Seq<char>>,
    n: nat,
)
    requires
        forall|j: int| 0 <= j < n ==> (#[trigger] resolved(inputs[j], found[j], cwd, home)) is Ok,
    ensures
        all_resolved(inputs, found, cwd, home, n) is Ok,
    decreases n,
{
    if n > 0 {
        lemma_resolved_before(inputs, found, cwd, home, (n - 1) as nat);
        assert(resolved(inputs[n - 1], found[n - 1], cwd, home) is Ok);
    }
}

} // verus!
