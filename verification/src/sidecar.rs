//! Sidecar files: small TOML or YAML files that declare something about the
//! file they are named after.

use crate::table;
use crate::text;
use crate::text::{concat2, less, strip_suffix};
use vstd::prelude::*;

verus! {

/// How a sidecar is written.
#[derive(Debug, Clone, Copy, PartialEq, Eq, Structural)]
pub enum SidecarFormat {
    Toml,
    Yaml,
    Yml,
}

impl SidecarFormat {
    /// The ending of a sidecar's name in this format.
    pub open spec fn ending(self) -> Seq<char> {
        match self {
            SidecarFormat::Toml => ".toml"@,
            SidecarFormat::Yaml => ".yaml"@,
            SidecarFormat::Yml => ".yml"@,
        }
    }

    /// TOML comes before YAML, and `.yaml` before `.yml`.
    pub open spec fn rank(self) -> int {
        match self {
            SidecarFormat::Toml => 0,
            SidecarFormat::Yaml => 1,
            SidecarFormat::Yml => 2,
        }
    }

    /// Whether a sidecar in this format takes the place of an earlier one in
    /// `other` for the same name.
    pub open spec fn wins_over(self, other: SidecarFormat) -> bool {
        self is Toml || self.rank() < other.rank()
    }

    fn beats(self, other: SidecarFormat) -> (r: bool)
        ensures
            r == self.wins_over(other),
    {
        match (self, other) {
            (SidecarFormat::Toml, _) => true,
            (SidecarFormat::Yaml, SidecarFormat::Yml) => true,
            _ => false,
        }
    }
}

/// The name that the file `rel` declares something about, and its format.
/// `kind` is what stands between the name and the ending, such as `.link`.
pub open spec fn sidecar_of(rel: Seq<char>, kind: Seq<char>) -> Option<
    (Seq<char>, SidecarFormat),
> {
    let toml = kind + ".toml"@;
    let yaml = kind + ".yaml"@;
    let yml = kind + ".yml"@;
    if toml.is_suffix_of(rel) {
        Some((rel.take(rel.len() - toml.len()), SidecarFormat::Toml))
    } else if yaml.is_suffix_of(rel) {
        Some((rel.take(rel.len() - yaml.len()), SidecarFormat::Yaml))
    } else if yml.is_suffix_of(rel) {
        Some((rel.take(rel.len() - yml.len()), SidecarFormat::Yml))
    } else {
        None
    }
}

/// The name that the file `rel` declares something about, and its format.
pub fn read_name(rel: &str, kind: &str) -> (r: Option<(String, SidecarFormat)>)
    ensures
        match r {
            Some(p) => sidecar_of(rel@, kind@) == Some((p.0@, p.1)),
            None => sidecar_of(rel@, kind@) is None,
        },
{
    let toml = concat2(kind, ".toml");
    let yaml = concat2(kind, ".yaml");
    let yml = concat2(kind, ".yml");
    if let Some(stem) = strip_suffix(rel, toml.as_str()) {
        Some((stem, SidecarFormat::Toml))
    } else if let Some(stem) = strip_suffix(rel, yaml.as_str()) {
        Some((stem, SidecarFormat::Yaml))
    } else if let Some(stem) = strip_suffix(rel, yml.as_str()) {
        Some((stem, SidecarFormat::Yml))
    } else {
        None
    }
}

/// What a sidecar declares.
pub trait Declaration: Sized {
    /// Whether there is anything to do; one that is not usable is skipped.
    spec fn usable(&self) -> bool;

    /// Whether there is anything to do.
    fn is_usable(&self) -> (r: bool)
        ensures
            r == self.usable(),
    ;
}

/// Which of the first `n` sidecars declares `stem`: the usable one that no later
/// one of them takes the place of.
pub open spec fn winner<C: Declaration>(
    files: Seq<(Seq<char>, C)>,
    kind: Seq<char>,
    stem: Seq<char>,
    n: int,
) -> Option<int>
    decreases n,
{
    if n <= 0 {
        None
    } else {
        let before = winner(files, kind, stem, n - 1);
        match sidecar_of(files[n - 1].0, kind) {
            Some(p) => if p.0 == stem && files[n - 1].1.usable() && (before is None
                || p.1.wins_over(format_of(files, kind, before->0))) {
                Some(n - 1)
            } else {
                before
            },
            None => before,
        }
    }
}

/// The format of the sidecar at `i`.
pub open spec fn format_of<C>(files: Seq<(Seq<char>, C)>, kind: Seq<char>, i: int) -> SidecarFormat {
    (sidecar_of(files[i].0, kind)->0).1
}

/// Whether `found` lists the declarations of `files`: ordered by name, each name
/// once, with the declaration that wins for it.
pub open spec fn declares<C: Declaration>(
    found: Seq<(Seq<char>, C)>,
    files: Seq<(Seq<char>, C)>,
    kind: Seq<char>,
) -> bool {
    &&& forall|i: int, j: int|
        0 <= i < j < found.len() ==> text::text_lt((#[trigger] found[i]).0, (#[trigger] found[j]).0)
    &&& forall|i: int|
        0 <= i < found.len() ==> {
            let w = winner(files, kind, (#[trigger] found[i]).0, files.len() as int);
            w is Some && found[i].1 == files[w->0].1
        }
    &&& forall|stem: Seq<char>|
        winner(files, kind, stem, files.len() as int) is Some ==> #[trigger] names(found, stem)
}

/// Whether `stem` is among the names of `found`.
pub open spec fn names<C>(found: Seq<(Seq<char>, C)>, stem: Seq<char>) -> bool {
    exists|i: int| 0 <= i < found.len() && (#[trigger] found[i]).0 == stem
}

/// The first file of `files` that is no sidecar of this kind.
pub open spec fn first_stray<C>(files: Seq<(Seq<char>, C)>, kind: Seq<char>, from: int) -> Option<int>
    decreases files.len() - from,
{
    if from >= files.len() {
        None
    } else if sidecar_of(files[from].0, kind) is None {
        Some(from)
    } else {
        first_stray(files, kind, from + 1)
    }
}

pub proof fn lemma_first_stray<C>(files: Seq<(Seq<char>, C)>, kind: Seq<char>, from: int)
    requires
        0 <= from,
    ensures
        first_stray(files, kind, from) matches Some(i) ==> from <= i < files.len(),
    decreases files.len() - from,
{
    if from < files.len() {
        lemma_first_stray(files, kind, from + 1);
    }
}

/// One sidecar of a name, and what it declares.
struct Found<C> {
    stem: String,
    format: SidecarFormat,
    config: C,
}

/// Whether `found` lists the declarations of the first `n` files.
spec fn tracks<C: Declaration>(
    found: Seq<Found<C>>,
    files: Seq<(Seq<char>, C)>,
    kind: Seq<char>,
    n: int,
) -> bool {
    &&& forall|i: int, j: int|
        0 <= i < j < found.len() ==> text::text_lt(
            (#[trigger] found[i]).stem@,
            (#[trigger] found[j]).stem@,
        )
    &&& forall|i: int|
        0 <= i < found.len() ==> {
            let w = winner(files, kind, (#[trigger] found[i]).stem@, n);
            w is Some && found[i].config == files[w->0].1 && found[i].format == format_of(
                files,
                kind,
                w->0,
            )
        }
    &&& forall|stem: Seq<char>|
        winner(files, kind, stem, n) is Some ==> #[trigger] has_stem(found, stem)
}

spec fn has_stem<C>(found: Seq<Found<C>>, stem: Seq<char>) -> bool {
    exists|i: int| 0 <= i < found.len() && (#[trigger] found[i]).stem@ == stem
}

/// Where `stem` stands, or would have to stand, among `found`.
fn place_of<C>(found: &Vec<Found<C>>, stem: &str) -> (at: usize)
    requires
        forall|i: int, j: int|
            0 <= i < j < found@.len() ==> text::text_lt(
                (#[trigger] found@[i]).stem@,
                (#[trigger] found@[j]).stem@,
            ),
    ensures
        at <= found@.len(),
        forall|i: int| 0 <= i < at ==> text::text_lt((#[trigger] found@[i]).stem@, stem@),
        forall|i: int|
            at < i < found@.len() ==> text::text_lt(stem@, (#[trigger] found@[i]).stem@),
        at < found@.len() ==> found@[at as int].stem@ == stem@ || text::text_lt(
            stem@,
            found@[at as int].stem@,
        ),
{
    let mut at: usize = 0;
    while at < found.len() && less(found[at].stem.as_str(), stem)
        invariant
            at <= found@.len(),
            forall|i: int| 0 <= i < at ==> text::text_lt((#[trigger] found@[i]).stem@, stem@),
        decreases found@.len() - at,
    {
        at = at + 1;
    }
    proof {
        if at < found@.len() {
            let here = found@[at as int].stem@;
            text::lemma_text_lt_total(here, stem@);
            assert forall|i: int| at < i < found@.len() implies text::text_lt(
                stem@,
                (#[trigger] found@[i]).stem@,
            ) by {
                assert(text::text_lt(here, found@[i].stem@));
                if text::text_lt(stem@, here) {
                    text::lemma_text_lt_transitive(stem@, here, found@[i].stem@);
                }
            }
        }
    }
    at
}

proof fn lemma_tracks_skip<C: Declaration>(
    found: Seq<Found<C>>,
    files: Seq<(Seq<char>, C)>,
    kind: Seq<char>,
    n: int,
)
    requires
        0 <= n < files.len(),
        tracks(found, files, kind, n),
        forall|stem: Seq<char>| #[trigger]
            winner(files, kind, stem, n + 1) == winner(files, kind, stem, n),
    ensures
        tracks(found, files, kind, n + 1),
{
    assert forall|i: int| 0 <= i < found.len() implies {
        let w = winner(files, kind, (#[trigger] found[i]).stem@, n + 1);
        w is Some && found[i].config == files[w->0].1 && found[i].format == format_of(
            files,
            kind,
            w->0,
        )
    } by {
        assert(winner(files, kind, found[i].stem@, n + 1) == winner(
            files,
            kind,
            found[i].stem@,
            n,
        ));
    }
    assert forall|stem: Seq<char>|
        winner(files, kind, stem, n + 1) is Some implies #[trigger] has_stem(found, stem) by {
        assert(winner(files, kind, stem, n) is Some);
    }
}

proof fn lemma_tracks_place<C: Declaration>(
    before: Seq<Found<C>>,
    after: Seq<Found<C>>,
    files: Seq<(Seq<char>, C)>,
    kind: Seq<char>,
    n: int,
    at: int,
)
    requires
        0 <= n < files.len(),
        0 <= at <= before.len(),
        tracks(before, files, kind, n),
        sidecar_of(files[n].0, kind) is Some,
        files[n].1.usable(),
        after.len() > at,
        after[at].stem@ == (sidecar_of(files[n].0, kind)->0).0,
        after[at].format == (sidecar_of(files[n].0, kind)->0).1,
        after[at].config == files[n].1,
        winner(files, kind, after[at].stem@, n + 1) == Some(n),
        after == before.insert(at, after[at]) || (at < before.len() && before[at].stem@
            == after[at].stem@ && after == before.update(at, after[at])),
        forall|i: int| 0 <= i < at ==> text::text_lt((#[trigger] before[i]).stem@, after[at].stem@),
        forall|i: int|
            at < i < before.len() ==> text::text_lt(after[at].stem@, (#[trigger] before[i]).stem@),
        after.len() > before.len() && at < before.len() ==> text::text_lt(
            after[at].stem@,
            before[at].stem@,
        ),
    ensures
        tracks(after, files, kind, n + 1),
{
    let stem = after[at].stem@;
    let inserted = after.len() == before.len() + 1;
    assert forall|s: Seq<char>| s != stem implies #[trigger] winner(files, kind, s, n + 1)
        == winner(files, kind, s, n) by {}
    assert forall|i: int, j: int| 0 <= i < j < after.len() implies text::text_lt(
        (#[trigger] after[i]).stem@,
        (#[trigger] after[j]).stem@,
    ) by {
        if inserted {
            if j < at {
                assert(after[i] == before[i] && after[j] == before[j]);
            } else if j == at {
                assert(after[i] == before[i]);
            } else {
                assert(after[j] == before[j - 1]);
                if i < at {
                    assert(after[i] == before[i]);
                } else if i > at {
                    assert(after[i] == before[i - 1]);
                } else {
                    if j - 1 == at {
                        assert(text::text_lt(stem, before[at].stem@));
                    }
                }
            }
        } else {
            if i != at {
                assert(after[i] == before[i]);
            }
            if j != at {
                assert(after[j] == before[j]);
            }
        }
    }
    assert forall|i: int| 0 <= i < after.len() implies {
        let w = winner(files, kind, (#[trigger] after[i]).stem@, n + 1);
        w is Some && after[i].config == files[w->0].1 && after[i].format == format_of(
            files,
            kind,
            w->0,
        )
    } by {
        if i != at {
            text::lemma_text_lt_irreflexive(stem);
            if i < at {
                assert(text::text_lt(after[i].stem@, after[at].stem@));
                assert(after[i] == before[i]);
            } else {
                assert(text::text_lt(after[at].stem@, after[i].stem@));
                assert(after[i] == if inserted {
                    before[i - 1]
                } else {
                    before[i]
                });
            }
        }
    }
    assert forall|s: Seq<char>|
        winner(files, kind, s, n + 1) is Some implies #[trigger] has_stem(after, s) by {
        if s == stem {
            assert(after[at].stem@ == s);
        } else {
            assert(winner(files, kind, s, n) is Some);
            assert(has_stem(before, s));
            let k = choose|i: int| 0 <= i < before.len() && (#[trigger] before[i]).stem@ == s;
            if k < at || !inserted {
                assert(after[k] == before[k]);
            } else {
                assert(after[k + 1] == before[k]);
            }
        }
    }
}

/// The declarations of `files`, ordered by name. Of several sidecars for one
/// name TOML takes precedence over YAML, and `.yaml` over `.yml`. Fails with the
/// place of the first file whose name is that of no sidecar of this kind.
pub fn collect<C: Declaration>(files: Vec<(String, C)>, kind: &str) -> (r: Result<
    Vec<(String, C)>,
    usize,
>)
    ensures
        match r {
            Ok(found) => first_stray(table::named(files@), kind@, 0) is None && declares(
                table::named(found@),
                table::named(files@),
                kind@,
            ),
            Err(i) => first_stray(table::named(files@), kind@, 0) == Some(i as int),
        },
{
    let ghost given = files@;
    let ghost all = table::named(files@);
    let mut i: usize = 0;
    while i < files.len()
        invariant
            i <= files@.len(),
            all == table::named(files@),
            first_stray(all, kind@, 0) == first_stray(all, kind@, i as int),
            forall|k: int| 0 <= k < i ==> sidecar_of((#[trigger] all[k]).0, kind@) is Some,
        decreases files@.len() - i,
    {
        if read_name(files[i].0.as_str(), kind).is_none() {
            return Err(i);
        }
        i = i + 1;
    }
    let mut found: Vec<Found<C>> = Vec::new();
    for file in it: files
        invariant
            it.seq() == given,
            all == table::named(given),
            forall|k: int| 0 <= k < all.len() ==> sidecar_of((#[trigger] all[k]).0, kind@) is Some,
            tracks(found@, all, kind@, it.index() as int),
    {
        let ghost n = it.index() as int;
        let ghost before = found@;
        assert(file == given[n] && all[n] == (file.0@, file.1));
        if let Some((stem, format)) = read_name(file.0.as_str(), kind) {
            if file.1.is_usable() {
                let at: usize = place_of(&found, stem.as_str());
                let known = at < found.len() && found[at].stem == stem;
                if known {
                    if format.beats(found[at].format) {
                        found.set(at, Found { stem, format, config: file.1 });
                        proof {
                            assert(winner(all, kind@, before[at as int].stem@, n) is Some);
                            lemma_tracks_place(before, found@, all, kind@, n, at as int);
                        }
                    } else {
                        proof {
                            assert(winner(all, kind@, before[at as int].stem@, n) is Some);
                            assert forall|s: Seq<char>| #[trigger]
                                winner(all, kind@, s, n + 1) == winner(all, kind@, s, n) by {}
                            lemma_tracks_skip(before, all, kind@, n);
                        }
                    }
                } else {
                    proof {
                        if winner(all, kind@, stem@, n) is Some {
                            assert(has_stem(before, stem@));
                            let k = choose|k: int|
                                0 <= k < before.len() && (#[trigger] before[k]).stem@ == stem@;
                            text::lemma_text_lt_irreflexive(stem@);
                            assert(k == at);
                        }
                    }
                    found.insert(at, Found { stem, format, config: file.1 });
                    proof {
                        lemma_tracks_place(before, found@, all, kind@, n, at as int);
                    }
                }
            } else {
                proof {
                    lemma_tracks_skip(before, all, kind@, n);
                }
            }
        }
    }
    let ghost listed = found@;
    let mut out: Vec<(String, C)> = Vec::new();
    for f in it: found
        invariant
            it.seq() == listed,
            out@.len() == it.index(),
            forall|k: int|
                0 <= k < out@.len() ==> (#[trigger] out@[k]).0 == listed[k].stem && out@[k].1
                    == listed[k].config,
    {
        out.push((f.stem, f.config));
    }
    proof {
        assert(tracks(listed, all, kind@, all.len() as int));
        assert forall|stem: Seq<char>|
            winner(all, kind@, stem, all.len() as int) is Some implies #[trigger] names(
            table::named(out@),
            stem,
        ) by {
            assert(has_stem(listed, stem));
            let k = choose|k: int|
                0 <= k < listed.len() && (#[trigger] listed[k]).stem@ == stem;
            assert(table::named(out@)[k].0 == stem);
        }
        let list = table::named(out@);
        assert forall|i: int, j: int| 0 <= i < j < list.len() implies text::text_lt(
            (#[trigger] list[i]).0,
            (#[trigger] list[j]).0,
        ) by {
            assert(text::text_lt(listed[i].stem@, listed[j].stem@));
        }
        assert forall|i: int| 0 <= i < list.len() implies {
            let w = winner(all, kind@, (#[trigger] list[i]).0, all.len() as int);
            w is Some && list[i].1 == all[w->0].1
        } by {
            assert(listed[i].stem@ == list[i].0);
        }
    }
    Ok(out)
}

proof fn lemma_winner<C: Declaration>(
    files: Seq<(Seq<char>, C)>,
    kind: Seq<char>,
    stem: Seq<char>,
    n: int,
)
    requires
        0 <= n <= files.len(),
    ensures
        winner(files, kind, stem, n) matches Some(w) ==> {
            &&& 0 <= w < n
            &&& sidecar_of(files[w].0, kind) is Some
            &&& (sidecar_of(files[w].0, kind)->0).0 == stem
            &&& files[w].1.usable()
        },
    decreases n,
{
    if n > 0 {
        lemma_winner(files, kind, stem, n - 1);
    }
}

/// A name keeps a usable declaration if it has one, and a TOML one if it has one
/// of those.
pub proof fn toml_takes_precedence<C: Declaration>(
    files: Seq<(Seq<char>, C)>,
    kind: Seq<char>,
    stem: Seq<char>,
    n: int,
    i: int,
)
    requires
        0 <= i < n <= files.len(),
        sidecar_of(files[i].0, kind) is Some,
        (sidecar_of(files[i].0, kind)->0).0 == stem,
        files[i].1.usable(),
    ensures
        ({
            let w = winner(files, kind, stem, n);
            &&& w is Some
            &&& files[w->0].1.usable()
            &&& format_of(files, kind, w->0).rank() <= format_of(files, kind, i).rank()
        }),
    decreases n,
{
    lemma_winner(files, kind, stem, n);
    if i < n - 1 {
        lemma_winner(files, kind, stem, n - 1);
        toml_takes_precedence(files, kind, stem, n - 1, i);
    } else {
        lemma_winner(files, kind, stem, n - 1);
    }
}

/// The name that a sidecar declares is its whole path in the overlay without the
/// ending that makes it one.
pub proof fn sidecars_are_named_by_their_path(
    rel: Seq<char>,
    stem: Seq<char>,
    kind: Seq<char>,
    format: SidecarFormat,
)
    ensures
        sidecar_of(stem + kind + ".toml"@, kind) == Some((stem, SidecarFormat::Toml)),
        sidecar_of(stem + kind + ".yaml"@, kind) == Some((stem, SidecarFormat::Yaml)),
        sidecar_of(stem + kind + ".yml"@, kind) == Some((stem, SidecarFormat::Yml)),
        sidecar_of(rel, kind) == Some((stem, format)) ==> rel == match format {
            SidecarFormat::Toml => stem + kind + ".toml"@,
            SidecarFormat::Yaml => stem + kind + ".yaml"@,
            SidecarFormat::Yml => stem + kind + ".yml"@,
        },
        sidecar_of(rel, kind) is None ==> !(kind + ".toml"@).is_suffix_of(rel) && !(kind
            + ".yaml"@).is_suffix_of(rel) && !(kind + ".yml"@).is_suffix_of(rel),
{
    reveal_strlit(".toml");
    reveal_strlit(".yaml");
    reveal_strlit(".yml");
    let toml = kind + ".toml"@;
    let yaml = kind + ".yaml"@;
    let yml = kind + ".yml"@;
    let a = stem + kind + ".toml"@;
    let b = stem + kind + ".yaml"@;
    let c = stem + kind + ".yml"@;
    let n = stem.len() as int;
    assert(a.subrange(n, a.len() as int) =~= toml);
    assert(b.subrange(n, b.len() as int) =~= yaml);
    assert(c.subrange(n, c.len() as int) =~= yml);
    assert(a.take(n) =~= stem);
    assert(b.take(n) =~= stem);
    assert(c.take(n) =~= stem);
    assert(b[b.len() - 2] == 'm' && b[b.len() - 3] == 'a');
    assert(c[c.len() - 2] == 'm' && c[c.len() - 3] == 'y');
    if toml.is_suffix_of(b) {
        assert(b.subrange(b.len() - toml.len(), b.len() as int)[toml.len() - 3] == toml[toml.len() - 3]);
    }
    if toml.is_suffix_of(c) {
        assert(c.subrange(c.len() - toml.len(), c.len() as int)[toml.len() - 3] == toml[toml.len() - 3]);
    }
    if yaml.is_suffix_of(c) {
        assert(c.subrange(c.len() - yaml.len(), c.len() as int)[yaml.len() - 3] == yaml[yaml.len() - 3]);
    }
    if sidecar_of(rel, kind) == Some((stem, format)) {
        let ending = match format {
            SidecarFormat::Toml => toml,
            SidecarFormat::Yaml => yaml,
            SidecarFormat::Yml => yml,
        };
        assert(rel =~= rel.take(rel.len() - ending.len()) + ending);
        assert(stem + toml =~= a);
        assert(stem + yaml =~= b);
        assert(stem + yml =~= c);
    }
}

/// Every name that a usable sidecar declares is declared.
pub proof fn every_usable_sidecar_declares_its_name<C: Declaration>(
    files: Seq<(Seq<char>, C)>,
    kind: Seq<char>,
    stem: Seq<char>,
    n: int,
    i: int,
)
    requires
        0 <= i < n <= files.len(),
        sidecar_of(files[i].0, kind) is Some,
        (sidecar_of(files[i].0, kind)->0).0 == stem,
        files[i].1.usable(),
    ensures
        winner(files, kind, stem, n) is Some,
    decreases n,
{
    if i < n - 1 {
        every_usable_sidecar_declares_its_name(files, kind, stem, n - 1, i);
    }
}

/// A sidecar in TOML comes before one in YAML, one that ends in `.yaml` before one
/// that ends in `.yml`, and a later TOML file before an earlier one.
pub proof fn formats_have_their_order()
    ensures
        SidecarFormat::Toml.wins_over(SidecarFormat::Yaml),
        SidecarFormat::Toml.wins_over(SidecarFormat::Yml),
        SidecarFormat::Toml.wins_over(SidecarFormat::Toml),
        SidecarFormat::Yaml.wins_over(SidecarFormat::Yml),
        !SidecarFormat::Yaml.wins_over(SidecarFormat::Toml),
        !SidecarFormat::Yml.wins_over(SidecarFormat::Toml),
        !SidecarFormat::Yml.wins_over(SidecarFormat::Yaml),
        !SidecarFormat::Yaml.wins_over(SidecarFormat::Yaml),
        !SidecarFormat::Yml.wins_over(SidecarFormat::Yml),
{
}

/// The first file whose name has none of the endings of its kind is a stray, and
/// there is none where every name has one.
pub proof fn files_without_an_ending_are_strays<C>(
    files: Seq<(Seq<char>, C)>,
    kind: Seq<char>,
    from: int,
    k: int,
)
    requires
        0 <= from <= k <= files.len(),
        k < files.len() ==> !(kind + ".toml"@).is_suffix_of(files[k].0) && !(kind
            + ".yaml"@).is_suffix_of(files[k].0) && !(kind + ".yml"@).is_suffix_of(files[k].0),
        forall|i: int|
            from <= i < k ==> (kind + ".toml"@).is_suffix_of((#[trigger] files[i]).0) || (kind
                + ".yaml"@).is_suffix_of(files[i].0) || (kind + ".yml"@).is_suffix_of(files[i].0),
    ensures
        k < files.len() ==> first_stray(files, kind, from) == Some(k),
        k == files.len() ==> first_stray(files, kind, from) is None,
    decreases k - from,
{
    if from < k {
        sidecars_are_named_by_their_path(files[from].0, files[from].0, kind, SidecarFormat::Toml);
        files_without_an_ending_are_strays(files, kind, from + 1, k);
    } else if k < files.len() {
        let rel = files[k].0;
        if let Some(found) = sidecar_of(rel, kind) {
            sidecars_are_named_by_their_path(rel, found.0, kind, found.1);
            let ending = match found.1 {
                SidecarFormat::Toml => kind + ".toml"@,
                SidecarFormat::Yaml => kind + ".yaml"@,
                SidecarFormat::Yml => kind + ".yml"@,
            };
            assert(rel =~= found.0 + ending);
            assert(rel.subrange(rel.len() - ending.len(), rel.len() as int) =~= ending);
        }
    }
}

/// What is found is declared by usable sidecars and by nothing else: every one of
/// them declares its name, and every name comes with what one of its sidecars says.
pub proof fn what_is_found_is_declared<C: Declaration>(
    found: Seq<(Seq<char>, C)>,
    files: Seq<(Seq<char>, C)>,
    kind: Seq<char>,
    i: int,
    k: int,
)
    requires
        declares(found, files, kind),
    ensures
        0 <= i < files.len() && sidecar_of(files[i].0, kind) is Some && files[i].1.usable() ==> exists|
            m: int,
        |
            0 <= m < found.len() && (#[trigger] found[m]).0 == (sidecar_of(files[i].0, kind)->0).0,
        0 <= k < found.len() ==> exists|j: int|
            0 <= j < files.len() && sidecar_of((#[trigger] files[j]).0, kind) is Some && (sidecar_of(
                files[j].0,
                kind,
            )->0).0 == found[k].0 && files[j].1.usable() && files[j].1 == found[k].1,
        0 <= i < k < found.len() ==> found[i].0 != found[k].0,
{
    if 0 <= i < files.len() && sidecar_of(files[i].0, kind) is Some && files[i].1.usable() {
        let stem = (sidecar_of(files[i].0, kind)->0).0;
        every_usable_sidecar_declares_its_name(files, kind, stem, files.len() as int, i);
        assert(names(found, stem));
    }
    if 0 <= k < found.len() {
        let stem = found[k].0;
        lemma_winner_is_usable(files, kind, stem, files.len() as int);
        let w = winner(files, kind, stem, files.len() as int)->0;
        assert(files[w].1 == found[k].1);
    }
    if 0 <= i < k < found.len() {
        text::lemma_text_lt_irreflexive(found[i].0);
    }
}

proof fn lemma_winner_is_usable<C: Declaration>(
    files: Seq<(Seq<char>, C)>,
    kind: Seq<char>,
    stem: Seq<char>,
    n: int,
)
    requires
        n <= files.len(),
    ensures
        winner(files, kind, stem, n) matches Some(w) ==> {
            &&& 0 <= w < n
            &&& sidecar_of(files[w].0, kind) is Some
            &&& (sidecar_of(files[w].0, kind)->0).0 == stem
            &&& files[w].1.usable()
        },
    decreases n,
{
    if n > 0 {
        lemma_winner_is_usable(files, kind, stem, n - 1);
    }
}

} // verus!
