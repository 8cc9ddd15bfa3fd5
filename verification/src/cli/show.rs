//! The command that shows an overlay.

use crate::actions::git::config::GitRepoConfig;
use crate::overlays::{Overlay, Rule};
use crate::text;
use crate::text::{concat2, concat3, join_texts};
use vstd::prelude::*;

verus! {

/// The arguments of the command.
#[derive(Debug, PartialEq, Eq)]
pub struct Params {
    pub name: String,
}

/// One line behind its heading, or none.
pub open spec fn optional_line(heading: Seq<char>, value: Option<Seq<char>>) -> Seq<Seq<char>> {
    match value {
        Some(v) => seq![heading + v],
        None => Seq::empty(),
    }
}

/// A list in one line.
pub open spec fn listed(l: Option<Vec<String>>) -> Option<Seq<char>> {
    match l {
        Some(v) => Some(text::join(text::texts(v@), ", "@)),
        None => None,
    }
}

/// The lines of the rules.
pub open spec fn rule_lines(rules: Seq<Rule>) -> Seq<Seq<char>> {
    rules.map_values(|r: Rule| "    "@ + r.path@ + ": "@ + r.materialization@)
}

/// The lines of the repositories.
pub open spec fn git_lines(git: Seq<(String, GitRepoConfig)>) -> Seq<Seq<char>> {
    git.map_values(|p: (String, GitRepoConfig)| "    "@ + p.0@ + ": "@ + p.1.url@)
}

/// The lines that show an overlay, whose directory is written as `root`.
pub open spec fn overlay_lines(o: Overlay, root: Seq<char>) -> Seq<Seq<char>> {
    seq![o.name@, "  root:   "@ + root, "  target: "@ + o.target@] + optional_line(
        "  desc:   "@,
        match o.description {
            Some(d) => Some(d@),
            None => None,
        },
    ) + optional_line("  uses:   "@, listed(o.uses)) + optional_line(
        "  link_dirs: "@,
        listed(o.link_dirs),
    ) + optional_line(
        "  defaults: materialization = "@,
        match o.defaults {
            Some(d) => Some(d.materialization@),
            None => None,
        },
    ) + (match o.rules {
        Some(r) => seq!["  rules:"@] + rule_lines(r@),
        None => Seq::empty(),
    }) + (match o.git {
        Some(g) => seq!["  git repositories:"@] + git_lines(g@),
        None => Seq::empty(),
    }) + (if o.install is Some {
        seq!["  install: configured"@]
    } else {
        Seq::empty()
    })
}

fn add_line(r: &mut Vec<String>, line: String)
    ensures
        text::texts(final(r)@) == text::texts(old(r)@) + seq![line@],
{
    r.push(line);
    assert(text::texts(r@) =~= text::texts(old(r)@) + seq![line@]);
}

fn add_optional(r: &mut Vec<String>, heading: &str, value: Option<String>)
    ensures
        text::texts(final(r)@) == text::texts(old(r)@) + optional_line(
            heading@,
            match value {
                Some(v) => Some(v@),
                None => None,
            },
        ),
{
    if let Some(v) = value {
        add_line(r, concat2(heading, v.as_str()));
    } else {
        assert(text::texts(r@) =~= text::texts(r@) + Seq::<Seq<char>>::empty());
    }
}

fn list_text(l: &Option<Vec<String>>) -> (r: Option<String>)
    ensures
        match r {
            Some(s) => listed(*l) == Some(s@),
            None => listed(*l) is None,
        },
{
    match l {
        Some(v) => Some(join_texts(v, ", ")),
        None => None,
    }
}

fn pair_line(key: &str, value: &str) -> (r: String)
    ensures
        r@ == "    "@ + key@ + ": "@ + value@,
{
    let mut r = concat3("    ", key, ": ");
    r.append(value);
    r
}

/// The lines that show an overlay, whose directory is written as `root`.
pub fn show_lines(o: &Overlay, root: &str) -> (r: Vec<String>)
    ensures
        text::texts(r@) == overlay_lines(*o, root@),
{
    let mut r: Vec<String> = Vec::new();
    add_line(&mut r, o.name.clone());
    add_line(&mut r, concat2("  root:   ", root));
    add_line(&mut r, concat2("  target: ", o.target.as_str()));
    assert(text::texts(r@) =~= seq![o.name@, "  root:   "@ + root@, "  target: "@ + o.target@]);
    add_optional(&mut r, "  desc:   ", o.description.clone());
    add_optional(&mut r, "  uses:   ", list_text(&o.uses));
    add_optional(&mut r, "  link_dirs: ", list_text(&o.link_dirs));
    let defaults = match &o.defaults {
        Some(d) => Some(d.materialization.clone()),
        None => None,
    };
    add_optional(&mut r, "  defaults: materialization = ", defaults);
    let ghost start = text::texts(r@);
    if let Some(rules) = &o.rules {
        add_line(&mut r, "  rules:".to_owned());
        let ghost head = text::texts(r@);
        let ghost all = rule_lines(rules@);
        let mut i: usize = 0;
        assert(head =~= head + all.take(0));
        while i < rules.len()
            invariant
                i <= rules@.len(),
                all == rule_lines(rules@),
                text::texts(r@) == head + all.take(i as int),
            decreases rules@.len() - i,
        {
            let line = pair_line(rules[i].path.as_str(), rules[i].materialization.as_str());
            assert(line@ == all[i as int]);
            add_line(&mut r, line);
            assert(head + all.take(i as int) + seq![all[i as int]] =~= head + all.take(i + 1));
            i = i + 1;
        }
        assert(all.take(rules@.len() as int) =~= all);
        assert(text::texts(r@) =~= start + (seq!["  rules:"@] + all));
    } else {
        assert(start =~= start + Seq::<Seq<char>>::empty());
    }
    let ghost middle = text::texts(r@);
    if let Some(git) = &o.git {
        add_line(&mut r, "  git repositories:".to_owned());
        let ghost head = text::texts(r@);
        let ghost all = git_lines(git@);
        let mut i: usize = 0;
        assert(head =~= head + all.take(0));
        while i < git.len()
            invariant
                i <= git@.len(),
                all == git_lines(git@),
                text::texts(r@) == head + all.take(i as int),
            decreases git@.len() - i,
        {
            let line = pair_line(git[i].0.as_str(), git[i].1.url.as_str());
            assert(line@ == all[i as int]);
            add_line(&mut r, line);
            assert(head + all.take(i as int) + seq![all[i as int]] =~= head + all.take(i + 1));
            i = i + 1;
        }
        assert(all.take(git@.len() as int) =~= all);
        assert(text::texts(r@) =~= middle + (seq!["  git repositories:"@] + all));
    } else {
        assert(middle =~= middle + Seq::<Seq<char>>::empty());
    }
    if o.install.is_some() {
        add_line(&mut r, "  install: configured".to_owned());
    } else {
        assert(text::texts(r@) =~= text::texts(r@) + Seq::<Seq<char>>::empty());
    }
    r
}

/// An overlay is shown by its name, where it lies and where it goes, in that order,
/// and then by everything that is declared of it.
pub proof fn overlays_are_shown_whole(o: Overlay, root: Seq<char>)
    ensures
        ({
            let lines = overlay_lines(o, root);
            let rules: nat = match o.rules {
                Some(r) => 1 + r@.len(),
                None => 0,
            };
            let repos: nat = match o.git {
                Some(g) => 1 + g@.len(),
                None => 0,
            };
            &&& lines[0] == o.name@
            &&& lines[1] == "  root:   "@ + root
            &&& lines[2] == "  target: "@ + o.target@
            &&& lines.len() == 3 + said(o.description is Some) + said(o.uses is Some) + said(
                o.link_dirs is Some,
            ) + said(o.defaults is Some) + rules + repos + said(o.install is Some)
            &&& o.description is Some ==> lines[3] == "  desc:   "@ + o.description->0@
            &&& o.uses is Some ==> lines[3 + said(o.description is Some)] == "  uses:   "@
                + text::join(text::texts(o.uses->0@), ", "@)
            &&& o.link_dirs is Some ==> lines[3 + said(o.description is Some) + said(
                o.uses is Some,
            )] == "  link_dirs: "@ + text::join(text::texts(o.link_dirs->0@), ", "@)
            &&& o.defaults is Some ==> lines[3 + said(o.description is Some) + said(o.uses is Some)
                + said(o.link_dirs is Some)] == "  defaults: materialization = "@
                + o.defaults->0.materialization@
            &&& o.install is Some ==> lines.last() == "  install: configured"@
        }),
{
    let (d, u, l, f, r, g, i) = sections(o);
    let h = seq![o.name@, "  root:   "@ + root, "  target: "@ + o.target@];
    assert(overlay_lines(o, root) == h + d + u + l + f + r + g + i);
    lemma_sections(h, d, u, l, f, r, g, i);
    assert(d.len() == said(o.description is Some) && u.len() == said(o.uses is Some));
    assert(l.len() == said(o.link_dirs is Some) && f.len() == said(o.defaults is Some));
    assert(i.len() == said(o.install is Some));
    assert(h[0] == o.name@ && h[1] == "  root:   "@ + root && h[2] == "  target: "@ + o.target@);
    if o.description is Some {
        assert(d[0] == "  desc:   "@ + o.description->0@);
    }
    if o.uses is Some {
        assert(u[0] == "  uses:   "@ + text::join(text::texts(o.uses->0@), ", "@));
    }
    if o.link_dirs is Some {
        assert(l[0] == "  link_dirs: "@ + text::join(text::texts(o.link_dirs->0@), ", "@));
    }
    if o.defaults is Some {
        assert(f[0] == "  defaults: materialization = "@ + o.defaults->0.materialization@);
    }
    if o.install is Some {
        assert(i[0] == "  install: configured"@);
    }
}

/// How many lines say what is declared once.
pub open spec fn said(declared: bool) -> int {
    if declared {
        1
    } else {
        0
    }
}

/// Every rule and every repository of an overlay is shown, the rules first, each
/// below its heading.
pub proof fn rules_and_repositories_are_shown(o: Overlay, root: Seq<char>)
    ensures
        ({
            let lines = overlay_lines(o, root);
            let start = 3 + said(o.description is Some) + said(o.uses is Some) + said(
                o.link_dirs is Some,
            ) + said(o.defaults is Some);
            let then = start + match o.rules {
                Some(r) => 1 + r@.len() as int,
                None => 0,
            };
            &&& o.rules is Some ==> lines[start] == "  rules:"@ && forall|k: int|
                0 <= k < o.rules->0@.len() ==> #[trigger] lines[start + 1 + k] == "    "@
                    + o.rules->0@[k].path@ + ": "@ + o.rules->0@[k].materialization@
            &&& o.git is Some ==> lines[then] == "  git repositories:"@ && forall|k: int|
                0 <= k < o.git->0@.len() ==> #[trigger] lines[then + 1 + k] == "    "@
                    + o.git->0@[k].0@ + ": "@ + o.git->0@[k].1.url@
        }),
{
    let (d, u, l, f, r, g, i) = sections(o);
    let h = seq![o.name@, "  root:   "@ + root, "  target: "@ + o.target@];
    assert(overlay_lines(o, root) == h + d + u + l + f + r + g + i);
    lemma_sections(h, d, u, l, f, r, g, i);
    assert(d.len() == said(o.description is Some) && u.len() == said(o.uses is Some));
    assert(l.len() == said(o.link_dirs is Some) && f.len() == said(o.defaults is Some));
    let lines = overlay_lines(o, root);
    let start = h.len() + d.len() + u.len() + l.len() + f.len();
    let then = start + r.len();
    if o.rules is Some {
        assert(r[0] == "  rules:"@);
        assert forall|k: int| 0 <= k < o.rules->0@.len() implies #[trigger] lines[start + 1 + k]
            == "    "@ + o.rules->0@[k].path@ + ": "@ + o.rules->0@[k].materialization@ by {
            assert(r[1 + k] == rule_lines(o.rules->0@)[k]);
        }
    }
    if o.git is Some {
        assert(g[0] == "  git repositories:"@);
        assert forall|k: int| 0 <= k < o.git->0@.len() implies #[trigger] lines[then + 1 + k]
            == "    "@ + o.git->0@[k].0@ + ": "@ + o.git->0@[k].1.url@ by {
            assert(g[1 + k] == git_lines(o.git->0@)[k]);
        }
    }
}

spec fn sections(o: Overlay) -> (
    Seq<Seq<char>>,
    Seq<Seq<char>>,
    Seq<Seq<char>>,
    Seq<Seq<char>>,
    Seq<Seq<char>>,
    Seq<Seq<char>>,
    Seq<Seq<char>>,
) {
    (
        optional_line(
            "  desc:   "@,
            match o.description {
                Some(d) => Some(d@),
                None => None,
            },
        ),
        optional_line("  uses:   "@, listed(o.uses)),
        optional_line("  link_dirs: "@, listed(o.link_dirs)),
        optional_line(
            "  defaults: materialization = "@,
            match o.defaults {
                Some(d) => Some(d.materialization@),
                None => None,
            },
        ),
        match o.rules {
            Some(r) => seq!["  rules:"@] + rule_lines(r@),
            None => Seq::empty(),
        },
        match o.git {
            Some(g) => seq!["  git repositories:"@] + git_lines(g@),
            None => Seq::empty(),
        },
        if o.install is Some {
            seq!["  install: configured"@]
        } else {
            Seq::empty()
        },
    )
}

proof fn lemma_sections(
    h: Seq<Seq<char>>,
    d: Seq<Seq<char>>,
    u: Seq<Seq<char>>,
    l: Seq<Seq<char>>,
    f: Seq<Seq<char>>,
    r: Seq<Seq<char>>,
    g: Seq<Seq<char>>,
    i: Seq<Seq<char>>,
)
    ensures
        ({
            let all = h + d + u + l + f + r + g + i;
            &&& all.len() == h.len() + d.len() + u.len() + l.len() + f.len() + r.len() + g.len()
                + i.len()
            &&& forall|k: int| 0 <= k < h.len() ==> #[trigger] h[k] == all[k]
            &&& forall|k: int| 0 <= k < d.len() ==> #[trigger] d[k] == all[h.len() + k]
            &&& forall|k: int| 0 <= k < u.len() ==> #[trigger] u[k] == all[h.len() + d.len() + k]
            &&& forall|k: int|
                0 <= k < l.len() ==> #[trigger] l[k] == all[h.len() + d.len() + u.len() + k]
            &&& forall|k: int|
                0 <= k < f.len() ==> #[trigger] f[k] == all[h.len() + d.len() + u.len() + l.len()
                    + k]
            &&& forall|k: int|
                0 <= k < r.len() ==> #[trigger] r[k] == all[h.len() + d.len() + u.len() + l.len()
                    + f.len() + k]
            &&& forall|k: int|
                0 <= k < g.len() ==> #[trigger] g[k] == all[h.len() + d.len() + u.len() + l.len()
                    + f.len() + r.len() + k]
            &&& forall|k: int| 0 <= k < i.len() ==> #[trigger] i[k] == all[all.len() - i.len() + k]
        }),
{
}

} // verus!
