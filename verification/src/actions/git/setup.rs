//! How a git repository that is there is brought to what is declared of it.

use crate::actions::git;
use crate::actions::git::config;
use crate::actions::git::config::{
    GitConfig, GitRepoConfig, Pairs, RemoteConfig, RemoteView, RepoView, WorktreeView,
};
use crate::path;
use crate::path::join_path;
use crate::table;
use crate::text;
use crate::text::{concat2, concat3, contains_text, same, strip_prefix};
use vstd::prelude::*;

verus! {

/// What is checked out beyond the branch of the clone.
#[derive(Debug, PartialEq, Eq)]
pub enum Checkout {
    Nothing,
    Tag(String),
    Rev(String),
}

/// What is checked out of a repository: its tag, or else its revision.
pub fn checkout_ref(config: &GitRepoConfig) -> (r: Checkout)
    ensures
        match r {
            Checkout::Tag(t) => config@.tag == Some(t@),
            Checkout::Rev(v) => config@.tag is None && config@.rev == Some(v@),
            Checkout::Nothing => config@.tag is None && config@.rev is None,
        },
{
    if let Some(tag) = &config.tag {
        Checkout::Tag(tag.clone())
    } else if let Some(rev) = &config.rev {
        Checkout::Rev(rev.clone())
    } else {
        Checkout::Nothing
    }
}

/// The reference that a tag resolves to.
#[derive(Debug, PartialEq, Eq)]
pub enum Resolved {
    /// An object without a reference.
    Object,
    /// A reference whose name is not text.
    Unnamed,
    Reference(String),
}

/// Where the head of the repository goes.
#[derive(Debug, PartialEq, Eq)]
pub enum HeadMove {
    /// To this reference.
    Reference(String),
    /// To the object itself.
    Detached,
}

/// Where the head goes for a tag.
pub fn tag_head(tag: &str, resolved: &Resolved) -> (r: Result<HeadMove, String>)
    ensures
        match (*resolved, r) {
            (Resolved::Object, Ok(HeadMove::Detached)) => true,
            (Resolved::Reference(n), Ok(HeadMove::Reference(m))) => m@ == n@,
            (Resolved::Unnamed, Err(e)) => e@ == "invalid reference name for tag "@ + tag@,
            _ => false,
        },
{
    match resolved {
        Resolved::Object => Ok(HeadMove::Detached),
        Resolved::Reference(n) => Ok(HeadMove::Reference(n.clone())),
        Resolved::Unnamed => Err(concat2("invalid reference name for tag ", tag)),
    }
}

/// A remote that a repository has.
#[derive(Debug, PartialEq, Eq)]
pub struct RemoteState {
    pub name: String,
    pub url: Option<String>,
    /// The refspecs that are fetched.
    pub fetch: Vec<String>,
    /// The refspecs that are pushed.
    pub push: Vec<String>,
}

/// [`RemoteState`] over text.
pub struct StateView {
    pub name: Seq<char>,
    pub url: Option<Seq<char>>,
    pub fetch: Seq<Seq<char>>,
    pub push: Seq<Seq<char>>,
}

impl View for RemoteState {
    type V = StateView;

    open spec fn view(&self) -> StateView {
        StateView {
            name: self.name@,
            url: text::opt_text(self.url),
            fetch: text::texts(self.fetch@),
            push: text::texts(self.push@),
        }
    }
}

/// One change to the remotes of a repository.
#[allow(inconsistent_fields)]
#[derive(Debug, PartialEq, Eq)]
pub enum RemoteStep {
    SetUrl { name: String, url: String },
    Add { name: String, url: String, fetch: Option<String> },
    /// This refspec takes the place of all that are fetched.
    SetFetch { name: String, fetch: String },
    AddPush { name: String, push: String },
    SetConfig { key: String, value: String },
}

/// [`RemoteStep`] over text.
#[allow(inconsistent_fields)]
pub enum RemoteStepView {
    SetUrl { name: Seq<char>, url: Seq<char> },
    Add { name: Seq<char>, url: Seq<char>, fetch: Option<Seq<char>> },
    SetFetch { name: Seq<char>, fetch: Seq<char> },
    AddPush { name: Seq<char>, push: Seq<char> },
    SetConfig { key: Seq<char>, value: Seq<char> },
}

impl View for RemoteStep {
    type V = RemoteStepView;

    open spec fn view(&self) -> RemoteStepView {
        match *self {
            RemoteStep::SetUrl { name, url } => RemoteStepView::SetUrl { name: name@, url: url@ },
            RemoteStep::Add { name, url, fetch } => RemoteStepView::Add {
                name: name@,
                url: url@,
                fetch: text::opt_text(fetch),
            },
            RemoteStep::SetFetch { name, fetch } => RemoteStepView::SetFetch {
                name: name@,
                fetch: fetch@,
            },
            RemoteStep::AddPush { name, push } => RemoteStepView::AddPush {
                name: name@,
                push: push@,
            },
            RemoteStep::SetConfig { key, value } => RemoteStepView::SetConfig {
                key: key@,
                value: value@,
            },
        }
    }
}

/// The changes over text.
pub open spec fn step_views(v: Seq<RemoteStep>) -> Seq<RemoteStepView> {
    v.map_values(|s: RemoteStep| s@)
}

/// The key of a remote's section.
pub open spec fn remote_key(name: Seq<char>, key: Seq<char>) -> Seq<char> {
    "remote."@ + name + "."@ + key
}

/// The change that gives a remote its URL.
pub open spec fn url_steps(name: Seq<char>, r: RemoteView, state: Option<StateView>) -> Seq<
    RemoteStepView,
> {
    match state {
        Some(s) => if s.url == Some(r.url) {
            Seq::empty()
        } else {
            seq![RemoteStepView::SetUrl { name, url: r.url }]
        },
        None => seq![RemoteStepView::Add { name, url: r.url, fetch: r.fetch }],
    }
}

/// The change that gives a remote that is there its refspec for fetching.
pub open spec fn fetch_steps(name: Seq<char>, r: RemoteView, state: Option<StateView>) -> Seq<
    RemoteStepView,
> {
    match (r.fetch, state) {
        (Some(f), Some(s)) => if s.fetch == seq![f] {
            Seq::empty()
        } else {
            seq![RemoteStepView::SetFetch { name, fetch: f }]
        },
        _ => Seq::empty(),
    }
}

/// The change that gives a remote its refspec for pushing.
pub open spec fn push_steps(name: Seq<char>, r: RemoteView, state: Option<StateView>) -> Seq<
    RemoteStepView,
> {
    match r.push {
        Some(p) => if state is Some && state->0.push.contains(p) {
            Seq::empty()
        } else {
            seq![RemoteStepView::AddPush { name, push: p }]
        },
        None => Seq::empty(),
    }
}

/// The settings of a remote's section that have no field of their own.
pub open spec fn extra_steps(name: Seq<char>, extras: Pairs) -> Seq<RemoteStepView> {
    extras.map_values(
        |p: (Seq<char>, Seq<char>)|
            RemoteStepView::SetConfig { key: remote_key(name, p.0), value: p.1 },
    )
}

/// The settings of a remote's section.
pub open spec fn setting_steps(name: Seq<char>, r: RemoteView) -> Seq<RemoteStepView> {
    extra_steps(name, r.extras) + match r.tagopt {
        Some(t) => seq![RemoteStepView::SetConfig { key: remote_key(name, "tagopt"@), value: t }],
        None => Seq::empty(),
    }
}

/// The changes that bring one remote from its `state` to what is declared of it.
pub open spec fn remote_steps(name: Seq<char>, r: RemoteView, state: Option<StateView>) -> Seq<
    RemoteStepView,
> {
    url_steps(name, r, state) + fetch_steps(name, r, state) + push_steps(name, r, state)
        + setting_steps(name, r)
}

/// The state of the first remote at or after `from` that has this name.
pub open spec fn state_of(states: Seq<RemoteState>, name: Seq<char>, from: int) -> Option<StateView>
    decreases states.len() - from,
{
    if from >= states.len() {
        None
    } else if states[from].name@ == name {
        Some(states[from]@)
    } else {
        state_of(states, name, from + 1)
    }
}

/// The changes for the first `n` declared remotes.
pub open spec fn all_remote_steps(
    remotes: Seq<(Seq<char>, RemoteView)>,
    states: Seq<RemoteState>,
    n: nat,
) -> Seq<RemoteStepView>
    decreases n,
{
    if n == 0 {
        Seq::empty()
    } else {
        all_remote_steps(remotes, states, (n - 1) as nat) + remote_steps(
            remotes[n - 1].0,
            remotes[n - 1].1,
            state_of(states, remotes[n - 1].0, 0),
        )
    }
}

fn find_state<'a>(states: &'a Vec<RemoteState>, name: &str) -> (r: Option<&'a RemoteState>)
    ensures
        match r {
            Some(s) => state_of(states@, name@, 0) == Some(s@),
            None => state_of(states@, name@, 0) is None,
        },
{
    let mut i: usize = 0;
    while i < states.len()
        invariant
            i <= states@.len(),
            state_of(states@, name@, 0) == state_of(states@, name@, i as int),
        decreases states@.len() - i,
    {
        if same(states[i].name.as_str(), name) {
            return Some(&states[i]);
        }
        i = i + 1;
    }
    None
}

fn section_key(name: &str, key: &str) -> (r: String)
    ensures
        r@ == remote_key(name@, key@),
{
    let mut r = concat3("remote.", name, ".");
    r.append(key);
    r
}

/// Whether a remote fetches this refspec and no other.
fn fetches_only(fetch: &Vec<String>, refspec: &str) -> (r: bool)
    ensures
        r == (text::texts(fetch@) == seq![refspec@]),
{
    assert(text::texts(fetch@).len() == fetch@.len());
    if fetch.len() != 1 {
        return false;
    }
    assert(text::texts(fetch@)[0] == fetch@[0]@);
    let r = same(fetch[0].as_str(), refspec);
    if r {
        assert(text::texts(fetch@) =~= seq![refspec@]);
    }
    r
}

fn push_step(steps: &mut Vec<RemoteStep>, step: RemoteStep)
    ensures
        step_views(final(steps)@) == step_views(old(steps)@) + seq![step@],
{
    steps.push(step);
    assert(step_views(steps@) =~= step_views(old(steps)@) + seq![step@]);
}

fn push_place_steps(
    steps: &mut Vec<RemoteStep>,
    name: &str,
    remote: &RemoteConfig,
    state: Option<&RemoteState>,
    Ghost(view): Ghost<Option<StateView>>,
)
    requires
        match state {
            Some(s) => view == Some(s@),
            None => view is None,
        },
    ensures
        step_views(final(steps)@) == step_views(old(steps)@) + url_steps(name@, remote@, view)
            + fetch_steps(name@, remote@, view) + push_steps(name@, remote@, view),
{
    let ghost start = step_views(steps@);
    match state {
        Some(s) => {
            let same_url = match &s.url {
                Some(u) => same(u.as_str(), remote.url.as_str()),
                None => false,
            };
            if !same_url {
                push_step(
                    steps,
                    RemoteStep::SetUrl { name: name.to_owned(), url: remote.url.clone() },
                );
            }
        },
        None => push_step(
            steps,
            RemoteStep::Add {
                name: name.to_owned(),
                url: remote.url.clone(),
                fetch: remote.fetch.clone(),
            },
        ),
    }
    let ghost placed = start + url_steps(name@, remote@, view);
    assert(step_views(steps@) =~= placed);
    if let Some(fetch) = &remote.fetch {
        if let Some(s) = state {
            if !fetches_only(&s.fetch, fetch.as_str()) {
                push_step(
                    steps,
                    RemoteStep::SetFetch { name: name.to_owned(), fetch: fetch.clone() },
                );
            }
        }
    }
    let ghost fetched = placed + fetch_steps(name@, remote@, view);
    assert(step_views(steps@) =~= fetched);
    if let Some(push) = &remote.push {
        let already = match state {
            Some(s) => contains_text(&s.push, push.as_str()),
            None => false,
        };
        if !already {
            push_step(steps, RemoteStep::AddPush { name: name.to_owned(), push: push.clone() });
        }
    }
    assert(step_views(steps@) =~= fetched + push_steps(name@, remote@, view));
}

fn push_remote_steps(
    steps: &mut Vec<RemoteStep>,
    name: &str,
    remote: &RemoteConfig,
    state: Option<&RemoteState>,
    Ghost(view): Ghost<Option<StateView>>,
)
    requires
        match state {
            Some(s) => view == Some(s@),
            None => view is None,
        },
    ensures
        step_views(final(steps)@) == step_views(old(steps)@) + remote_steps(
            name@,
            remote@,
            view,
        ),
{
    let ghost start = step_views(steps@);
    push_place_steps(steps, name, remote, state, Ghost(view));
    let ghost pushed = step_views(steps@);
    let ghost extras = extra_steps(name@, remote@.extras);
    let mut i: usize = 0;
    assert(pushed =~= pushed + extras.take(0));
    while i < remote.extras.len()
        invariant
            i <= remote.extras@.len(),
            extras == extra_steps(name@, remote@.extras),
            extras.len() == remote.extras@.len(),
            step_views(steps@) == pushed + extras.take(i as int),
        decreases remote.extras@.len() - i,
    {
        let key = section_key(name, remote.extras[i].0.as_str());
        push_step(steps, RemoteStep::SetConfig { key, value: remote.extras[i].1.clone() });
        assert(remote@.extras[i as int] == (
            remote.extras@[i as int].0@,
            remote.extras@[i as int].1@,
        ));
        assert(extras.take(i + 1) =~= extras.take(i as int) + seq![extras[i as int]]);
        assert(step_views(steps@) =~= pushed + extras.take(i + 1));
        i = i + 1;
    }
    assert(extras.take(remote.extras@.len() as int) =~= extras);
    if let Some(tagopt) = &remote.tagopt {
        push_step(
            steps,
            RemoteStep::SetConfig { key: section_key(name, "tagopt"), value: tagopt.clone() },
        );
    }
    assert(step_views(steps@) =~= pushed + setting_steps(name@, remote@));
    assert(pushed + setting_steps(name@, remote@) =~= start + remote_steps(name@, remote@, view));
}

/// The changes that bring the remotes of a repository to what is declared.
pub fn ensure_remotes(remotes: &Vec<(String, RemoteConfig)>, states: &Vec<RemoteState>) -> (r: Vec<
    RemoteStep,
>)
    ensures
        step_views(r@) == all_remote_steps(config::remotes_view(remotes@), states@, remotes@.len()),
{
    let mut r: Vec<RemoteStep> = Vec::new();
    let ghost declared = config::remotes_view(remotes@);
    let mut i: usize = 0;
    assert(step_views(r@) =~= Seq::<RemoteStepView>::empty());
    while i < remotes.len()
        invariant
            i <= remotes@.len(),
            declared == config::remotes_view(remotes@),
            step_views(r@) == all_remote_steps(declared, states@, i as nat),
        decreases remotes@.len() - i,
    {
        let name = remotes[i].0.as_str();
        let state = find_state(states, name);
        assert(declared[i as int] == (remotes@[i as int].0@, remotes@[i as int].1@));
        push_remote_steps(
            &mut r,
            name,
            &remotes[i].1,
            state,
            Ghost(state_of(states@, declared[i as int].0, 0)),
        );
        i = i + 1;
    }
    r
}

/// The refspec that a new remote fetches where none is declared.
pub open spec fn default_fetch(name: Seq<char>) -> Seq<char> {
    "+refs/heads/*:refs/remotes/"@ + name + "/*"@
}

/// A letter without its case.
pub open spec fn without_case(c: char) -> char {
    if 'A' <= c && c <= 'Z' {
        (c as int + 32) as char
    } else {
        c
    }
}

/// Whether a key of the configuration holds the URL or a refspec of a remote.
pub open spec fn keeps_remote(key: Seq<char>) -> bool {
    let plain = key.map_values(|c: char| without_case(c));
    ".url"@.is_suffix_of(plain) || ".fetch"@.is_suffix_of(plain) || ".push"@.is_suffix_of(plain)
}

/// Whether no further setting of a remote stands for its URL or a refspec.
pub open spec fn extras_apart(name: Seq<char>, r: RemoteView) -> bool {
    forall|i: int|
        0 <= i < r.extras.len() ==> !keeps_remote(#[trigger] remote_key(name, r.extras[i].0))
}

/// A remote after one change to it; nothing is said of it after a setting that
/// stands for the URL or a refspec of some remote.
pub open spec fn settle(state: Option<StateView>, step: RemoteStepView) -> Option<StateView> {
    match step {
        RemoteStepView::SetUrl { name, url } => match state {
            Some(s) => Some(StateView { url: Some(url), ..s }),
            None => None,
        },
        RemoteStepView::Add { name, url, fetch } => Some(
            StateView {
                name,
                url: Some(url),
                fetch: match fetch {
                    Some(f) => seq![f],
                    None => seq![default_fetch(name)],
                },
                push: Seq::empty(),
            },
        ),
        RemoteStepView::SetFetch { name, fetch } => match state {
            Some(s) => Some(StateView { fetch: seq![fetch], ..s }),
            None => None,
        },
        RemoteStepView::AddPush { name, push } => match state {
            Some(s) => Some(StateView { push: s.push.push(push), ..s }),
            None => None,
        },
        RemoteStepView::SetConfig { key, value } => if keeps_remote(key) {
            vstd::pervasive::arbitrary()
        } else {
            state
        },
    }
}

/// Whether a change is a setting that leaves the remotes as they are.
pub open spec fn is_plain_setting(step: RemoteStepView) -> bool {
    match step {
        RemoteStepView::SetConfig { key, value } => !keeps_remote(key),
        _ => false,
    }
}

pub(crate) proof fn lemma_settings_are_plain(name: Seq<char>, r: RemoteView)
    requires
        extras_apart(name, r),
    ensures
        forall|k: int|
            0 <= k < setting_steps(name, r).len() ==> is_plain_setting(
                #[trigger] setting_steps(name, r)[k],
            ),
{
    let steps = setting_steps(name, r);
    assert forall|k: int| 0 <= k < steps.len() implies is_plain_setting(#[trigger] steps[k]) by {
        if k < r.extras.len() {
            assert(steps[k] == extra_steps(name, r.extras)[k]);
            assert(!keeps_remote(remote_key(name, r.extras[k].0)));
        } else {
            let key = remote_key(name, "tagopt"@);
            reveal_strlit("tagopt");
            reveal_strlit(".url");
            reveal_strlit(".fetch");
            reveal_strlit(".push");
            let plain = key.map_values(|c: char| without_case(c));
            assert(plain.last() == 't');
            if ".url"@.is_suffix_of(plain) {
                assert(plain.subrange(plain.len() - 4, plain.len() as int)[3] == 'l');
            }
            if ".fetch"@.is_suffix_of(plain) {
                assert(plain.subrange(plain.len() - 6, plain.len() as int)[5] == 'h');
            }
            if ".push"@.is_suffix_of(plain) {
                assert(plain.subrange(plain.len() - 5, plain.len() as int)[4] == 'h');
            }
        }
    }
}

/// A remote after the first `n` changes to it.
pub open spec fn settled(state: Option<StateView>, steps: Seq<RemoteStepView>, n: nat) -> Option<
    StateView,
>
    decreases n,
{
    if n == 0 {
        state
    } else {
        settle(settled(state, steps, (n - 1) as nat), steps[n - 1])
    }
}

proof fn lemma_settled_by_settings(
    state: Option<StateView>,
    steps: Seq<RemoteStepView>,
    from: nat,
    n: nat,
)
    requires
        from <= n <= steps.len(),
        forall|k: int| from <= k < n ==> is_plain_setting(#[trigger] steps[k]),
    ensures
        settled(state, steps, n) == settled(state, steps, from),
    decreases n,
{
    if from < n {
        assert(is_plain_setting(steps[n - 1]));
        lemma_settled_by_settings(state, steps, from, (n - 1) as nat);
    }
}

/// A remote once the changes that bring it to what is declared are made.
pub open spec fn declared(name: Seq<char>, r: RemoteView, state: Option<StateView>) -> Option<
    StateView,
> {
    let steps = remote_steps(name, r, state);
    settled(state, steps, steps.len())
}

/// Once the changes to a remote are made, it has its URL and its refspecs, and
/// nothing but its settings is written again.
pub proof fn remotes_are_settled_once(name: Seq<char>, r: RemoteView, state: Option<StateView>)
    requires
        extras_apart(name, r),
    ensures
        ({
            let after = declared(name, r, state);
            &&& after is Some && after->0.url == Some(r.url)
            &&& r.fetch is Some ==> after->0.fetch == seq![r.fetch->0]
            &&& r.push is Some ==> after->0.push.contains(r.push->0)
            &&& remote_steps(name, r, after) == setting_steps(name, r)
            &&& declared(name, r, after) == after
        }),
{
    lemma_settings_are_plain(name, r);
    let steps = remote_steps(name, r, state);
    let a = url_steps(name, r, state);
    let f = fetch_steps(name, r, state);
    let b = push_steps(name, r, state);
    let settings = setting_steps(name, r);
    let m = a.len() + f.len() + b.len();
    assert forall|k: int| m <= k < steps.len() implies is_plain_setting(#[trigger] steps[k]) by {
        assert(steps[k] == settings[k - m]);
    }
    lemma_settled_by_settings(state, steps, m, steps.len());
    reveal_with_fuel(settled, 4);
    let after = settled(state, steps, m);
    if a.len() > 0 {
        assert(steps[0] == a[0]);
    }
    if f.len() > 0 {
        assert(steps[a.len() as int] == f[0]);
    }
    if b.len() > 0 {
        assert(steps[(a.len() + f.len()) as int] == b[0]);
        let before = settled(state, steps, a.len() + f.len());
        assert(after->0.push == before->0.push.push(r.push->0));
        assert(after->0.push.last() == r.push->0);
    }
    assert(remote_steps(name, r, after) =~= settings);
    lemma_settled_by_settings(after, settings, 0, settings.len());
}

/// A worktree that is wanted.
#[derive(Debug, PartialEq, Eq)]
pub struct WantedWorktree {
    pub name: String,
    pub branch: String,
    pub config: Option<GitConfig>,
}

/// [`WantedWorktree`] over text.
pub struct WantedView {
    pub name: Seq<char>,
    pub branch: Seq<char>,
    pub config: Option<Pairs>,
}

impl View for WantedWorktree {
    type V = WantedView;

    open spec fn view(&self) -> WantedView {
        WantedView { name: self.name@, branch: self.branch@, config: config::opt_pairs(self.config) }
    }
}

/// The wanted worktrees over text.
pub open spec fn wanted_views(v: Seq<WantedWorktree>) -> Seq<WantedView> {
    v.map_values(|w: WantedWorktree| w@)
}

/// The worktrees of a repository: that of the default branch, where it is wanted,
/// and then those with a name.
pub open spec fn wanted(config: RepoView, default_branch: Seq<char>) -> Seq<WantedView> {
    (if config.worktree {
        seq![WantedView { name: default_branch, branch: default_branch, config: None }]
    } else {
        Seq::empty()
    }) + match config.worktrees {
        Some(w) => w.map_values(
            |p: (Seq<char>, WorktreeView)|
                WantedView { name: p.0, branch: p.1.branch, config: p.1.config },
        ),
        None => Seq::empty(),
    }
}

/// The worktrees of a repository.
pub fn wanted_worktrees(config: &GitRepoConfig, default_branch: &str) -> (r: Vec<WantedWorktree>)
    ensures
        wanted_views(r@) == wanted(config@, default_branch@),
{
    let mut r: Vec<WantedWorktree> = Vec::new();
    if config.worktree {
        r.push(
            WantedWorktree {
                name: default_branch.to_owned(),
                branch: default_branch.to_owned(),
                config: None,
            },
        );
    }
    let ghost first = wanted_views(r@);
    if let Some(named) = &config.worktrees {
        let ghost all = config::worktrees_view(named@).map_values(
            |p: (Seq<char>, WorktreeView)|
                WantedView { name: p.0, branch: p.1.branch, config: p.1.config },
        );
        let mut i: usize = 0;
        assert(wanted_views(r@) =~= first + all.take(0));
        while i < named.len()
            invariant
                i <= named@.len(),
                all == config::worktrees_view(named@).map_values(
                    |p: (Seq<char>, WorktreeView)|
                        WantedView { name: p.0, branch: p.1.branch, config: p.1.config },
                ),
                wanted_views(r@) == first + all.take(i as int),
            decreases named@.len() - i,
        {
            let ghost before = r@;
            let entry = named[i].1.clone();
            r.push(
                WantedWorktree {
                    name: named[i].0.clone(),
                    branch: entry.branch,
                    config: entry.config,
                },
            );
            assert(config::worktrees_view(named@)[i as int] == (
                named@[i as int].0@,
                named@[i as int].1@,
            ));
            assert(wanted_views(r@) =~= wanted_views(before).push(all[i as int]));
            assert(wanted_views(r@) =~= first + all.take(i + 1));
            i = i + 1;
        }
        assert(all.take(named@.len() as int) =~= all);
    }
    assert(wanted_views(r@) =~= wanted(config@, default_branch@));
    r
}

/// The directory of the worktree `name`.
pub fn worktree_path(base: &str, name: &str) -> (r: String)
    ensures
        r@ == path::joined(base@, name@),
{
    join_path(base, name)
}

/// Whether a worktree is missing: neither listed nor in the way.
pub open spec fn worktree_missing(
    name: Seq<char>,
    existing: Seq<Seq<char>>,
    present: bool,
) -> bool {
    !existing.contains(name) && !present
}

/// Whether a worktree is to be created.
pub fn ensure_worktree(name: &str, existing: &Vec<String>, present: bool) -> (r: bool)
    ensures
        r == worktree_missing(name@, text::texts(existing@), present),
{
    !contains_text(existing, name) && !present
}

/// The worktrees that are listed once those of the first `n` wanted ones that are
/// missing are created; `present` tells of each whether something is in the way.
pub open spec fn worktrees_listed(
    wanted: Seq<WantedView>,
    present: Seq<bool>,
    existing: Seq<Seq<char>>,
    n: nat,
) -> Seq<Seq<char>>
    decreases n,
{
    if n == 0 {
        existing
    } else {
        let before = worktrees_listed(wanted, present, existing, (n - 1) as nat);
        let name = wanted[n - 1].name;
        if worktree_missing(name, before, present[n - 1]) {
            before.push(name)
        } else {
            before
        }
    }
}

/// Once the worktrees are created, none of them is created again.
pub proof fn worktrees_are_created_once(
    wanted: Seq<WantedView>,
    present: Seq<bool>,
    existing: Seq<Seq<char>>,
    n: nat,
    i: int,
)
    requires
        0 <= i < n,
    ensures
        !worktree_missing(
            wanted[i].name,
            worktrees_listed(wanted, present, existing, n),
            present[i],
        ),
    decreases n,
{
    let before = worktrees_listed(wanted, present, existing, (n - 1) as nat);
    let after = worktrees_listed(wanted, present, existing, n);
    let name = wanted[i].name;
    if i < n - 1 {
        worktrees_are_created_once(wanted, present, existing, (n - 1) as nat, i);
    }
    if before.contains(name) {
        let k = choose|k: int| 0 <= k < before.len() && before[k] == name;
        assert(after[k] == name);
    } else if i == n - 1 && worktree_missing(name, before, present[i]) {
        assert(after.last() == name);
    }
}

/// The file with the configuration of the worktree `name` alone.
pub fn worktree_config_path(git_dir: &str, name: &str) -> (r: String)
    ensures
        r@ == path::joined(path::joined(path::joined(git_dir@, "worktrees"@), name@), "config.worktree"@),
{
    let dir = join_path(join_path(git_dir, "worktrees").as_str(), name);
    join_path(dir.as_str(), "config.worktree")
}

/// Where the branch of a worktree comes from.
#[derive(Debug, PartialEq, Eq)]
pub enum BranchSource {
    /// The branch is there.
    Local,
    /// The branch is created from this reference.
    Remote(String),
}

/// Where the branch of a worktree comes from: from the local branch, or else from
/// that of `origin`.
pub fn create_worktree(name: &str, branch: &str, local: bool, remote: bool) -> (r: Result<
    BranchSource,
    String,
>)
    ensures
        match r {
            Ok(BranchSource::Local) => local,
            Ok(BranchSource::Remote(reference)) => !local && remote && reference@
                == "refs/remotes/origin/"@ + branch@,
            Err(e) => !local && !remote && e@ == "branch '"@ + branch@ + "' not found for worktree '"@
                + name@ + "'"@,
        },
{
    if local {
        Ok(BranchSource::Local)
    } else if remote {
        Ok(BranchSource::Remote(concat2("refs/remotes/origin/", branch)))
    } else {
        let mut e = concat3("branch '", branch, "' not found for worktree '");
        e.append(name);
        e.append("'");
        Err(e)
    }
}

/// The default branch: that of the head, else that of the head of `origin`, else
/// `main` or `master`, whichever `origin` has, else `main`.
pub open spec fn default_branch(
    head: Option<Seq<char>>,
    origin_head: Option<Seq<char>>,
    main: bool,
    master: bool,
) -> Seq<char> {
    if head is Some {
        head->0
    } else if origin_head is Some && "refs/remotes/origin/"@.is_prefix_of(origin_head->0) {
        origin_head->0.skip("refs/remotes/origin/"@.len() as int)
    } else if master && !main {
        "master"@
    } else {
        "main"@
    }
}

/// The default branch of a repository.
pub fn detect_default_branch(
    head: Option<String>,
    origin_head: Option<String>,
    main: bool,
    master: bool,
) -> (r: String)
    ensures
        r@ == default_branch(text::opt_text(head), text::opt_text(origin_head), main, master),
{
    if let Some(name) = head {
        return name;
    }
    if let Some(target) = origin_head {
        if let Some(branch) = strip_prefix(target.as_str(), "refs/remotes/origin/") {
            return branch;
        }
    }
    if main {
        "main".to_owned()
    } else if master {
        "master".to_owned()
    } else {
        "main".to_owned()
    }
}

/// The files that configuration goes to.
#[derive(Debug, Clone, Copy, PartialEq, Eq, Structural)]
pub enum ConfigFile {
    /// The configuration that the worktrees share.
    Shared,
    /// The configuration of one worktree.
    Worktree,
}

/// One entry that is written to a configuration.
#[derive(Debug, PartialEq, Eq)]
pub struct ConfigWrite {
    pub file: ConfigFile,
    pub key: String,
    pub value: String,
}

/// [`ConfigWrite`] over text.
pub struct WriteView {
    pub file: ConfigFile,
    pub key: Seq<char>,
    pub value: Seq<char>,
}

impl View for ConfigWrite {
    type V = WriteView;

    open spec fn view(&self) -> WriteView {
        WriteView { file: self.file, key: self.key@, value: self.value@ }
    }
}

impl ConfigWrite {
    /// What is said of it, where it goes to the file `path`.
    pub fn note(&self, path: &str) -> (r: String)
        ensures
            r@ == match self.file {
                ConfigFile::Shared => "  Set config "@,
                ConfigFile::Worktree => "  Set "@ + path@ + " "@,
            } + self.key@ + " = "@ + self.value@,
    {
        let mut r = match self.file {
            ConfigFile::Shared => "  Set config ".to_owned(),
            ConfigFile::Worktree => concat3("  Set ", path, " "),
        };
        r.append(self.key.as_str());
        r.append(" = ");
        r.append(self.value.as_str());
        r
    }
}

/// The written entries over text.
pub open spec fn write_views(v: Seq<ConfigWrite>) -> Seq<WriteView> {
    v.map_values(|w: ConfigWrite| w@)
}

/// All entries written to one file.
pub open spec fn writes(file: ConfigFile, entries: Pairs) -> Seq<WriteView> {
    entries.map_values(|p: (Seq<char>, Seq<char>)| WriteView { file, key: p.0, value: p.1 })
}

fn push_writes(r: &mut Vec<ConfigWrite>, file: ConfigFile, entries: &Vec<(String, String)>)
    ensures
        write_views(final(r)@) == write_views(old(r)@) + writes(file, table::pairs(entries@)),
{
    let ghost start = write_views(r@);
    let ghost all = writes(file, table::pairs(entries@));
    let mut i: usize = 0;
    assert(start =~= start + all.take(0));
    while i < entries.len()
        invariant
            i <= entries@.len(),
            all == writes(file, table::pairs(entries@)),
            write_views(r@) == start + all.take(i as int),
        decreases entries@.len() - i,
    {
        let ghost before = r@;
        r.push(ConfigWrite { file, key: entries[i].0.clone(), value: entries[i].1.clone() });
        assert(table::pairs(entries@)[i as int] == (entries@[i as int].0@, entries@[i as int].1@));
        assert(write_views(r@) =~= write_views(before).push(all[i as int]));
        assert(write_views(r@) =~= start + all.take(i + 1));
        i = i + 1;
    }
    assert(all.take(entries@.len() as int) =~= all);
}

/// The entries that the declared configuration of a repository writes.
pub fn apply_git_config(config: &GitConfig) -> (r: Vec<ConfigWrite>)
    ensures
        write_views(r@) == writes(ConfigFile::Shared, config@),
{
    let mut r: Vec<ConfigWrite> = Vec::new();
    push_writes(&mut r, ConfigFile::Shared, &config.entries);
    assert(write_views(r@) =~= writes(ConfigFile::Shared, config@));
    r
}

/// The entries that the configuration of one worktree writes.
pub fn apply_config_to_file(config: &GitConfig) -> (r: Vec<ConfigWrite>)
    ensures
        write_views(r@) == writes(ConfigFile::Worktree, config@),
{
    let mut r: Vec<ConfigWrite> = Vec::new();
    push_writes(&mut r, ConfigFile::Worktree, &config.entries);
    assert(write_views(r@) =~= writes(ConfigFile::Worktree, config@));
    r
}

/// The entries that make worktrees have configuration of their own: the switch
/// for it; for a bare repository, that the worktrees are not bare while it is;
/// and what is declared for it.
pub open spec fn per_worktree_writes(config: RepoView) -> Seq<WriteView> {
    if !config.per_worktree_config {
        Seq::empty()
    } else {
        seq![
            WriteView {
                file: ConfigFile::Shared,
                key: "extensions.worktreeConfig"@,
                value: "true"@,
            },
        ] + (if git::bare(config) {
            seq![
                WriteView { file: ConfigFile::Shared, key: "core.bare"@, value: "false"@ },
                WriteView { file: ConfigFile::Worktree, key: "core.bare"@, value: "true"@ },
            ]
        } else {
            Seq::empty()
        }) + match config.worktree_config {
            Some(c) => writes(ConfigFile::Worktree, c),
            None => Seq::empty(),
        }
    }
}

/// The entries that make worktrees have configuration of their own.
pub fn apply_per_worktree_config(config: &GitRepoConfig) -> (r: Vec<ConfigWrite>)
    ensures
        write_views(r@) == per_worktree_writes(config@),
{
    let mut r: Vec<ConfigWrite> = Vec::new();
    if !config.per_worktree_config {
        assert(write_views(r@) =~= Seq::<WriteView>::empty());
        return r;
    }
    r.push(
        ConfigWrite {
            file: ConfigFile::Shared,
            key: "extensions.worktreeConfig".to_owned(),
            value: "true".to_owned(),
        },
    );
    if config.worktree || config.worktrees.is_some() {
        r.push(
            ConfigWrite {
                file: ConfigFile::Shared,
                key: "core.bare".to_owned(),
                value: "false".to_owned(),
            },
        );
        r.push(
            ConfigWrite {
                file: ConfigFile::Worktree,
                key: "core.bare".to_owned(),
                value: "true".to_owned(),
            },
        );
    }
    if let Some(own) = &config.worktree_config {
        push_writes(&mut r, ConfigFile::Worktree, &own.entries);
    }
    assert(write_views(r@) =~= per_worktree_writes(config@));
    r
}

/// Configuration by file and key.
pub type Settings = Map<(ConfigFile, Seq<char>), Seq<char>>;

/// A configuration after the first `n` entries are written to it.
pub open spec fn configured(state: Settings, writes: Seq<WriteView>, n: nat) -> Settings
    decreases n,
{
    if n == 0 {
        state
    } else {
        let w = writes[n - 1];
        configured(state, writes, (n - 1) as nat).insert((w.file, w.key), w.value)
    }
}

proof fn lemma_configured(
    state: Settings,
    writes: Seq<WriteView>,
    n: nat,
    key: (ConfigFile, Seq<char>),
)
    ensures
        ({
            let new = configured(Map::empty(), writes, n);
            let after = configured(state, writes, n);
            &&& after.contains_key(key) == (new.contains_key(key) || state.contains_key(key))
            &&& new.contains_key(key) ==> after[key] == new[key]
            &&& !new.contains_key(key) && state.contains_key(key) ==> after[key] == state[key]
        }),
    decreases n,
{
    if n > 0 {
        lemma_configured(state, writes, (n - 1) as nat, key);
    }
}

/// Writing the same entries again changes nothing.
pub proof fn settings_are_written_once(state: Settings, writes: Seq<WriteView>)
    ensures
        ({
            let once = configured(state, writes, writes.len());
            configured(once, writes, writes.len()) == once
        }),
{
    let n = writes.len();
    let once = configured(state, writes, n);
    let twice = configured(once, writes, n);
    assert forall|key: (ConfigFile, Seq<char>)| #[trigger]
        twice.contains_key(key) == once.contains_key(key) && (once.contains_key(key) ==> twice[key]
            == once[key]) by {
        lemma_configured(state, writes, n, key);
        lemma_configured(once, writes, n, key);
    }
    assert(twice =~= once);
}

/// An entry that no later one replaces is there once all are written.
pub proof fn settings_are_in_place(state: Settings, writes: Seq<WriteView>, i: int, n: nat)
    requires
        0 <= i < n,
        forall|j: int|
            i < j < n ==> (#[trigger] writes[j]).file != writes[i].file || writes[j].key
                != writes[i].key,
    ensures
        configured(state, writes, n).contains_key((writes[i].file, writes[i].key)),
        configured(state, writes, n)[(writes[i].file, writes[i].key)] == writes[i].value,
    decreases n,
{
    if i < n - 1 {
        settings_are_in_place(state, writes, i, (n - 1) as nat);
        assert(writes[n - 1].file != writes[i].file || writes[n - 1].key != writes[i].key);
    }
}

/// What is written for a remote: it is added where it is missing, with its URL and
/// what it fetches; where it is there its URL and what it fetches are set only where
/// they differ, and nothing is ever removed. What it pushes is added where it is not
/// there yet.
pub proof fn remotes_are_brought_to_what_is_declared(
    name: Seq<char>,
    r: RemoteView,
    state: Option<StateView>,
)
    ensures
        ({
            let steps = remote_steps(name, r, state);
            &&& state is None ==> steps.len() > 0 && steps[0] == (RemoteStepView::Add {
                name,
                url: r.url,
                fetch: r.fetch,
            })
            &&& state is Some ==> forall|k: int|
                0 <= k < steps.len() ==> !((#[trigger] steps[k]) is Add)
            &&& state is Some && state->0.url != Some(r.url) ==> steps.contains(
                RemoteStepView::SetUrl { name, url: r.url },
            )
            &&& state is Some && state->0.url == Some(r.url) ==> forall|k: int|
                0 <= k < steps.len() ==> !((#[trigger] steps[k]) is SetUrl)
            &&& state is Some && r.fetch is Some && state->0.fetch != seq![r.fetch->0]
                ==> steps.contains(RemoteStepView::SetFetch { name, fetch: r.fetch->0 })
            &&& (state is None || r.fetch is None || state->0.fetch == seq![r.fetch->0]) ==> forall|
                k: int,
            |
                0 <= k < steps.len() ==> !((#[trigger] steps[k]) is SetFetch)
            &&& r.push is Some && (state is None || !state->0.push.contains(r.push->0))
                ==> steps.contains(RemoteStepView::AddPush { name, push: r.push->0 })
            &&& (r.push is None || (state is Some && state->0.push.contains(r.push->0))) ==> forall|
                k: int,
            |
                0 <= k < steps.len() ==> !((#[trigger] steps[k]) is AddPush)
        }),
{
    let steps = remote_steps(name, r, state);
    let a = url_steps(name, r, state);
    let b = fetch_steps(name, r, state);
    let c = push_steps(name, r, state);
    let d = setting_steps(name, r);
    let nb = a.len() as int;
    let nc = nb + b.len();
    let nd = nc + c.len();
    assert(steps.len() == nd + d.len());
    if a.len() > 0 {
        assert(steps[0] == a[0]);
    }
    if b.len() > 0 {
        assert(steps[nb] == b[0]);
    }
    if c.len() > 0 {
        assert(steps[nc] == c[0]);
    }
    assert forall|k: int| nd <= k < steps.len() implies (#[trigger] steps[k]) is SetConfig by {
        assert(steps[k] == d[k - nd]);
    }
}

/// Everything further that is declared of a remote is written to its section, and
/// its option for tags.
pub proof fn remotes_get_all_their_settings(
    name: Seq<char>,
    r: RemoteView,
    state: Option<StateView>,
    k: int,
)
    ensures
        0 <= k < r.extras.len() ==> remote_steps(name, r, state).contains(
            RemoteStepView::SetConfig {
                key: "remote."@ + name + "."@ + r.extras[k].0,
                value: r.extras[k].1,
            },
        ),
        r.tagopt is Some ==> remote_steps(name, r, state).contains(
            RemoteStepView::SetConfig {
                key: "remote."@ + name + "."@ + "tagopt"@,
                value: r.tagopt->0,
            },
        ),
        setting_steps(name, r).len() == r.extras.len() + if r.tagopt is Some {
            1int
        } else {
            0
        },
{
    let steps = remote_steps(name, r, state);
    let at = url_steps(name, r, state).len() + fetch_steps(name, r, state).len() + push_steps(
        name,
        r,
        state,
    ).len();
    if 0 <= k < r.extras.len() {
        assert(steps[at + k] == setting_steps(name, r)[k]);
    }
    if r.tagopt is Some {
        assert(steps[(at + r.extras.len()) as int] == setting_steps(name, r)[r.extras.len() as int]);
    }
}

/// A worktree is wanted for the default branch, where that is declared, and one for
/// every declared worktree, under its name, with its branch and its settings.
pub proof fn declared_worktrees_are_wanted(config: RepoView, branch: Seq<char>, k: int)
    ensures
        ({
            let all = wanted(config, branch);
            let first: int = if config.worktree {
                1
            } else {
                0
            };
            let named: int = if config.worktrees is Some {
                config.worktrees->0.len() as int
            } else {
                0
            };
            &&& all.len() == first + named
            &&& config.worktree ==> all[0].name == branch && all[0].branch == branch && all[0].config
                is None
            &&& config.worktrees is Some && 0 <= k < named ==> {
                let w = all[first + k];
                let d = config.worktrees->0[k];
                w.name == d.0 && w.branch == d.1.branch && w.config == d.1.config
            }
        }),
{
}

/// A worktree is created where it is neither listed nor in the way, and then listed;
/// none is lost.
pub proof fn only_missing_worktrees_are_created(
    name: Seq<char>,
    wanted: Seq<WantedView>,
    present: Seq<bool>,
    existing: Seq<Seq<char>>,
    n: nat,
)
    ensures
        existing.contains(name) ==> worktrees_listed(wanted, present, existing, n).contains(name),
        existing.contains(name) ==> !worktree_missing(name, existing, false),
        !worktree_missing(name, existing, true),
        !existing.contains(name) ==> worktree_missing(name, existing, false),
        worktrees_listed(wanted, present, existing, n).len() <= existing.len() + n,
        existing.is_prefix_of(worktrees_listed(wanted, present, existing, n)),
    decreases n,
{
    if n > 0 {
        only_missing_worktrees_are_created(name, wanted, present, existing, (n - 1) as nat);
        let before = worktrees_listed(wanted, present, existing, (n - 1) as nat);
        let after = worktrees_listed(wanted, present, existing, n);
        assert(before =~= after.take(before.len() as int));
        assert(existing =~= after.subrange(0, existing.len() as int));
    } else {
        assert(existing =~= existing.subrange(0, existing.len() as int));
    }
    let after = worktrees_listed(wanted, present, existing, n);
    if existing.contains(name) {
        let i = choose|i: int| 0 <= i < existing.len() && existing[i] == name;
        assert(after[i] == after.subrange(0, existing.len() as int)[i]);
        assert(after[i] == name);
    }
}

/// The default branch is the one that is checked out, else the one that the head of
/// origin leads to, else `main`, unless there is a `master` and no `main`.
pub proof fn the_default_branch_is_found(
    head: Option<Seq<char>>,
    branch: Seq<char>,
    other: Option<Seq<char>>,
    main: bool,
    master: bool,
)
    ensures
        default_branch(Some(branch), other, main, master) == branch,
        default_branch(None, Some("refs/remotes/origin/"@ + branch), main, master) == branch,
        default_branch(None, None, true, master) == "main"@,
        default_branch(None, None, false, true) == "master"@,
        default_branch(None, None, false, false) == "main"@,
        other is Some && !"refs/remotes/origin/"@.is_prefix_of(other->0) ==> default_branch(
            None,
            other,
            main,
            master,
        ) == default_branch(None, None, main, master),
{
    let prefix = "refs/remotes/origin/"@;
    let full = prefix + branch;
    assert(full.subrange(0, prefix.len() as int) =~= prefix);
    assert(full.skip(prefix.len() as int) =~= branch);
}

/// Every declared setting is written once, under its key, with its value and in
/// their order: those of a repository where all its worktrees see them, and those of
/// a worktree where only that one does.
pub proof fn every_setting_is_written(file: ConfigFile, entries: Pairs, k: int)
    ensures
        writes(file, entries).len() == entries.len(),
        0 <= k < entries.len() ==> writes(file, entries)[k].file == file && writes(
            file,
            entries,
        )[k].key == entries[k].0 && writes(file, entries)[k].value == entries[k].1,
{
}

/// Where worktrees have settings of their own that is switched on first; a repository
/// with worktrees is then bare for itself and not for them; and every setting for
/// worktrees is written to their file. Else nothing is written.
pub proof fn worktrees_get_their_settings(config: RepoView, k: int)
    ensures
        ({
            let done = per_worktree_writes(config);
            let worktrees = config.worktree || config.worktrees is Some;
            let own: int = if config.worktree_config is Some {
                config.worktree_config->0.len() as int
            } else {
                0
            };
            let at: int = if worktrees {
                3
            } else {
                1
            };
            &&& !config.per_worktree_config ==> done.len() == 0
            &&& config.per_worktree_config ==> {
                &&& done.len() == at + own
                &&& done[0].file is Shared && done[0].key == "extensions.worktreeConfig"@
                    && done[0].value == "true"@
                &&& worktrees ==> done[1].file is Shared && done[1].key == "core.bare"@
                    && done[1].value == "false"@ && done[2].file is Worktree && done[2].key
                    == "core.bare"@ && done[2].value == "true"@
                &&& config.worktree_config is Some && 0 <= k < own ==> done[at + k].file is Worktree
                    && done[at + k].key == config.worktree_config->0[k].0 && done[at + k].value
                    == config.worktree_config->0[k].1
            }
        }),
{
}

/// What is known of a remote is what is known of the first of its name.
pub proof fn remotes_are_known_by_name(
    states: Seq<RemoteState>,
    name: Seq<char>,
    from: int,
    k: int,
)
    requires
        0 <= from <= k <= states.len(),
        k < states.len() ==> states[k].name@ == name,
        forall|i: int| from <= i < k ==> (#[trigger] states[i]).name@ != name,
    ensures
        k < states.len() ==> state_of(states, name, from) == Some(states[k]@),
        k == states.len() ==> state_of(states, name, from) is None,
    decreases k - from,
{
    if from < k {
        remotes_are_known_by_name(states, name, from + 1, k);
    }
}

/// The steps of every remote are taken, in the order in which the remotes are
/// declared, each from what is known of it.
pub proof fn every_remote_is_brought_about(
    remotes: Seq<(Seq<char>, RemoteView)>,
    states: Seq<RemoteState>,
    n: nat,
    i: int,
)
    requires
        0 <= i < n <= remotes.len(),
    ensures
        ({
            let own = remote_steps(remotes[i].0, remotes[i].1, state_of(states, remotes[i].0, 0));
            let before = all_remote_steps(remotes, states, i as nat);
            (before + own).is_prefix_of(all_remote_steps(remotes, states, n))
        }),
        all_remote_steps(remotes, states, 0).len() == 0,
    decreases n,
{
    let own = remote_steps(remotes[i].0, remotes[i].1, state_of(states, remotes[i].0, 0));
    let first = all_remote_steps(remotes, states, i as nat) + own;
    let all = all_remote_steps(remotes, states, n);
    if i == n - 1 {
        assert(all.subrange(0, first.len() as int) =~= first);
    } else {
        every_remote_is_brought_about(remotes, states, (n - 1) as nat, i);
        let before = all_remote_steps(remotes, states, (n - 1) as nat);
        assert(all.subrange(0, first.len() as int) =~= before.subrange(0, first.len() as int));
    }
}

} // verus!
