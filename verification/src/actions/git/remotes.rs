//! The remotes of a repository as a whole, and what setting up a list of them does.

use crate::actions::git::config::RemoteView;
use crate::actions::git::setup;
use crate::actions::git::setup::{
    ConfigFile, RemoteState, RemoteStepView, Settings, StateView, WriteView,
};
use vstd::prelude::*;

verus! {

/// The remotes of a repository by name, and its further configuration.
pub struct Remotes {
    pub known: Map<Seq<char>, StateView>,
    pub settings: Settings,
}

impl Remotes {
    /// The remote of this name.
    pub open spec fn remote(self, name: Seq<char>) -> Option<StateView> {
        if self.known.contains_key(name) {
            Some(self.known[name])
        } else {
            None
        }
    }

    /// With the remote of this name as given, where one is given.
    pub open spec fn with_remote(self, name: Seq<char>, state: Option<StateView>) -> Remotes {
        match state {
            Some(s) => Remotes { known: self.known.insert(name, s), ..self },
            None => self,
        }
    }

    /// After one change; nothing is said of them after a setting that stands for
    /// the URL or a refspec of some remote.
    pub open spec fn after(self, step: RemoteStepView) -> Remotes {
        match step {
            RemoteStepView::SetConfig { key, value } => if setup::keeps_remote(key) {
                vstd::pervasive::arbitrary()
            } else {
                Remotes {
                    settings: self.settings.insert((ConfigFile::Shared, key), value),
                    ..self
                }
            },
            RemoteStepView::SetUrl { name, .. } => self.with_remote(
                name,
                setup::settle(self.remote(name), step),
            ),
            RemoteStepView::Add { name, .. } => self.with_remote(
                name,
                setup::settle(self.remote(name), step),
            ),
            RemoteStepView::SetFetch { name, .. } => self.with_remote(
                name,
                setup::settle(self.remote(name), step),
            ),
            RemoteStepView::AddPush { name, .. } => self.with_remote(
                name,
                setup::settle(self.remote(name), step),
            ),
        }
    }

    /// After the first `n` changes.
    pub open spec fn after_all(self, steps: Seq<RemoteStepView>, n: nat) -> Remotes
        decreases n,
    {
        if n == 0 {
            self
        } else {
            self.after_all(steps, (n - 1) as nat).after(steps[n - 1])
        }
    }

    /// Whether `states` tells what remotes there are.
    pub open spec fn told_by(self, states: Seq<RemoteState>) -> bool {
        forall|name: Seq<char>| #[trigger]
            setup::state_of(states, name, 0) == self.remote(name)
    }

    /// After the declared remotes are set up, where `states` tells what remotes
    /// there were.
    pub open spec fn set_up(
        self,
        remotes: Seq<(Seq<char>, RemoteView)>,
        states: Seq<RemoteState>,
    ) -> Remotes {
        let steps = setup::all_remote_steps(remotes, states, remotes.len());
        self.after_all(steps, steps.len())
    }
}

/// Whether a list of declared remotes has each name once, and no further setting
/// that stands for the URL or a refspec of some remote.
pub open spec fn well_declared(remotes: Seq<(Seq<char>, RemoteView)>) -> bool {
    &&& forall|i: int, j: int|
        0 <= i < j < remotes.len() ==> (#[trigger] remotes[i]).0 != (#[trigger] remotes[j]).0
    &&& forall|i: int|
        0 <= i < remotes.len() ==> setup::extras_apart(
            (#[trigger] remotes[i]).0,
            remotes[i].1,
        )
}

/// Whether a list of declared remotes has this name.
pub open spec fn names(remotes: Seq<(Seq<char>, RemoteView)>, name: Seq<char>) -> bool {
    exists|i: int| 0 <= i < remotes.len() && (#[trigger] remotes[i]).0 == name
}

/// Whether a change is one of the remote `name`.
spec fn is_of(step: RemoteStepView, name: Seq<char>) -> bool {
    match step {
        RemoteStepView::SetConfig { key, value } => !setup::keeps_remote(key),
        RemoteStepView::SetUrl { name: n, .. } => n == name,
        RemoteStepView::Add { name: n, .. } => n == name,
        RemoteStepView::SetFetch { name: n, .. } => n == name,
        RemoteStepView::AddPush { name: n, .. } => n == name,
    }
}

/// Whether a change is no setting that stands for the URL or a refspec of some remote.
spec fn is_apart(step: RemoteStepView) -> bool {
    step is SetConfig ==> setup::is_plain_setting(step)
}

/// The settings among the first `n` changes.
spec fn settings_of(steps: Seq<RemoteStepView>, n: nat) -> Seq<WriteView>
    decreases n,
{
    if n == 0 {
        Seq::empty()
    } else {
        let before = settings_of(steps, (n - 1) as nat);
        match steps[n - 1] {
            RemoteStepView::SetConfig { key, value } => before.push(
                WriteView { file: ConfigFile::Shared, key, value },
            ),
            _ => before,
        }
    }
}

/// The settings of the first `n` declared remotes.
spec fn declared_settings(remotes: Seq<(Seq<char>, RemoteView)>, n: nat) -> Seq<WriteView>
    decreases n,
{
    if n == 0 {
        Seq::empty()
    } else {
        let own = setup::setting_steps(remotes[n - 1].0, remotes[n - 1].1);
        declared_settings(remotes, (n - 1) as nat) + settings_of(own, own.len())
    }
}

proof fn lemma_after_joined(w: Remotes, a: Seq<RemoteStepView>, b: Seq<RemoteStepView>, n: nat)
    requires
        n <= b.len(),
    ensures
        w.after_all(a + b, a.len() + n) == w.after_all(a, a.len()).after_all(b, n),
    decreases n,
{
    if n == 0 {
        lemma_after_prefix(w, a, b, a.len());
    } else {
        lemma_after_joined(w, a, b, (n - 1) as nat);
        assert((a + b)[a.len() + n - 1] == b[n - 1]);
    }
}

proof fn lemma_after_prefix(w: Remotes, a: Seq<RemoteStepView>, b: Seq<RemoteStepView>, n: nat)
    requires
        n <= a.len(),
    ensures
        w.after_all(a + b, n) == w.after_all(a, n),
    decreases n,
{
    if n > 0 {
        lemma_after_prefix(w, a, b, (n - 1) as nat);
        assert((a + b)[n - 1] == a[n - 1]);
    }
}

proof fn lemma_settings_joined(a: Seq<RemoteStepView>, b: Seq<RemoteStepView>, n: nat)
    requires
        n <= b.len(),
    ensures
        settings_of(a + b, a.len() + n) == settings_of(a, a.len()) + settings_of(b, n),
    decreases n,
{
    if n == 0 {
        lemma_settings_prefix(a, b, a.len());
        assert(settings_of(a, a.len()) + settings_of(b, 0) =~= settings_of(a, a.len()));
    } else {
        lemma_settings_joined(a, b, (n - 1) as nat);
        assert((a + b)[a.len() + n - 1] == b[n - 1]);
        assert(settings_of(a + b, a.len() + n) =~= settings_of(a, a.len()) + settings_of(b, n));
    }
}

proof fn lemma_settings_prefix(a: Seq<RemoteStepView>, b: Seq<RemoteStepView>, n: nat)
    requires
        n <= a.len(),
    ensures
        settings_of(a + b, n) == settings_of(a, n),
    decreases n,
{
    if n > 0 {
        lemma_settings_prefix(a, b, (n - 1) as nat);
        assert((a + b)[n - 1] == a[n - 1]);
    }
}

proof fn lemma_no_settings(steps: Seq<RemoteStepView>, n: nat)
    requires
        n <= steps.len(),
        forall|k: int| 0 <= k < n ==> !(#[trigger] steps[k] is SetConfig),
    ensures
        settings_of(steps, n) == Seq::<WriteView>::empty(),
    decreases n,
{
    if n > 0 {
        lemma_no_settings(steps, (n - 1) as nat);
        assert(!(steps[n - 1] is SetConfig));
    }
}

/// The changes of one remote change that remote alone.
proof fn lemma_after_own(w: Remotes, steps: Seq<RemoteStepView>, name: Seq<char>, n: nat)
    requires
        n <= steps.len(),
        forall|k: int| 0 <= k < n ==> is_of(#[trigger] steps[k], name),
    ensures
        w.after_all(steps, n).remote(name) == setup::settled(w.remote(name), steps, n),
        forall|other: Seq<char>|
            other != name ==> #[trigger] w.after_all(steps, n).remote(other) == w.remote(other),
    decreases n,
{
    if n > 0 {
        lemma_after_own(w, steps, name, (n - 1) as nat);
        assert(is_of(steps[n - 1], name));
        let before = w.after_all(steps, (n - 1) as nat);
        assert forall|other: Seq<char>| other != name implies #[trigger] w.after_all(
            steps,
            n,
        ).remote(other) == w.remote(other) by {
            assert(before.remote(other) == w.remote(other));
        }
    }
}

proof fn lemma_configured_prefix(state: Settings, writes: Seq<WriteView>, w: WriteView, n: nat)
    requires
        n <= writes.len(),
    ensures
        setup::configured(state, writes.push(w), n) == setup::configured(state, writes, n),
    decreases n,
{
    if n > 0 {
        lemma_configured_prefix(state, writes, w, (n - 1) as nat);
    }
}

proof fn lemma_after_settings(w: Remotes, steps: Seq<RemoteStepView>, n: nat)
    requires
        n <= steps.len(),
        forall|k: int| 0 <= k < n ==> is_apart(#[trigger] steps[k]),
    ensures
        w.after_all(steps, n).settings == setup::configured(
            w.settings,
            settings_of(steps, n),
            settings_of(steps, n).len(),
        ),
    decreases n,
{
    if n > 0 {
        lemma_after_settings(w, steps, (n - 1) as nat);
        let before = settings_of(steps, (n - 1) as nat);
        let step = steps[n - 1];
        if let RemoteStepView::SetConfig { key, value } = step {
            assert(is_apart(step));
            lemma_configured_prefix(
                w.settings,
                before,
                WriteView { file: ConfigFile::Shared, key, value },
                before.len(),
            );
        }
    }
}

proof fn lemma_remote_steps(name: Seq<char>, r: RemoteView, state: Option<StateView>)
    requires
        setup::extras_apart(name, r),
    ensures
        forall|k: int|
            0 <= k < setup::remote_steps(name, r, state).len() ==> is_of(
                #[trigger] setup::remote_steps(name, r, state)[k],
                name,
            ),
        settings_of(
            setup::remote_steps(name, r, state),
            setup::remote_steps(name, r, state).len(),
        ) == settings_of(setup::setting_steps(name, r), setup::setting_steps(name, r).len()),
{
    let own = setup::url_steps(name, r, state) + setup::fetch_steps(name, r, state)
        + setup::push_steps(name, r, state);
    let settings = setup::setting_steps(name, r);
    let steps = setup::remote_steps(name, r, state);
    setup::lemma_settings_are_plain(name, r);
    assert(steps == own + settings);
    assert forall|k: int| 0 <= k < steps.len() implies is_of(#[trigger] steps[k], name) by {
        if k >= own.len() {
            assert(steps[k] == settings[k - own.len()]);
            assert(setup::is_plain_setting(settings[k - own.len()]));
        }
    }
    lemma_no_settings(own, own.len());
    lemma_settings_joined(own, settings, settings.len());
    assert(Seq::<WriteView>::empty() + settings_of(settings, settings.len()) =~= settings_of(
        settings,
        settings.len(),
    ));
}

/// What the changes of the first `n` declared remotes make of the remotes.
proof fn lemma_set_up(
    w: Remotes,
    remotes: Seq<(Seq<char>, RemoteView)>,
    states: Seq<RemoteState>,
    n: nat,
)
    requires
        n <= remotes.len(),
        well_declared(remotes),
        w.told_by(states),
    ensures
        ({
            let steps = setup::all_remote_steps(remotes, states, n);
            let after = w.after_all(steps, steps.len());
            &&& forall|i: int|
                0 <= i < n ==> after.remote((#[trigger] remotes[i]).0) == setup::declared(
                    remotes[i].0,
                    remotes[i].1,
                    w.remote(remotes[i].0),
                )
            &&& forall|name: Seq<char>|
                !names(remotes.take(n as int), name) ==> #[trigger] after.remote(name) == w.remote(
                    name,
                )
            &&& settings_of(steps, steps.len()) == declared_settings(remotes, n)
            &&& forall|k: int| 0 <= k < steps.len() ==> is_apart(#[trigger] steps[k])
        }),
    decreases n,
{
    if n > 0 {
        let m = (n - 1) as nat;
        lemma_set_up(w, remotes, states, m);
        let (name, r) = remotes[n - 1];
        let before = setup::all_remote_steps(remotes, states, m);
        let own = setup::remote_steps(name, r, setup::state_of(states, name, 0));
        let steps = setup::all_remote_steps(remotes, states, n);
        let middle = w.after_all(before, before.len());
        let after = w.after_all(steps, steps.len());
        assert(setup::state_of(states, name, 0) == w.remote(name));
        lemma_after_joined(w, before, own, own.len());
        lemma_remote_steps(name, r, w.remote(name));
        lemma_after_own(middle, own, name, own.len());
        lemma_settings_joined(before, own, own.len());
        assert(!names(remotes.take(m as int), name)) by {
            if names(remotes.take(m as int), name) {
                let i = choose|i: int|
                    0 <= i < remotes.take(m as int).len() && (#[trigger] remotes.take(
                        m as int,
                    )[i]).0 == name;
                assert(remotes[i].0 == remotes[n - 1].0);
            }
        }
        assert(middle.remote(name) == w.remote(name));
        assert forall|i: int| 0 <= i < n implies after.remote((#[trigger] remotes[i]).0)
            == setup::declared(remotes[i].0, remotes[i].1, w.remote(remotes[i].0)) by {
            if i < m {
                assert(remotes[i].0 != remotes[n - 1].0);
            }
        }
        assert forall|other: Seq<char>| !names(remotes.take(n as int), other) implies
            #[trigger] after.remote(other) == w.remote(other) by {
            assert(remotes.take(n as int)[n - 1] == remotes[n - 1]);
            if names(remotes.take(m as int), other) {
                let i = choose|i: int|
                    0 <= i < remotes.take(m as int).len() && (#[trigger] remotes.take(
                        m as int,
                    )[i]).0 == other;
                assert(remotes.take(n as int)[i].0 == other);
            }
        }
        assert forall|k: int| 0 <= k < steps.len() implies is_apart(#[trigger] steps[k]) by {
            if k >= before.len() {
                assert(steps[k] == own[k - before.len()]);
                assert(is_of(own[k - before.len()], name));
            } else {
                assert(steps[k] == before[k]);
            }
        }
    }
}

/// Once a list of remotes is set up, each of them is there with its URL and its
/// refspecs, and those that the list does not name are as they were.
pub proof fn remotes_are_set_up(
    w: Remotes,
    remotes: Seq<(Seq<char>, RemoteView)>,
    states: Seq<RemoteState>,
)
    requires
        well_declared(remotes),
        w.told_by(states),
    ensures
        forall|i: int|
            0 <= i < remotes.len() ==> ({
                let (name, r) = #[trigger] remotes[i];
                let after = w.set_up(remotes, states).remote(name);
                &&& after is Some && after->0.url == Some(r.url)
                &&& r.fetch is Some ==> after->0.fetch == seq![r.fetch->0]
                &&& r.push is Some ==> after->0.push.contains(r.push->0)
            }),
        forall|name: Seq<char>|
            !names(remotes, name) ==> #[trigger] w.set_up(remotes, states).remote(name)
                == w.remote(name),
{
    lemma_set_up(w, remotes, states, remotes.len());
    assert(remotes.take(remotes.len() as int) =~= remotes);
    assert forall|i: int| 0 <= i < remotes.len() implies ({
        let (name, r) = #[trigger] remotes[i];
        let after = w.set_up(remotes, states).remote(name);
        &&& after is Some && after->0.url == Some(r.url)
        &&& r.fetch is Some ==> after->0.fetch == seq![r.fetch->0]
        &&& r.push is Some ==> after->0.push.contains(r.push->0)
    }) by {
        setup::remotes_are_settled_once(remotes[i].0, remotes[i].1, w.remote(remotes[i].0));
    }
}

/// Setting up the same list of remotes again leaves every remote and every setting
/// as it is.
pub proof fn setting_up_remotes_is_idempotent(
    w: Remotes,
    remotes: Seq<(Seq<char>, RemoteView)>,
    before: Seq<RemoteState>,
    after: Seq<RemoteState>,
)
    requires
        well_declared(remotes),
        w.told_by(before),
        w.set_up(remotes, before).told_by(after),
    ensures
        w.set_up(remotes, before).set_up(remotes, after) == w.set_up(remotes, before),
{
    let n = remotes.len();
    let once = w.set_up(remotes, before);
    let twice = once.set_up(remotes, after);
    let first = setup::all_remote_steps(remotes, before, n);
    let second = setup::all_remote_steps(remotes, after, n);
    lemma_set_up(w, remotes, before, n);
    lemma_set_up(once, remotes, after, n);
    lemma_after_settings(w, first, first.len());
    lemma_after_settings(once, second, second.len());
    setup::settings_are_written_once(w.settings, declared_settings(remotes, n));
    assert(remotes.take(n as int) =~= remotes);
    assert forall|name: Seq<char>| #[trigger] twice.remote(name) == once.remote(name) by {
        if names(remotes, name) {
            let i = choose|i: int| 0 <= i < remotes.len() && (#[trigger] remotes[i]).0 == name;
            setup::remotes_are_settled_once(name, remotes[i].1, w.remote(name));
        }
    }
    assert forall|name: Seq<char>| #[trigger]
        twice.known.contains_key(name) == once.known.contains_key(name) && (
        once.known.contains_key(name) ==> twice.known[name] == once.known[name]) by {
        assert(twice.remote(name) == once.remote(name));
    }
    assert(twice.known =~= once.known);
}

} // verus!
