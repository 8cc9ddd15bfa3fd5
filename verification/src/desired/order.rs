//! Entries in the order of their targets.

use crate::desired::entry;
use crate::desired::entry::{DesiredEntry, EntryView};
use crate::path;
use crate::path::less_path;
use vstd::prelude::*;

verus! {

/// Whether the entry `a` stands before `b`.
pub open spec fn entry_lt(a: EntryView, b: EntryView) -> bool {
    path::path_lt(a.target, b.target)
}

/// The first place at or after `from` whose entry stands behind `e`.
pub open spec fn slot(s: Seq<EntryView>, e: EntryView, from: int) -> int
    decreases s.len() - from,
{
    if from >= s.len() {
        s.len() as int
    } else if entry_lt(e, s[from]) {
        from
    } else {
        slot(s, e, from + 1)
    }
}

/// `s` ordered by target; entries of the same target keep their order.
pub open spec fn by_target(s: Seq<EntryView>) -> Seq<EntryView>
    decreases s.len(),
{
    if s.len() == 0 {
        Seq::empty()
    } else {
        let front = by_target(s.drop_last());
        front.insert(slot(front, s.last(), 0), s.last())
    }
}

/// Whether no entry stands behind a later one.
pub open spec fn in_order(s: Seq<EntryView>) -> bool {
    forall|i: int, j: int| 0 <= i < j < s.len() ==> !entry_lt(#[trigger] s[j], #[trigger] s[i])
}

proof fn lemma_slot(s: Seq<EntryView>, e: EntryView, from: int)
    requires
        0 <= from <= s.len(),
    ensures
        from <= slot(s, e, from) <= s.len(),
        slot(s, e, from) < s.len() ==> entry_lt(e, s[slot(s, e, from)]),
        forall|i: int| from <= i < slot(s, e, from) ==> !entry_lt(e, #[trigger] s[i]),
    decreases s.len() - from,
{
    if from < s.len() && !entry_lt(e, s[from]) {
        lemma_slot(s, e, from + 1);
    }
}

proof fn lemma_slot_is(s: Seq<EntryView>, e: EntryView, from: int, at: int)
    requires
        0 <= from <= at <= s.len(),
        at < s.len() ==> entry_lt(e, s[at]),
        forall|i: int| from <= i < at ==> !entry_lt(e, #[trigger] s[i]),
    ensures
        slot(s, e, from) == at,
    decreases at - from,
{
    if from < at {
        lemma_slot_is(s, e, from + 1, at);
    }
}

proof fn lemma_by_target_len(s: Seq<EntryView>)
    ensures
        by_target(s).len() == s.len(),
    decreases s.len(),
{
    if s.len() > 0 {
        lemma_by_target_len(s.drop_last());
        lemma_slot(by_target(s.drop_last()), s.last(), 0);
    }
}

proof fn lemma_insert_in_order(s: Seq<EntryView>, e: EntryView)
    requires
        in_order(s),
    ensures
        in_order(s.insert(slot(s, e, 0), e)),
{
    lemma_slot(s, e, 0);
    let p = slot(s, e, 0);
    let t = s.insert(p, e);
    assert forall|i: int, j: int| 0 <= i < j < t.len() implies !entry_lt(
        #[trigger] t[j],
        #[trigger] t[i],
    ) by {
        if j == p {
            assert(t[i] == s[i]);
        } else if i == p {
            assert(t[j] == s[j - 1]);
            path::path_order_is_strict(e.target, s[p].target, s[j - 1].target);
            path::path_order_is_strict(e.target, s[j - 1].target, e.target);
            path::path_order_is_strict(s[j - 1].target, e.target, s[p].target);
            if j - 1 > p {
                assert(!entry_lt(s[j - 1], s[p]));
            }
        } else if j < p {
            assert(t[i] == s[i] && t[j] == s[j]);
        } else if i < p {
            assert(t[i] == s[i] && t[j] == s[j - 1]);
        } else {
            assert(t[i] == s[i - 1] && t[j] == s[j - 1]);
        }
    }
}

/// The ordered entries are in order, and are the same entries.
pub proof fn ordering_keeps_the_entries(s: Seq<EntryView>)
    ensures
        in_order(by_target(s)),
        by_target(s).to_multiset() == s.to_multiset(),
    decreases s.len(),
{
    if s.len() > 0 {
        let front = by_target(s.drop_last());
        ordering_keeps_the_entries(s.drop_last());
        lemma_insert_in_order(front, s.last());
        lemma_slot(front, s.last(), 0);
        vstd::seq_lib::to_multiset_insert(front, slot(front, s.last(), 0), s.last());
        vstd::seq_lib::to_multiset_build(s.drop_last(), s.last());
        assert(s.drop_last().push(s.last()) =~= s);
    } else {
        assert(s =~= Seq::<EntryView>::empty());
    }
}

/// The entries at the target `c`, in their order.
pub open spec fn at_target(s: Seq<EntryView>, c: Seq<Seq<char>>) -> Seq<EntryView> {
    s.filter(|e: EntryView| path::components(e.target) == c)
}

proof fn lemma_filter_insert(s: Seq<EntryView>, p: int, e: EntryView, c: Seq<Seq<char>>)
    requires
        0 <= p <= s.len(),
        forall|i: int|
            p <= i < s.len() && path::components(e.target) == c ==> path::components((#[trigger] s[i]).target)
                != c,
    ensures
        at_target(s.insert(p, e), c) == if path::components(e.target) == c {
            at_target(s, c).push(e)
        } else {
            at_target(s, c)
        },
    decreases s.len() - p,
{
    let f = |x: EntryView| path::components(x.target) == c;
    let t = s.insert(p, e);
    reveal(Seq::filter);
    if p == s.len() {
        assert(t.drop_last() =~= s);
        assert(t.last() == e);
    } else {
        let d = s.drop_last();
        assert forall|i: int|
            p <= i < d.len() && path::components(e.target) == c implies path::components(
            (#[trigger] d[i]).target,
        ) != c by {
            assert(d[i] == s[i]);
        }
        lemma_filter_insert(d, p, e, c);
        assert(t.drop_last() =~= d.insert(p, e));
        assert(t.last() == s.last());
        assert(s.last() == s[s.len() - 1]);
    }
}

/// Entries of one target keep their order: what a later overlay layers on top
/// stays behind what it covers.
pub proof fn ordering_is_stable(s: Seq<EntryView>, c: Seq<Seq<char>>)
    ensures
        at_target(by_target(s), c) == at_target(s, c),
    decreases s.len(),
{
    reveal(Seq::filter);
    if s.len() > 0 {
        let front = by_target(s.drop_last());
        let e = s.last();
        let p = slot(front, e, 0);
        ordering_is_stable(s.drop_last(), c);
        ordering_keeps_the_entries(s.drop_last());
        lemma_slot(front, e, 0);
        assert forall|i: int|
            p <= i < front.len() && path::components(e.target) == c implies path::components(
            (#[trigger] front[i]).target,
        ) != c by {
            path::path_order_is_strict(e.target, front[p].target, front[i].target);
            path::path_order_is_strict(front[p].target, e.target, front[i].target);
            path::path_order_is_strict(front[i].target, front[p].target, e.target);
            if p < i {
                assert(!entry_lt(front[i], front[p]));
            }
        }
        lemma_filter_insert(front, p, e, c);
    }
}

/// Orders entries by target.
pub fn sort_entries(entries: Vec<DesiredEntry>) -> (r: Vec<DesiredEntry>)
    ensures
        entry::entry_views(r@) == by_target(entry::entry_views(entries@)),
{
    let ghost given = entries@;
    let mut r: Vec<DesiredEntry> = Vec::new();
    assert(entry::entry_views(r@) =~= by_target(entry::entry_views(given).take(0)));
    for e in it: entries
        invariant
            it.seq() == given,
            entry::entry_views(r@) == by_target(entry::entry_views(given).take(it.index() as int)),
    {
        let ghost n = it.index() as int;
        let ghost before = entry::entry_views(r@);
        let ghost all = entry::entry_views(given);
        let mut at: usize = 0;
        while at < r.len() && !less_path(e.target.as_str(), r[at].target.as_str())
            invariant
                at <= r@.len(),
                before == entry::entry_views(r@),
                forall|i: int| 0 <= i < at ==> !entry_lt(e@, #[trigger] before[i]),
            decreases r@.len() - at,
        {
            assert(before[at as int] == r@[at as int]@);
            at = at + 1;
        }
        proof {
            if at < r@.len() {
                assert(before[at as int] == r@[at as int]@);
            }
            lemma_slot_is(before, e@, 0, at as int);
            assert(all.take(n + 1).drop_last() =~= all.take(n));
            assert(all.take(n + 1).last() == e@);
        }
        let ghost old_r = r@;
        r.insert(at, e);
        assert(entry::entry_views(r@) =~= before.insert(at as int, e@));
    }
    assert(entry::entry_views(given).take(given.len() as int) =~= entry::entry_views(given));
    r
}

} // verus!
