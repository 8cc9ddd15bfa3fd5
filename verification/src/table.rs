//! Small tables keyed by text: lists of pairs in which no key occurs twice.

use crate::text;
use crate::text::{less, same};
use vstd::prelude::*;

verus! {

/// A list of pairs by the text of its keys.
pub open spec fn named<V>(m: Seq<(String, V)>) -> Seq<(Seq<char>, V)> {
    m.map_values(|p: (String, V)| (p.0@, p.1))
}

/// A list of pairs of strings by their text.
pub open spec fn pairs(m: Seq<(String, String)>) -> Seq<(Seq<char>, Seq<char>)> {
    m.map_values(|p: (String, String)| (p.0@, p.1@))
}

/// The first place at or after `from` that holds `key`, or the length.
pub open spec fn place<V>(m: Seq<(Seq<char>, V)>, key: Seq<char>, from: int) -> int
    decreases m.len() - from,
{
    if from >= m.len() {
        m.len() as int
    } else if m[from].0 == key {
        from
    } else {
        place(m, key, from + 1)
    }
}

/// What the table holds for `key`.
pub open spec fn lookup<V>(m: Seq<(Seq<char>, V)>, key: Seq<char>) -> Option<V> {
    let i = place(m, key, 0);
    if i < m.len() {
        Some(m[i].1)
    } else {
        None
    }
}

/// The table with `value` for `key`: in the place of what it held for it, or
/// else at its end.
pub open spec fn put<V>(m: Seq<(Seq<char>, V)>, key: Seq<char>, value: V) -> Seq<(Seq<char>, V)> {
    let i = place(m, key, 0);
    if i < m.len() {
        m.update(i, (key, value))
    } else {
        m.push((key, value))
    }
}

/// Whether no key occurs twice.
pub open spec fn distinct<V>(m: Seq<(Seq<char>, V)>) -> bool {
    forall|i: int, j: int| 0 <= i < j < m.len() ==> (#[trigger] m[i]).0 != (#[trigger] m[j]).0
}

pub proof fn lemma_place<V>(m: Seq<(Seq<char>, V)>, key: Seq<char>, from: int)
    requires
        0 <= from <= m.len(),
    ensures
        from <= place(m, key, from) <= m.len(),
        place(m, key, from) < m.len() ==> m[place(m, key, from)].0 == key,
        forall|i: int| from <= i < place(m, key, from) ==> (#[trigger] m[i]).0 != key,
    decreases m.len() - from,
{
    if from < m.len() && m[from].0 != key {
        lemma_place(m, key, from + 1);
    }
}

pub proof fn lemma_place_is<V>(m: Seq<(Seq<char>, V)>, key: Seq<char>, from: int, at: int)
    requires
        0 <= from <= at <= m.len(),
        at < m.len() ==> m[at].0 == key,
        forall|i: int| from <= i < at ==> (#[trigger] m[i]).0 != key,
    ensures
        place(m, key, from) == at,
    decreases at - from,
{
    if from < at {
        lemma_place_is(m, key, from + 1, at);
    }
}

/// Putting a value keeps the keys distinct, makes the value the one that is
/// found for its key, and leaves what is found for every other key.
pub proof fn putting_sets_one_key<V>(
    m: Seq<(Seq<char>, V)>,
    key: Seq<char>,
    value: V,
    other: Seq<char>,
)
    ensures
        distinct(m) ==> distinct(put(m, key, value)),
        lookup(put(m, key, value), key) == Some(value),
        other != key ==> lookup(put(m, key, value), other) == lookup(m, other),
{
    lemma_place(m, key, 0);
    lemma_place(m, other, 0);
    let n = put(m, key, value);
    let i = place(m, key, 0);
    lemma_place_is(n, key, 0, i);
    if distinct(m) {
        assert forall|a: int, b: int| 0 <= a < b < n.len() implies (#[trigger] n[a]).0 != (
        #[trigger] n[b]).0 by {
            if a == i {
                if b < m.len() {
                    assert(m[a].0 != m[b].0);
                }
            } else if b == i {
                assert(m[a].0 != key);
            } else {
                assert(m[a].0 != m[b].0);
            }
        }
    }
    if other != key {
        let j = place(m, other, 0);
        if j < m.len() {
            lemma_place_is(n, other, 0, j);
        } else {
            lemma_place_is(n, other, 0, n.len() as int);
        }
    }
}

/// The place of `key`, or the length.
pub fn place_of<V>(m: &Vec<(String, V)>, key: &str) -> (i: usize)
    ensures
        i == place(named(m@), key@, 0),
        i <= m@.len(),
        i < m@.len() ==> m@[i as int].0@ == key@,
{
    let mut i: usize = 0;
    while i < m.len() && !same(m[i].0.as_str(), key)
        invariant
            i <= m@.len(),
            forall|k: int| 0 <= k < i ==> (#[trigger] named(m@)[k]).0 != key@,
        decreases m@.len() - i,
    {
        assert(named(m@)[i as int].0 == m@[i as int].0@);
        i = i + 1;
    }
    proof {
        lemma_place_is(named(m@), key@, 0, i as int);
    }
    i
}

/// Puts `value` for `key`.
pub fn put_entry<V>(m: &mut Vec<(String, V)>, key: String, value: V)
    ensures
        named(final(m)@) == put(named(old(m)@), key@, value),
{
    let i: usize = place_of(m, key.as_str());
    if i < m.len() {
        m.set(i, (key, value));
    } else {
        m.push((key, value));
    }
    assert(named(m@) =~= put(named(old(m)@), key@, value));
}

/// A copy of a list of pairs of strings.
pub fn copy_pairs(m: &Vec<(String, String)>) -> (r: Vec<(String, String)>)
    ensures
        r@ == m@,
{
    let mut r: Vec<(String, String)> = Vec::new();
    let mut i: usize = 0;
    while i < m.len()
        invariant
            i <= m@.len(),
            r@ == m@.take(i as int),
        decreases m@.len() - i,
    {
        r.push((m[i].0.clone(), m[i].1.clone()));
        assert(r@ =~= m@.take(i + 1));
        i = i + 1;
    }
    assert(m@.take(m@.len() as int) =~= m@);
    r
}

/// The first place at or after `from` whose key does not stand before `key`.
pub open spec fn key_slot<V>(m: Seq<(Seq<char>, V)>, key: Seq<char>, from: int) -> int
    decreases m.len() - from,
{
    if from >= m.len() {
        m.len() as int
    } else if !text::text_lt(m[from].0, key) {
        from
    } else {
        key_slot(m, key, from + 1)
    }
}

/// The pairs ordered by key; pairs of one key keep their order.
pub open spec fn by_key<V>(m: Seq<(Seq<char>, V)>) -> Seq<(Seq<char>, V)>
    decreases m.len(),
{
    if m.len() == 0 {
        Seq::empty()
    } else {
        let rest = by_key(m.drop_first());
        rest.insert(key_slot(rest, m[0].0, 0), m[0])
    }
}

/// Whether no key stands behind a later one.
pub open spec fn keys_in_order<V>(m: Seq<(Seq<char>, V)>) -> bool {
    forall|i: int, j: int|
        0 <= i < j < m.len() ==> !text::text_lt((#[trigger] m[j]).0, (#[trigger] m[i]).0)
}

pub proof fn lemma_key_slot<V>(m: Seq<(Seq<char>, V)>, key: Seq<char>, from: int)
    requires
        0 <= from <= m.len(),
    ensures
        from <= key_slot(m, key, from) <= m.len(),
        key_slot(m, key, from) < m.len() ==> !text::text_lt(m[key_slot(m, key, from)].0, key),
        forall|i: int| from <= i < key_slot(m, key, from) ==> text::text_lt((#[trigger] m[i]).0, key),
    decreases m.len() - from,
{
    if from < m.len() && text::text_lt(m[from].0, key) {
        lemma_key_slot(m, key, from + 1);
    }
}

/// Ordering by key puts the keys in order and keeps every pair.
pub proof fn ordering_by_key<V>(m: Seq<(Seq<char>, V)>)
    ensures
        keys_in_order(by_key(m)),
        by_key(m).to_multiset() == m.to_multiset(),
        by_key(m).len() == m.len(),
    decreases m.len(),
{
    broadcast use vstd::seq_lib::group_to_multiset_ensures;

    if m.len() > 0 {
        let rest = by_key(m.drop_first());
        ordering_by_key(m.drop_first());
        let at = key_slot(rest, m[0].0, 0);
        lemma_key_slot(rest, m[0].0, 0);
        let r = by_key(m);
        assert forall|i: int, j: int| 0 <= i < j < r.len() implies !text::text_lt(
            (#[trigger] r[j]).0,
            (#[trigger] r[i]).0,
        ) by {
            let k = m[0].0;
            text::lemma_text_lt_irreflexive(k);
            if i == at {
                // `k` before what does not stand before it
                assert(r[j] == rest[j - 1]);
                if j - 1 > at {
                    assert(!text::text_lt(rest[j - 1].0, rest[at].0));
                    if text::text_lt(rest[j - 1].0, k) {
                        text::lemma_text_lt_total(rest[at].0, k);
                        if text::text_lt(k, rest[at].0) {
                            text::lemma_text_lt_transitive(rest[j - 1].0, k, rest[at].0);
                        }
                    }
                }
            } else if j == at {
                assert(r[i] == rest[i]);
                if text::text_lt(k, rest[i].0) {
                    text::lemma_text_lt_transitive(k, rest[i].0, k);
                }
            } else {
                let a = if i < at {
                    i
                } else {
                    i - 1
                };
                let b = if j < at {
                    j
                } else {
                    j - 1
                };
                assert(r[i] == rest[a] && r[j] == rest[b]);
            }
        }
        assert(m =~= seq![m[0]] + m.drop_first());
        vstd::seq_lib::lemma_multiset_commutative(seq![m[0]], m.drop_first());
        assert(rest.insert(at, m[0]).to_multiset() == rest.to_multiset().insert(m[0]));
        assert(seq![m[0]] =~= Seq::<(Seq<char>, V)>::empty().push(m[0]));
        assert(seq![m[0]].to_multiset() =~= vstd::multiset::Multiset::empty().insert(m[0]));
        assert(m.to_multiset() =~= m.drop_first().to_multiset().insert(m[0]));
    } else {
        assert(m =~= by_key(m));
    }
}

/// The pairs ordered by key.
pub fn sort_by_key<V>(list: Vec<(String, V)>) -> (r: Vec<(String, V)>)
    ensures
        named(r@) == by_key(named(list@)),
{
    let mut m = list;
    let ghost all = named(m@);
    let mut r: Vec<(String, V)> = Vec::new();
    assert(named(r@) =~= by_key(all.skip(all.len() as int)));
    while m.len() > 0
        invariant
            m@.len() <= all.len(),
            named(m@) == all.take(m@.len() as int),
            named(r@) == by_key(all.skip(m@.len() as int)),
        decreases m@.len(),
    {
        let ghost n = m@.len();
        let ghost rest = named(r@);
        let ghost last = m@.last();
        assert(named(m@)[n - 1] == (last.0@, last.1));
        assert(all[n - 1] == named(m@)[n - 1]);
        let p = m.pop().unwrap();
        let mut i: usize = 0;
        while i < r.len() && less(r[i].0.as_str(), p.0.as_str())
            invariant
                i <= r@.len(),
                rest == named(r@),
                key_slot(rest, p.0@, 0) == key_slot(rest, p.0@, i as int),
            decreases r@.len() - i,
        {
            assert(rest[i as int].0 == r@[i as int].0@);
            i = i + 1;
        }
        proof {
            if i < r@.len() {
                assert(rest[i as int].0 == r@[i as int].0@);
            }
            assert(key_slot(rest, p.0@, 0) == i);
        }
        r.insert(i, p);
        assert(named(r@) =~= rest.insert(i as int, all[n - 1]));
        assert(all.skip(n - 1).drop_first() =~= all.skip(n as int));
        assert(all.skip(n - 1)[0] == all[n - 1]);
        assert(named(m@) =~= all.take(n - 1));
    }
    assert(all.skip(0) =~= all);
    r
}

/// The table with each value passed through `f`.
pub open spec fn mapped<V, W>(m: Seq<(Seq<char>, V)>, f: spec_fn(V) -> W) -> Seq<
    (Seq<char>, W),
> {
    m.map_values(|p: (Seq<char>, V)| (p.0, f(p.1)))
}

proof fn lemma_place_mapped<V, W>(
    m: Seq<(Seq<char>, V)>,
    key: Seq<char>,
    f: spec_fn(V) -> W,
    from: int,
)
    requires
        0 <= from <= m.len(),
    ensures
        place(mapped(m, f), key, from) == place(m, key, from),
    decreases m.len() - from,
{
    if from < m.len() {
        assert(mapped(m, f)[from].0 == m[from].0);
        lemma_place_mapped(m, key, f, from + 1);
    }
}

/// It is the same to put a value and to pass all through `f`, or the other way
/// round.
pub proof fn lemma_put_mapped<V, W>(
    m: Seq<(Seq<char>, V)>,
    key: Seq<char>,
    value: V,
    f: spec_fn(V) -> W,
)
    ensures
        mapped(put(m, key, value), f) == put(mapped(m, f), key, f(value)),
{
    lemma_place(m, key, 0);
    lemma_place_mapped(m, key, f, 0);
    assert(mapped(put(m, key, value), f) =~= put(mapped(m, f), key, f(value)));
}

} // verus!
