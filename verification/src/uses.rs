//! Overlays that use other overlays: which of them are taken in, and in what
//! order.

use vstd::prelude::*;

verus! {

/// What taking an overlay in depends on.
pub struct Node {
    pub name: Seq<char>,
    /// The overlays that it uses, by name.
    pub uses: Seq<Seq<char>>,
    /// Whether its target is known.
    pub placed: bool,
    /// Whether its own entries can be told.
    pub readable: bool,
}

/// Why the overlays could not all be taken in.
pub enum Failure {
    /// The target of an overlay is not known.
    Unplaced(int),
    /// An overlay is used by one that it uses itself; the way there and back.
    Cycle(Seq<int>),
    /// An overlay that is used does not exist.
    Missing(Seq<char>),
    /// The entries of an overlay cannot be told.
    Unreadable(int),
}

/// The first overlay of that name at or after `from`.
pub open spec fn find(nodes: Seq<Node>, name: Seq<char>, from: int) -> Option<int>
    decreases nodes.len() - from,
{
    if from >= nodes.len() {
        None
    } else if nodes[from].name == name {
        Some(from)
    } else {
        find(nodes, name, from + 1)
    }
}

/// Whether one of the listed overlays has that name.
pub open spec fn lists(nodes: Seq<Node>, list: Seq<int>, name: Seq<char>) -> bool {
    exists|k: int| 0 <= k < list.len() && nodes[#[trigger] list[k]].name == name
}

/// Whether `list` holds overlays, no name twice.
pub open spec fn proper(nodes: Seq<Node>, list: Seq<int>) -> bool {
    &&& forall|k: int| 0 <= k < list.len() ==> 0 <= #[trigger] list[k] < nodes.len()
    &&& forall|j: int, k: int|
        0 <= j < k < list.len() ==> nodes[#[trigger] list[j]].name != nodes[
        #[trigger] list[k]].name
}

/// What an overlay uses, unless that is switched off.
pub open spec fn used(node: Node, no_uses: bool) -> Seq<Seq<char>> {
    if no_uses {
        Seq::empty()
    } else {
        node.uses
    }
}

/// Takes the overlay `i` in behind `order`, after everything that it uses. `stack`
/// are the overlays that are waiting for what they use.
pub open spec fn visit(
    nodes: Seq<Node>,
    i: int,
    no_uses: bool,
    order: Seq<int>,
    stack: Seq<int>,
) -> Result<Seq<int>, Failure>
    decreases nodes.len() - stack.len(), 0nat,
    when 0 <= i < nodes.len() && proper(nodes, stack) via visit_decreases
{
    if lists(nodes, order, nodes[i].name) {
        Ok(order)
    } else if lists(nodes, stack, nodes[i].name) {
        Err(Failure::Cycle(stack.push(i)))
    } else if !nodes[i].placed {
        Err(Failure::Unplaced(i))
    } else {
        match visit_all(
            nodes,
            used(nodes[i], no_uses),
            used(nodes[i], no_uses).len(),
            no_uses,
            order,
            stack.push(i),
        ) {
            Err(f) => Err(f),
            Ok(o) => if nodes[i].readable {
                Ok(o.push(i))
            } else {
                Err(Failure::Unreadable(i))
            },
        }
    }
}

/// Takes the first `n` of the overlays `names` in behind `order`.
pub open spec fn visit_all(
    nodes: Seq<Node>,
    names: Seq<Seq<char>>,
    n: nat,
    no_uses: bool,
    order: Seq<int>,
    stack: Seq<int>,
) -> Result<Seq<int>, Failure>
    decreases nodes.len() - stack.len(), n + 1,
    when proper(nodes, stack) via visit_all_decreases
{
    if n == 0 {
        Ok(order)
    } else {
        match visit_all(nodes, names, (n - 1) as nat, no_uses, order, stack) {
            Err(f) => Err(f),
            Ok(o) => match find(nodes, names[n - 1], 0) {
                None => Err(Failure::Missing(names[n - 1])),
                Some(j) => visit(nodes, j, no_uses, o, stack),
            },
        }
    }
}

#[via_fn]
proof fn visit_decreases(
    nodes: Seq<Node>,
    i: int,
    no_uses: bool,
    order: Seq<int>,
    stack: Seq<int>,
) {
    if !lists(nodes, stack, nodes[i].name) {
        lemma_push_proper(nodes, stack, i);
        lemma_proper_len(nodes, stack.push(i));
    }
}

#[via_fn]
proof fn visit_all_decreases(
    nodes: Seq<Node>,
    names: Seq<Seq<char>>,
    n: nat,
    no_uses: bool,
    order: Seq<int>,
    stack: Seq<int>,
) {
    lemma_proper_len(nodes, stack);
    if n > 0 {
        lemma_find(nodes, names[n - 1], 0);
    }
}

pub proof fn lemma_find(nodes: Seq<Node>, name: Seq<char>, from: int)
    requires
        0 <= from,
    ensures
        find(nodes, name, from) matches Some(i) ==> from <= i < nodes.len() && nodes[i].name
            == name,
        find(nodes, name, from) is None ==> forall|i: int|
            from <= i < nodes.len() ==> (#[trigger] nodes[i]).name != name,
    decreases nodes.len() - from,
{
    if from < nodes.len() {
        lemma_find(nodes, name, from + 1);
    }
}

pub proof fn lemma_push_proper(nodes: Seq<Node>, list: Seq<int>, i: int)
    requires
        proper(nodes, list),
        0 <= i < nodes.len(),
        !lists(nodes, list, nodes[i].name),
    ensures
        proper(nodes, list.push(i)),
{
    let l = list.push(i);
    assert forall|j: int, k: int| 0 <= j < k < l.len() implies nodes[#[trigger] l[j]].name
        != nodes[#[trigger] l[k]].name by {
        assert(l[j] == list[j]);
        if k < list.len() {
            assert(l[k] == list[k]);
        }
    }
}

pub proof fn lemma_proper_len(nodes: Seq<Node>, list: Seq<int>)
    requires
        proper(nodes, list),
    ensures
        list.len() <= nodes.len(),
{
    assert(list.no_duplicates()) by {
        assert forall|j: int, k: int|
            0 <= j < list.len() && 0 <= k < list.len() && j != k implies list[j] != list[k] by {
            if j < k {
                assert(nodes[list[j]].name != nodes[list[k]].name);
            } else {
                assert(nodes[list[k]].name != nodes[list[j]].name);
            }
        }
    }
    list.unique_seq_to_set();
    vstd::set_lib::lemma_int_range(0, nodes.len() as int);
    let all = vstd::set_lib::set_int_range(0, nodes.len() as int);
    assert(list.to_set().subset_of(all)) by {
        assert forall|x: int| list.to_set().contains(x) implies all.contains(x) by {
            let k = choose|k: int| 0 <= k < list.len() && list[k] == x;
            assert(0 <= list[k] < nodes.len());
        }
    }
    vstd::set_lib::lemma_len_subset(list.to_set(), all);
}

/// Whether everything that an overlay of `order` uses comes before it.
pub open spec fn closed_under_use(nodes: Seq<Node>, order: Seq<int>, no_uses: bool) -> bool {
    forall|k: int, m: int|
        0 <= k < order.len() && 0 <= m < used(nodes[order[k]], no_uses).len() ==> lists(
            nodes,
            order.take(k),
            #[trigger] used(nodes[#[trigger] order[k]], no_uses)[m],
        )
}

/// Whether `after` is `before` with more overlays behind it, none of which is on
/// the stack.
spec fn grown(
    nodes: Seq<Node>,
    no_uses: bool,
    before: Seq<int>,
    after: Seq<int>,
    stack: Seq<int>,
) -> bool {
    &&& proper(nodes, after)
    &&& closed_under_use(nodes, after, no_uses)
    &&& before.len() <= after.len()
    &&& before == after.take(before.len() as int)
    &&& forall|k: int|
        before.len() <= k < after.len() ==> !lists(
            nodes,
            stack,
            nodes[#[trigger] after[k]].name,
        )
}

proof fn lemma_lists_prefix(nodes: Seq<Node>, before: Seq<int>, after: Seq<int>, name: Seq<char>)
    requires
        before.len() <= after.len(),
        before == after.take(before.len() as int),
        lists(nodes, before, name),
    ensures
        lists(nodes, after, name),
{
    let k = choose|k: int| 0 <= k < before.len() && nodes[#[trigger] before[k]].name == name;
    assert(after[k] == before[k]);
}

proof fn lemma_grown_twice(
    nodes: Seq<Node>,
    no_uses: bool,
    a: Seq<int>,
    b: Seq<int>,
    c: Seq<int>,
    stack: Seq<int>,
)
    requires
        grown(nodes, no_uses, a, b, stack),
        grown(nodes, no_uses, b, c, stack),
    ensures
        grown(nodes, no_uses, a, c, stack),
{
    assert(a =~= c.take(a.len() as int));
    assert forall|k: int| a.len() <= k < c.len() implies !lists(
        nodes,
        stack,
        nodes[#[trigger] c[k]].name,
    ) by {
        if k < b.len() {
            assert(c[k] == b[k]);
        }
    }
}

proof fn lemma_visit(
    nodes: Seq<Node>,
    i: int,
    no_uses: bool,
    order: Seq<int>,
    stack: Seq<int>,
)
    requires
        0 <= i < nodes.len(),
        proper(nodes, stack),
        proper(nodes, order),
        closed_under_use(nodes, order, no_uses),
    ensures
        visit(nodes, i, no_uses, order, stack) matches Ok(o) ==> grown(
            nodes,
            no_uses,
            order,
            o,
            stack,
        ) && lists(nodes, o, nodes[i].name),
    decreases nodes.len() - stack.len(), 0nat,
{
    let name = nodes[i].name;
    if lists(nodes, order, name) {
        assert(order =~= order.take(order.len() as int));
    } else if !lists(nodes, stack, name) && nodes[i].placed {
        let names = used(nodes[i], no_uses);
        let deeper = stack.push(i);
        lemma_push_proper(nodes, stack, i);
        lemma_proper_len(nodes, deeper);
        lemma_visit_all(nodes, names, names.len(), no_uses, order, deeper);
        if let Ok(o) = visit_all(nodes, names, names.len(), no_uses, order, deeper) {
            assert(lists(nodes, deeper, name)) by {
                assert(deeper[stack.len() as int] == i);
            }
            assert(!lists(nodes, o, name)) by {
                if lists(nodes, o, name) {
                    let k = choose|k: int| 0 <= k < o.len() && nodes[#[trigger] o[k]].name == name;
                    if k < order.len() {
                        assert(o[k] == order[k]);
                    }
                }
            }
            lemma_push_proper(nodes, o, i);
            let p = o.push(i);
            assert forall|k: int, m: int|
                0 <= k < p.len() && 0 <= m < used(nodes[p[k]], no_uses).len() implies lists(
                nodes,
                p.take(k),
                #[trigger] used(nodes[#[trigger] p[k]], no_uses)[m],
            ) by {
                if k < o.len() {
                    assert(p[k] == o[k]);
                    assert(p.take(k) =~= o.take(k));
                } else {
                    assert(p.take(k) =~= o);
                }
            }
            assert(order =~= p.take(order.len() as int));
            assert forall|k: int| order.len() <= k < p.len() implies !lists(
                nodes,
                stack,
                nodes[#[trigger] p[k]].name,
            ) by {
                if k < o.len() {
                    assert(p[k] == o[k]);
                    if lists(nodes, stack, nodes[p[k]].name) {
                        assert(stack =~= deeper.take(stack.len() as int));
                        lemma_lists_prefix(nodes, stack, deeper, nodes[p[k]].name);
                    }
                }
            }
            assert(p[o.len() as int] == i);
        }
    }
}

proof fn lemma_visit_all(
    nodes: Seq<Node>,
    names: Seq<Seq<char>>,
    n: nat,
    no_uses: bool,
    order: Seq<int>,
    stack: Seq<int>,
)
    requires
        n <= names.len(),
        proper(nodes, stack),
        proper(nodes, order),
        closed_under_use(nodes, order, no_uses),
    ensures
        visit_all(nodes, names, n, no_uses, order, stack) matches Ok(o) ==> grown(
            nodes,
            no_uses,
            order,
            o,
            stack,
        ) && forall|m: int| 0 <= m < n ==> lists(nodes, o, #[trigger] names[m]),
    decreases nodes.len() - stack.len(), n + 1,
{
    lemma_proper_len(nodes, stack);
    if n == 0 {
        assert(order =~= order.take(order.len() as int));
    } else {
        lemma_visit_all(nodes, names, (n - 1) as nat, no_uses, order, stack);
        if let Ok(a) = visit_all(nodes, names, (n - 1) as nat, no_uses, order, stack) {
            lemma_find(nodes, names[n - 1], 0);
            if let Some(j) = find(nodes, names[n - 1], 0) {
                lemma_visit(nodes, j, no_uses, a, stack);
                if let Ok(b) = visit(nodes, j, no_uses, a, stack) {
                    lemma_grown_twice(nodes, no_uses, order, a, b, stack);
                    assert forall|m: int| 0 <= m < n implies lists(
                        nodes,
                        b,
                        #[trigger] names[m],
                    ) by {
                        if m < n - 1 {
                            lemma_lists_prefix(nodes, a, b, names[m]);
                        }
                    }
                }
            }
        }
    }
}

/// The overlays that are taken in for the overlay `i`, in their order.
pub open spec fn taken(nodes: Seq<Node>, i: int, no_uses: bool) -> Result<Seq<int>, Failure> {
    visit(nodes, i, no_uses, Seq::empty(), Seq::empty())
}

/// Where overlays are taken in at all, each of them is taken in once, everything
/// that it uses comes before it, and the overlay that was asked for comes last.
pub proof fn each_overlay_follows_what_it_uses(nodes: Seq<Node>, i: int, no_uses: bool)
    requires
        0 <= i < nodes.len(),
    ensures
        taken(nodes, i, no_uses) matches Ok(order) ==> {
            &&& proper(nodes, order)
            &&& closed_under_use(nodes, order, no_uses)
            &&& order.len() > 0
            &&& order.last() == i
        },
{
    lemma_visit(nodes, i, no_uses, Seq::empty(), Seq::empty());
    let names = used(nodes[i], no_uses);
    if let Ok(order) = taken(nodes, i, no_uses) {
        assert(!lists(nodes, Seq::<int>::empty(), nodes[i].name));
    }
}

/// Without what overlays use, the overlay stands alone.
pub proof fn alone_without_uses(nodes: Seq<Node>, i: int)
    requires
        0 <= i < nodes.len(),
        nodes[i].placed,
        nodes[i].readable,
    ensures
        taken(nodes, i, true) == Ok::<Seq<int>, Failure>(seq![i]),
{
    assert(!lists(nodes, Seq::<int>::empty(), nodes[i].name));
    lemma_push_proper(nodes, Seq::empty(), i);
    assert(Seq::<int>::empty().push(i) =~= seq![i]);
    assert(visit_all(
        nodes,
        Seq::empty(),
        0,
        true,
        Seq::empty(),
        Seq::<int>::empty().push(i),
    ) == Ok::<Seq<int>, Failure>(Seq::empty()));
}

/// Whether each overlay of `chain` uses the next.
pub open spec fn is_chain(nodes: Seq<Node>, chain: Seq<int>) -> bool {
    &&& forall|k: int| 0 <= k < chain.len() ==> 0 <= #[trigger] chain[k] < nodes.len()
    &&& forall|k: int|
        0 <= k < chain.len() - 1 ==> nodes[#[trigger] chain[k]].uses.contains(
            nodes[chain[k + 1]].name,
        )
}

proof fn lemma_chain_descends(
    nodes: Seq<Node>,
    order: Seq<int>,
    chain: Seq<int>,
    at: int,
) -> (end: int)
    requires
        proper(nodes, order),
        closed_under_use(nodes, order, false),
        is_chain(nodes, chain),
        chain.len() > 0,
        0 <= at < order.len(),
        nodes[order[at]].name == nodes[chain[0]].name,
        forall|a: int, b: int|
            0 <= a < nodes.len() && 0 <= b < nodes.len() && (#[trigger] nodes[a]).name == (
            #[trigger] nodes[b]).name ==> a == b,
    ensures
        0 <= end <= at,
        chain.len() > 1 ==> end < at,
        nodes[order[end]].name == nodes[chain.last()].name,
    decreases chain.len(),
{
    if chain.len() == 1 {
        at
    } else {
        assert(order[at] == chain[0]);
        let names = nodes[order[at]].uses;
        let name = nodes[chain[1]].name;
        let m = choose|m: int| 0 <= m < names.len() && names[m] == name;
        assert(used(nodes[order[at]], false)[m] == name);
        assert(lists(nodes, order.take(at), name));
        let k = choose|k: int|
            0 <= k < order.take(at).len() && nodes[#[trigger] order.take(at)[k]].name == name;
        let rest = chain.drop_first();
        assert(is_chain(nodes, rest)) by {
            assert forall|k: int| 0 <= k < rest.len() implies 0 <= #[trigger] rest[k]
                < nodes.len() by {
                assert(rest[k] == chain[k + 1]);
            }
            assert forall|k: int| 0 <= k < rest.len() - 1 implies nodes[
            #[trigger] rest[k]].uses.contains(nodes[rest[k + 1]].name) by {
                assert(rest[k] == chain[k + 1]);
            }
        }
        lemma_chain_descends(nodes, order, rest, k)
    }
}

proof fn lemma_part_of_chain(nodes: Seq<Node>, chain: Seq<int>, a: int, b: int)
    requires
        is_chain(nodes, chain),
        0 <= a <= b < chain.len(),
    ensures
        is_chain(nodes, chain.subrange(a, b + 1)),
{
    let part = chain.subrange(a, b + 1);
    assert forall|k: int| 0 <= k < part.len() implies 0 <= #[trigger] part[k] < nodes.len() by {
        assert(part[k] == chain[a + k]);
    }
    assert forall|k: int| 0 <= k < part.len() - 1 implies nodes[#[trigger] part[k]].uses.contains(
        nodes[part[k + 1]].name,
    ) by {
        assert(part[k] == chain[a + k]);
    }
}

/// Overlays that use one another in a circle are refused: where a chain of uses
/// from an overlay meets some overlay twice, none of them is taken in. Names are
/// taken to be unique.
pub proof fn circles_are_refused(nodes: Seq<Node>, chain: Seq<int>, a: int, b: int)
    requires
        forall|a: int, b: int|
            0 <= a < nodes.len() && 0 <= b < nodes.len() && (#[trigger] nodes[a]).name == (
            #[trigger] nodes[b]).name ==> a == b,
        is_chain(nodes, chain),
        0 <= a < b < chain.len(),
        chain[a] == chain[b],
    ensures
        taken(nodes, chain[0], false) is Err,
{
    let i = chain[0];
    each_overlay_follows_what_it_uses(nodes, i, false);
    if let Ok(order) = taken(nodes, i, false) {
        lemma_part_of_chain(nodes, chain, 0, a);
        lemma_part_of_chain(nodes, chain, a, b);
        let way = chain.subrange(0, a + 1);
        let circle = chain.subrange(a, b + 1);
        let start = lemma_chain_descends(nodes, order, way, order.len() - 1);
        let end = lemma_chain_descends(nodes, order, circle, start);
        assert(nodes[order[end]].name == nodes[order[start]].name);
    }
}

/// Collects the overlay `i` and everything that it uses behind `seen`, each of
/// them once and before what it uses, until a name is met that no overlay has.
/// `depth` bounds how far down the uses are followed.
pub open spec fn gather(nodes: Seq<Node>, i: int, seen: Seq<int>, depth: nat) -> (
    Seq<int>,
    Option<Seq<char>>,
)
    decreases depth, 0nat,
{
    if lists(nodes, seen, nodes[i].name) || depth == 0 {
        (seen, None)
    } else {
        gather_all(nodes, nodes[i].uses, nodes[i].uses.len(), seen.push(i), (depth - 1) as nat)
    }
}

/// Collects the first `n` of the overlays `names` and everything that they use.
pub open spec fn gather_all(
    nodes: Seq<Node>,
    names: Seq<Seq<char>>,
    n: nat,
    seen: Seq<int>,
    depth: nat,
) -> (Seq<int>, Option<Seq<char>>)
    decreases depth, n + 1,
{
    if n == 0 {
        (seen, None)
    } else {
        let before = gather_all(nodes, names, (n - 1) as nat, seen, depth);
        if before.1 is Some {
            before
        } else {
            match find(nodes, names[n - 1], 0) {
                None => (before.0, Some(names[n - 1])),
                Some(j) => gather(nodes, j, before.0, depth),
            }
        }
    }
}

/// The overlay `i` and everything that it uses, and the first name on the way that
/// no overlay has.
pub open spec fn gathered(nodes: Seq<Node>, i: int) -> (Seq<int>, Option<Seq<char>>) {
    gather(nodes, i, Seq::empty(), nodes.len())
}

/// Whether a chain of uses leads from `i` to `j`.
pub open spec fn reaches(nodes: Seq<Node>, i: int, j: int) -> bool {
    exists|chain: Seq<int>| #[trigger]
        is_chain(nodes, chain) && chain.len() > 0 && chain[0] == i && chain.last() == j
}

/// Whether `after` is `before` with more overlays behind it.
pub open spec fn gathers(nodes: Seq<Node>, before: Seq<int>, after: Seq<int>) -> bool {
    &&& proper(nodes, after)
    &&& before.len() <= after.len()
    &&& before == after.take(before.len() as int)
}

/// Whether everything that the overlays of `after` behind the first `from` use is
/// in `after`.
pub open spec fn complete(nodes: Seq<Node>, after: Seq<int>, from: int) -> bool {
    forall|k: int, m: int|
        from <= k < after.len() && 0 <= m < nodes[after[k]].uses.len() ==> lists(
            nodes,
            after,
            #[trigger] nodes[#[trigger] after[k]].uses[m],
        )
}

proof fn lemma_step_reaches(nodes: Seq<Node>, i: int, j: int, k: int)
    requires
        0 <= i < nodes.len(),
        0 <= j < nodes.len(),
        nodes[i].uses.contains(nodes[j].name),
        reaches(nodes, j, k),
    ensures
        reaches(nodes, i, k),
{
    let chain = choose|chain: Seq<int>| #[trigger]
        is_chain(nodes, chain) && chain.len() > 0 && chain[0] == j && chain.last() == k;
    let longer = seq![i] + chain;
    assert forall|m: int| 0 <= m < longer.len() implies 0 <= #[trigger] longer[m]
        < nodes.len() by {
        if m > 0 {
            assert(longer[m] == chain[m - 1]);
        }
    }
    assert forall|m: int| 0 <= m < longer.len() - 1 implies nodes[
    #[trigger] longer[m]].uses.contains(nodes[longer[m + 1]].name) by {
        if m > 0 {
            assert(longer[m] == chain[m - 1]);
        }
    }
    assert(is_chain(nodes, longer));
    assert(longer.last() == k);
}

proof fn lemma_gather(nodes: Seq<Node>, i: int, seen: Seq<int>, depth: nat)
    requires
        0 <= i < nodes.len(),
        proper(nodes, seen),
        depth >= nodes.len() - seen.len(),
    ensures
        ({
            let r = gather(nodes, i, seen, depth);
            &&& gathers(nodes, seen, r.0)
            &&& forall|k: int|
                seen.len() <= k < r.0.len() ==> reaches(nodes, i, #[trigger] r.0[k])
            &&& r.1 is None ==> lists(nodes, r.0, nodes[i].name) && complete(
                nodes,
                r.0,
                seen.len() as int,
            )
            &&& r.1 matches Some(name) ==> find(nodes, name, 0) is None
        }),
    decreases depth, 0nat,
{
    let name = nodes[i].name;
    if lists(nodes, seen, name) {
        assert(seen =~= seen.take(seen.len() as int));
    } else {
        lemma_push_proper(nodes, seen, i);
        lemma_proper_len(nodes, seen.push(i));
        let names = nodes[i].uses;
        lemma_gather_all(nodes, i, names.len(), seen.push(i), (depth - 1) as nat);
        let r = gather(nodes, i, seen, depth);
        assert(seen =~= r.0.take(seen.len() as int)) by {
            assert(seen.push(i) == r.0.take(seen.len() as int + 1));
            assert forall|k: int| 0 <= k < seen.len() implies seen[k] == r.0[k] by {
                assert(seen.push(i)[k] == r.0.take(seen.len() as int + 1)[k]);
            }
        }
        assert(r.0[seen.len() as int] == i) by {
            assert(seen.push(i)[seen.len() as int] == r.0.take(seen.len() as int + 1)[seen.len() as int]);
        }
        assert(reaches(nodes, i, i)) by {
            let chain = seq![i];
            assert(is_chain(nodes, chain));
            assert(chain.last() == i);
        }
        assert forall|k: int| seen.len() <= k < r.0.len() implies reaches(
            nodes,
            i,
            #[trigger] r.0[k],
        ) by {}
        if r.1 is None {
            assert forall|k: int, m: int|
                seen.len() <= k < r.0.len() && 0 <= m < nodes[r.0[k]].uses.len() implies lists(
                nodes,
                r.0,
                #[trigger] nodes[#[trigger] r.0[k]].uses[m],
            ) by {
                if k == seen.len() {
                    assert(nodes[r.0[k]].uses[m] == names[m]);
                }
            }
        }
    }
}

proof fn lemma_gather_all(nodes: Seq<Node>, i: int, n: nat, seen: Seq<int>, depth: nat)
    requires
        0 <= i < nodes.len(),
        n <= nodes[i].uses.len(),
        proper(nodes, seen),
        depth >= nodes.len() - seen.len(),
    ensures
        ({
            let names = nodes[i].uses;
            let r = gather_all(nodes, names, n, seen, depth);
            &&& gathers(nodes, seen, r.0)
            &&& forall|k: int|
                seen.len() <= k < r.0.len() ==> reaches(nodes, i, #[trigger] r.0[k])
            &&& r.1 is None ==> complete(nodes, r.0, seen.len() as int) && forall|m: int|
                0 <= m < n ==> lists(nodes, r.0, #[trigger] names[m])
            &&& r.1 matches Some(name) ==> find(nodes, name, 0) is None
        }),
    decreases depth, n + 1,
{
    let names = nodes[i].uses;
    if n == 0 {
        assert(seen =~= seen.take(seen.len() as int));
    } else {
        lemma_gather_all(nodes, i, (n - 1) as nat, seen, depth);
        let a = gather_all(nodes, names, (n - 1) as nat, seen, depth);
        if a.1 is None {
            lemma_find(nodes, names[n - 1], 0);
            if let Some(j) = find(nodes, names[n - 1], 0) {
                lemma_gather(nodes, j, a.0, depth);
                let b = gather(nodes, j, a.0, depth);
                assert(seen =~= b.0.take(seen.len() as int)) by {
                    assert forall|k: int| 0 <= k < seen.len() implies seen[k] == b.0[k] by {
                        assert(a.0[k] == b.0.take(a.0.len() as int)[k]);
                        assert(seen[k] == a.0.take(seen.len() as int)[k]);
                    }
                }
                assert forall|k: int| seen.len() <= k < b.0.len() implies reaches(
                    nodes,
                    i,
                    #[trigger] b.0[k],
                ) by {
                    if k < a.0.len() {
                        assert(b.0[k] == b.0.take(a.0.len() as int)[k]);
                        assert(b.0[k] == a.0[k]);
                    } else {
                        assert(names[n - 1] == nodes[j].name);
                        lemma_step_reaches(nodes, i, j, b.0[k]);
                    }
                }
                if b.1 is None {
                    assert forall|m: int| 0 <= m < n implies lists(
                        nodes,
                        b.0,
                        #[trigger] names[m],
                    ) by {
                        if m < n - 1 {
                            lemma_lists_prefix(nodes, a.0, b.0, names[m]);
                        }
                    }
                    assert forall|k: int, m: int|
                        seen.len() <= k < b.0.len() && 0 <= m < nodes[b.0[k]].uses.len() implies lists(
                        nodes,
                        b.0,
                        #[trigger] nodes[#[trigger] b.0[k]].uses[m],
                    ) by {
                        if k < a.0.len() {
                            assert(b.0[k] == b.0.take(a.0.len() as int)[k]);
                            assert(b.0[k] == a.0[k]);
                            assert(lists(nodes, a.0, nodes[a.0[k]].uses[m]));
                            lemma_lists_prefix(nodes, a.0, b.0, nodes[b.0[k]].uses[m]);
                        }
                    }
                }
            }
        }
    }
}

/// What is collected for an overlay is the overlay and what can be reached from it
/// by uses, each overlay once, and with every overlay everything that it uses;
/// unless a name is met that no overlay has.
pub proof fn gathering_follows_every_use(nodes: Seq<Node>, i: int)
    requires
        0 <= i < nodes.len(),
    ensures
        proper(nodes, gathered(nodes, i).0),
        forall|k: int|
            0 <= k < gathered(nodes, i).0.len() ==> reaches(
                nodes,
                i,
                #[trigger] gathered(nodes, i).0[k],
            ),
        gathered(nodes, i).1 is None ==> lists(nodes, gathered(nodes, i).0, nodes[i].name)
            && complete(nodes, gathered(nodes, i).0, 0),
        gathered(nodes, i).1 matches Some(name) ==> find(nodes, name, 0) is None,
{
    lemma_gather(nodes, i, Seq::empty(), nodes.len());
}

/// What is taken together is reached by following uses, and every overlay of it can be
/// placed and read.
pub proof fn only_what_is_used_is_taken(nodes: Seq<Node>, i: int, no_uses: bool, k: int)
    requires
        0 <= i < nodes.len(),
        taken(nodes, i, no_uses) is Ok,
        0 <= k < taken(nodes, i, no_uses)->Ok_0.len(),
    ensures
        ({
            let j = taken(nodes, i, no_uses)->Ok_0[k];
            0 <= j < nodes.len() && reaches(nodes, i, j) && nodes[j].placed && nodes[j].readable
        }),
{
    assert(is_chain(nodes, seq![i]));
    assert(Seq::<int>::empty().push(i) =~= seq![i]);
    lemma_taken(nodes, i, no_uses, Seq::empty(), Seq::empty());
}

/// Nothing is refused without reason: an overlay that cannot be placed or read, a name
/// that no overlay has, or a circle of uses.
pub proof fn refusals_have_a_reason(nodes: Seq<Node>, i: int, no_uses: bool)
    requires
        0 <= i < nodes.len(),
        taken(nodes, i, no_uses) is Err,
    ensures
        match taken(nodes, i, no_uses)->Err_0 {
            Failure::Unplaced(j) => 0 <= j < nodes.len() && !nodes[j].placed,
            Failure::Unreadable(j) => 0 <= j < nodes.len() && !nodes[j].readable,
            Failure::Missing(name) => forall|j: int|
                0 <= j < nodes.len() ==> (#[trigger] nodes[j]).name != name,
            Failure::Cycle(chain) => {
                &&& is_chain(nodes, chain)
                &&& chain.len() > 1
                &&& exists|k: int|
                    0 <= k < chain.len() - 1 && nodes[#[trigger] chain[k]].name
                        == nodes[chain.last()].name
            },
        },
{
    assert(is_chain(nodes, seq![i]));
    assert(Seq::<int>::empty().push(i) =~= seq![i]);
    lemma_taken(nodes, i, no_uses, Seq::empty(), Seq::empty());
}

spec fn is_reason(nodes: Seq<Node>, f: Failure) -> bool {
    match f {
        Failure::Unplaced(j) => 0 <= j < nodes.len() && !nodes[j].placed,
        Failure::Unreadable(j) => 0 <= j < nodes.len() && !nodes[j].readable,
        Failure::Missing(name) => forall|j: int|
            0 <= j < nodes.len() ==> (#[trigger] nodes[j]).name != name,
        Failure::Cycle(chain) => {
            &&& is_chain(nodes, chain)
            &&& chain.len() > 1
            &&& exists|k: int|
                0 <= k < chain.len() - 1 && nodes[#[trigger] chain[k]].name
                    == nodes[chain.last()].name
        },
    }
}

spec fn is_sound(nodes: Seq<Node>, i: int, from: int, order: Seq<int>) -> bool {
    forall|k: int|
        from <= k < order.len() ==> {
            let j = #[trigger] order[k];
            0 <= j < nodes.len() && reaches(nodes, i, j) && nodes[j].placed && nodes[j].readable
        }
}

proof fn lemma_taken(nodes: Seq<Node>, i: int, no_uses: bool, order: Seq<int>, stack: Seq<int>)
    requires
        0 <= i < nodes.len(),
        proper(nodes, stack),
        proper(nodes, order),
        closed_under_use(nodes, order, no_uses),
        is_chain(nodes, stack.push(i)),
    ensures
        match visit(nodes, i, no_uses, order, stack) {
            Ok(o) => is_sound(nodes, i, order.len() as int, o),
            Err(f) => is_reason(nodes, f),
        },
    decreases nodes.len() - stack.len(), 0nat,
{
    let name = nodes[i].name;
    if lists(nodes, order, name) {
    } else if lists(nodes, stack, name) {
        let chain = stack.push(i);
        let k = choose|k: int| 0 <= k < stack.len() && nodes[#[trigger] stack[k]].name == name;
        assert(chain[k] == stack[k]);
        assert(chain.last() == i);
    } else if nodes[i].placed {
        lemma_push_proper(nodes, stack, i);
        lemma_proper_len(nodes, stack.push(i));
        let names = used(nodes[i], no_uses);
        lemma_all_taken(nodes, i, names.len(), no_uses, order, stack.push(i));
        lemma_visit_all(nodes, names, names.len(), no_uses, order, stack.push(i));
        assert(is_chain(nodes, seq![i]));
        assert(reaches(nodes, i, i));
    }
}

proof fn lemma_all_taken(
    nodes: Seq<Node>,
    i: int,
    n: nat,
    no_uses: bool,
    order: Seq<int>,
    stack: Seq<int>,
)
    requires
        0 <= i < nodes.len(),
        n <= used(nodes[i], no_uses).len(),
        stack.len() > 0,
        stack.last() == i,
        proper(nodes, stack),
        proper(nodes, order),
        closed_under_use(nodes, order, no_uses),
        is_chain(nodes, stack),
    ensures
        match visit_all(nodes, used(nodes[i], no_uses), n, no_uses, order, stack) {
            Ok(o) => is_sound(nodes, i, order.len() as int, o),
            Err(f) => is_reason(nodes, f),
        },
    decreases nodes.len() - stack.len(), n + 1,
{
    let names = used(nodes[i], no_uses);
    lemma_proper_len(nodes, stack);
    if n > 0 {
        lemma_all_taken(nodes, i, (n - 1) as nat, no_uses, order, stack);
        lemma_visit_all(nodes, names, (n - 1) as nat, no_uses, order, stack);
        if let Ok(o) = visit_all(nodes, names, (n - 1) as nat, no_uses, order, stack) {
            lemma_find(nodes, names[n - 1], 0);
            if let Some(j) = find(nodes, names[n - 1], 0) {
                assert(nodes[i].uses.contains(nodes[j].name)) by {
                    assert(nodes[i].uses[n - 1] == nodes[j].name);
                }
                let longer = stack.push(j);
                assert forall|k: int| 0 <= k < longer.len() - 1 implies nodes[#[trigger] longer[k]].uses.contains(
                    nodes[longer[k + 1]].name,
                ) by {
                    assert(longer[k] == stack[k]);
                    if k < stack.len() - 1 {
                        assert(longer[k + 1] == stack[k + 1]);
                    }
                }
                assert(is_chain(nodes, longer));
                lemma_taken(nodes, j, no_uses, o, stack);
                lemma_visit(nodes, j, no_uses, o, stack);
                if let Ok(p) = visit(nodes, j, no_uses, o, stack) {
                    assert forall|k: int| order.len() <= k < p.len() implies ({
                        let m = #[trigger] p[k];
                        0 <= m < nodes.len() && reaches(nodes, i, m) && nodes[m].placed
                            && nodes[m].readable
                    }) by {
                        if k < o.len() {
                            assert(p.take(o.len() as int)[k] == o[k]);
                        } else {
                            lemma_step_reaches(nodes, i, j, p[k]);
                        }
                    }
                }
            }
        }
    }
}

} // verus!
