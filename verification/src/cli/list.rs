//! The command that lists overlays.

use crate::path;
use crate::path::file_name;
use crate::table;
use crate::text;
use crate::text::{less, same, split_at_char};
use vstd::prelude::*;

verus! {

/// The arguments of the command.
#[derive(Debug, Clone, Copy, PartialEq, Eq, Structural)]
pub struct Params {
    /// Whether the overlays are shown as a tree.
    pub tree: bool,
}

/// The label of the root of the tree: the name of the home directory, or else its
/// whole path.
pub fn root_label(home: &str) -> (r: String)
    ensures
        r@ == match path::file_name_of(home@) {
            Some(n) => n,
            None => home@,
        },
{
    match file_name(home) {
        Some(n) => n,
        None => home.to_owned(),
    }
}

#[verifier::external_type_specification]
#[verifier::external_body]
#[verifier::reject_recursive_types(D)]
pub struct ExTree<D: core::fmt::Display>(termtree::Tree<D>);

/// A tree with a label at each node.
pub struct Shown {
    pub label: Seq<char>,
    pub leaves: Seq<Shown>,
}

/// The labels of a `termtree::Tree`.
pub uninterp spec fn shown(tree: termtree::Tree<String>) -> Shown;

/// `termtree::Tree::new`: a tree of one node.
#[verifier::external_body]
fn tree_new(label: String) -> (r: termtree::Tree<String>)
    ensures
        shown(r) == (Shown { label: label@, leaves: Seq::empty() }),
{
    termtree::Tree::new(label)
}

/// `termtree::Tree::push`: puts a tree behind the others below the root.
#[verifier::external_body]
fn tree_push(tree: &mut termtree::Tree<String>, leaf: termtree::Tree<String>)
    ensures
        shown(*final(tree)) == (Shown {
            label: shown(*old(tree)).label,
            leaves: shown(*old(tree)).leaves.push(shown(leaf)),
        }),
{
    tree.push(leaf);
}

/// A node of the tree of names: the nodes below it by the next part of the name,
/// in order.
#[derive(Debug)]
pub struct TreeNode {
    pub children: Vec<(String, TreeNode)>,
}

/// [`TreeNode`] over text.
pub struct Branch {
    pub children: Seq<(Seq<char>, Branch)>,
}

/// A node over text.
pub open spec fn branch(n: TreeNode) -> Branch
    decreases n, 0nat,
{
    Branch { children: branches(n.children@, n.children@.len()) }
}

/// The first `k` nodes over text.
pub open spec fn branches(v: Seq<(String, TreeNode)>, k: nat) -> Seq<(Seq<char>, Branch)>
    decreases v, k,
{
    if k == 0 || k > v.len() {
        Seq::empty()
    } else {
        branches(v, (k - 1) as nat).push((v[k - 1].0@, branch(v[k - 1].1)))
    }
}

proof fn lemma_branches(v: Seq<(String, TreeNode)>, k: nat)
    requires
        k <= v.len(),
    ensures
        branches(v, k).len() == k,
        forall|i: int|
            0 <= i < k ==> #[trigger] branches(v, k)[i] == (v[i].0@, branch(v[i].1)),
    decreases k,
{
    if k > 0 {
        lemma_branches(v, (k - 1) as nat);
    }
}

/// A node with nothing below it.
pub open spec fn bare_branch() -> Branch {
    Branch { children: Seq::empty() }
}

/// The tree with one more name, given by its parts: the nodes on the way are
/// created where they are missing.
pub open spec fn inserted(b: Branch, parts: Seq<Seq<char>>) -> Branch
    decreases parts.len(),
{
    if parts.len() == 0 {
        b
    } else {
        let i = table::key_slot(b.children, parts[0], 0);
        if i < b.children.len() && b.children[i].0 == parts[0] {
            Branch {
                children: b.children.update(
                    i,
                    (parts[0], inserted(b.children[i].1, parts.drop_first())),
                ),
            }
        } else {
            Branch {
                children: b.children.insert(
                    i,
                    (parts[0], inserted(bare_branch(), parts.drop_first())),
                ),
            }
        }
    }
}

/// The tree of the first `n` names, which are parted at each `/`.
pub open spec fn tree_of(names: Seq<Seq<char>>, n: nat) -> Branch
    decreases n,
{
    if n == 0 {
        bare_branch()
    } else {
        inserted(tree_of(names, (n - 1) as nat), text::split(names[n - 1], '/'))
    }
}

/// Whether the tree has a node at the end of this way.
pub open spec fn has_way(b: Branch, parts: Seq<Seq<char>>) -> bool
    decreases parts.len(),
{
    parts.len() == 0 || exists|i: int|
        0 <= i < b.children.len() && (#[trigger] b.children[i]).0 == parts[0] && has_way(
            b.children[i].1,
            parts.drop_first(),
        )
}

/// Whether the nodes below each node stand in strict order.
pub open spec fn ordered(b: Branch) -> bool
    decreases b,
{
    &&& forall|i: int, j: int|
        0 <= i < j < b.children.len() ==> text::text_lt(
            (#[trigger] b.children[i]).0,
            (#[trigger] b.children[j]).0,
        )
    &&& forall|i: int| 0 <= i < b.children.len() ==> ordered((#[trigger] b.children[i]).1)
}

impl TreeNode {
    /// A node with nothing below it.
    pub fn new() -> (r: Self)
        ensures
            branch(r) == bare_branch(),
    {
        let r = TreeNode { children: Vec::new() };
        assert(branch(r).children =~= Seq::<(Seq<char>, Branch)>::empty());
        r
    }

    /// The tree with one more name, given by its parts from `from` on.
    fn insert(self, parts: &Vec<String>, from: usize) -> (r: Self)
        requires
            from <= parts@.len(),
        ensures
            branch(r) == inserted(branch(self), text::texts(parts@).skip(from as int)),
        decreases parts@.len() - from,
    {
        let ghost rest = text::texts(parts@).skip(from as int);
        if from == parts.len() {
            return self;
        }
        let ghost b = branch(self);
        let mut children = self.children;
        let ghost kids = children@;
        proof {
            lemma_branches(kids, kids.len());
            assert(rest[0] == parts@[from as int]@);
            assert(rest.drop_first() =~= text::texts(parts@).skip(from + 1));
            table::lemma_key_slot(b.children, rest[0], 0);
        }
        let part = parts[from].as_str();
        let mut i: usize = 0;
        while i < children.len() && less(children[i].0.as_str(), part)
            invariant
                i <= children@.len(),
                children@ == kids,
                b.children == branches(kids, kids.len()),
                b.children.len() == kids.len(),
                forall|k: int|
                    0 <= k < kids.len() ==> #[trigger] b.children[k] == (
                        kids[k].0@,
                        branch(kids[k].1),
                    ),
                rest.len() > 0,
                part@ == rest[0],
                table::key_slot(b.children, rest[0], 0) == table::key_slot(b.children, rest[0], i as int),
            decreases children@.len() - i,
        {
            assert(b.children[i as int].0 == kids[i as int].0@);
            i = i + 1;
        }
        proof {
            if i < kids.len() {
                assert(b.children[i as int].0 == kids[i as int].0@);
            }
            assert(table::key_slot(b.children, rest[0], 0) == i);
        }
        let below = if i < children.len() && same(children[i].0.as_str(), part) {
            let (_, child) = children.remove(i);
            child.insert(parts, from + 1)
        } else {
            TreeNode::new().insert(parts, from + 1)
        };
        let ghost middle = children@;
        children.insert(i, (part.to_owned(), below));
        let r = TreeNode { children };
        proof {
            lemma_branches(children@, children@.len());
            let want = inserted(b, rest);
            assert(branch(r).children.len() == want.children.len());
            assert forall|k: int| 0 <= k < want.children.len() implies branch(r).children[k]
                == want.children[k] by {
                assert(branch(r).children[k] == (children@[k].0@, branch(children@[k].1)));
                if k < i {
                    assert(children@[k] == kids[k]);
                    assert(b.children[k] == (kids[k].0@, branch(kids[k].1)));
                } else if k > i {
                    if middle.len() == kids.len() {
                        assert(children@[k] == kids[k - 1]);
                        assert(b.children[k - 1] == (kids[k - 1].0@, branch(kids[k - 1].1)));
                    } else {
                        assert(children@[k] == kids[k]);
                        assert(b.children[k] == (kids[k].0@, branch(kids[k].1)));
                    }
                }
            }
            assert(branch(r).children =~= want.children);
        }
        r
    }

    /// The tree as it is shown, with this label at its root.
    fn into_tree(self, label: String) -> (r: termtree::Tree<String>)
        ensures
            shown(r) == labelled(label@, branch(self)),
        decreases self,
    {
        let ghost b = branch(self);
        let ghost kids = self.children@;
        proof {
            lemma_branches(kids, kids.len());
        }
        let ghost want = labelled_list(b.children, b.children.len());
        let mut tree = tree_new(label);
        let mut rest = self.children;
        let ghost mut done: nat = 0;
        assert(shown(tree).leaves =~= labelled_list(b.children, 0));
        while rest.len() > 0
            invariant
                done <= kids.len(),
                rest@ == kids.skip(done as int),
                kids == self.children@,
                b.children.len() == kids.len(),
                forall|k: int|
                    0 <= k < kids.len() ==> #[trigger] b.children[k] == (
                        kids[k].0@,
                        branch(kids[k].1),
                    ),
                shown(tree) == (Shown {
                    label: label@,
                    leaves: labelled_list(b.children, done),
                }),
            decreases rest@.len(),
        {
            let (name, child) = rest.remove(0);
            assert(kids.skip(done as int)[0] == kids[done as int]);
            assert(b.children[done as int] == (name@, branch(child)));
            assert(decreases_to!(self => self.children@[done as int].1));
            let leaf = child.into_tree(name);
            tree_push(&mut tree, leaf);
            assert(rest@ =~= kids.skip(done as int + 1));
            proof {
                done = done + 1;
            }
        }
        tree
    }
}

/// The tree with its labels.
pub open spec fn labelled(label: Seq<char>, b: Branch) -> Shown
    decreases b, 0nat,
{
    Shown { label, leaves: labelled_list(b.children, b.children.len()) }
}

/// The first `k` nodes with their labels.
pub open spec fn labelled_list(v: Seq<(Seq<char>, Branch)>, k: nat) -> Seq<Shown>
    decreases v, k,
{
    if k == 0 || k > v.len() {
        Seq::empty()
    } else {
        labelled_list(v, (k - 1) as nat).push(labelled(v[k - 1].0, v[k - 1].1))
    }
}

/// The tree of names that are parted at each `/`.
pub fn build_tree(root_label: &str, names: &Vec<String>) -> (r: termtree::Tree<String>)
    ensures
        shown(r) == labelled(root_label@, tree_of(text::texts(names@), names@.len())),
{
    let mut root = TreeNode::new();
    let ghost all = text::texts(names@);
    let mut i: usize = 0;
    while i < names.len()
        invariant
            i <= names@.len(),
            all == text::texts(names@),
            branch(root) == tree_of(all, i as nat),
        decreases names@.len() - i,
    {
        let parts = split_at_char(names[i].as_str(), '/');
        assert(all[i as int] == names@[i as int]@);
        assert(text::texts(parts@).skip(0) =~= text::texts(parts@));
        root = root.insert(&parts, 0);
        i = i + 1;
    }
    root.into_tree(root_label.to_owned())
}

proof fn lemma_inserted_ways(b: Branch, parts: Seq<Seq<char>>, way: Seq<Seq<char>>)
    ensures
        has_way(inserted(b, parts), way) == (has_way(b, way) || way.is_prefix_of(parts)),
    decreases parts.len(),
{
    if parts.len() > 0 && way.len() > 0 {
        let new = inserted(b, parts);
        let i = table::key_slot(b.children, parts[0], 0);
        table::lemma_key_slot(b.children, parts[0], 0);
        let found = i < b.children.len() && b.children[i].0 == parts[0];
        let old_below = if found {
            b.children[i].1
        } else {
            bare_branch()
        };
        lemma_inserted_ways(old_below, parts.drop_first(), way.drop_first());
        assert(way.is_prefix_of(parts) == (way[0] == parts[0] && way.drop_first().is_prefix_of(
            parts.drop_first(),
        ))) by {
            if way[0] == parts[0] && way.drop_first().is_prefix_of(parts.drop_first()) {
                assert(way =~= seq![way[0]] + way.drop_first());
                assert forall|k: int| 0 <= k < way.len() implies way[k] == parts[k] by {
                    if k > 0 {
                        assert(way.drop_first()[k - 1] == parts.drop_first()[k - 1]);
                    }
                }
                assert(way =~= parts.subrange(0, way.len() as int));
            }
            if way.is_prefix_of(parts) {
                assert(way[0] == parts.subrange(0, way.len() as int)[0]);
                assert(way.drop_first() =~= parts.drop_first().subrange(
                    0,
                    way.drop_first().len() as int,
                ));
            }
        }
        if has_way(b, way) {
            let j = choose|j: int|
                0 <= j < b.children.len() && (#[trigger] b.children[j]).0 == way[0] && has_way(
                    b.children[j].1,
                    way.drop_first(),
                );
            let k = if found || j < i {
                j
            } else {
                j + 1
            };
            assert(new.children[k].0 == way[0]);
            assert(has_way(new.children[k].1, way.drop_first()));
        }
        if way.is_prefix_of(parts) {
            assert(new.children[i].0 == way[0]);
            assert(has_way(new.children[i].1, way.drop_first()));
        }
        if has_way(new, way) {
            let k = choose|k: int|
                0 <= k < new.children.len() && (#[trigger] new.children[k]).0 == way[0] && has_way(
                    new.children[k].1,
                    way.drop_first(),
                );
            if k == i {
                if found {
                    assert(has_way(b, way) || way.is_prefix_of(parts)) by {
                        if has_way(b.children[i].1, way.drop_first()) {
                            assert(b.children[i].0 == way[0]);
                        }
                    }
                }
            } else {
                let j = if found || k < i {
                    k
                } else {
                    k - 1
                };
                assert(b.children[j] == new.children[k]);
            }
        }
    } else if way.len() == 0 {
        assert(way =~= parts.subrange(0, 0));
    } else {
        assert(!way.is_prefix_of(parts));
    }
}

/// The nodes of the tree are the openings of the names, and no others: every name
/// ends at a node, and every node lies on the way to a name.
pub proof fn nodes_are_openings_of_names(names: Seq<Seq<char>>, n: nat, way: Seq<Seq<char>>)
    requires
        n <= names.len(),
        way.len() > 0,
    ensures
        has_way(tree_of(names, n), way) == exists|k: int|
            0 <= k < n && way.is_prefix_of(text::split(#[trigger] names[k], '/')),
    decreases n,
{
    if n > 0 {
        nodes_are_openings_of_names(names, (n - 1) as nat, way);
        lemma_inserted_ways(tree_of(names, (n - 1) as nat), text::split(names[n - 1], '/'), way);
    }
}

proof fn lemma_inserted_ordered(b: Branch, parts: Seq<Seq<char>>)
    requires
        ordered(b),
    ensures
        ordered(inserted(b, parts)),
    decreases parts.len(),
{
    if parts.len() > 0 {
        let new = inserted(b, parts);
        let p = parts[0];
        let i = table::key_slot(b.children, p, 0);
        table::lemma_key_slot(b.children, p, 0);
        let found = i < b.children.len() && b.children[i].0 == p;
        assert(ordered(bare_branch()));
        lemma_inserted_ordered(
            if found {
                b.children[i].1
            } else {
                bare_branch()
            },
            parts.drop_first(),
        );
        if i < b.children.len() {
            text::lemma_text_lt_total(b.children[i].0, p);
        }
        assert forall|x: int, y: int| 0 <= x < y < new.children.len() implies text::text_lt(
            (#[trigger] new.children[x]).0,
            (#[trigger] new.children[y]).0,
        ) by {
            if found {
                assert(new.children[x].0 == b.children[x].0);
                assert(new.children[y].0 == b.children[y].0);
            } else if x == i {
                if y > i + 1 {
                    assert(text::text_lt(b.children[i].0, b.children[y - 1].0));
                    text::lemma_text_lt_transitive(p, b.children[i].0, b.children[y - 1].0);
                }
            } else if y == i {
                assert(text::text_lt(b.children[x].0, p));
            } else {
                let a = if x < i {
                    x
                } else {
                    x - 1
                };
                let c = if y < i {
                    y
                } else {
                    y - 1
                };
                assert(text::text_lt(b.children[a].0, b.children[c].0));
            }
        }
        assert forall|x: int| 0 <= x < new.children.len() implies ordered(
            (#[trigger] new.children[x]).1,
        ) by {
            if x != i {
                let a = if found || x < i {
                    x
                } else {
                    x - 1
                };
                assert(new.children[x] == b.children[a]);
            }
        }
    }
}

/// The nodes below each node of the tree stand in strict order.
pub proof fn siblings_are_in_order(names: Seq<Seq<char>>, n: nat)
    requires
        n <= names.len(),
    ensures
        ordered(tree_of(names, n)),
    decreases n,
{
    if n > 0 {
        siblings_are_in_order(names, (n - 1) as nat);
        lemma_inserted_ordered(tree_of(names, (n - 1) as nat), text::split(names[n - 1], '/'));
    }
}

/// A tree is shown with all its branches, in order, each under its own name.
pub proof fn every_branch_is_shown(label: Seq<char>, b: Branch)
    ensures
        labelled(label, b).label == label,
        labelled(label, b).leaves.len() == b.children.len(),
        forall|i: int|
            0 <= i < b.children.len() ==> #[trigger] labelled(label, b).leaves[i] == labelled(
                b.children[i].0,
                b.children[i].1,
            ),
{
    lemma_labelled(b.children, b.children.len());
}

proof fn lemma_labelled(v: Seq<(Seq<char>, Branch)>, k: nat)
    requires
        k <= v.len(),
    ensures
        labelled_list(v, k).len() == k,
        forall|i: int|
            0 <= i < k ==> #[trigger] labelled_list(v, k)[i] == labelled(v[i].0, v[i].1),
    decreases k,
{
    if k > 0 {
        lemma_labelled(v, (k - 1) as nat);
    }
}

} // verus!
