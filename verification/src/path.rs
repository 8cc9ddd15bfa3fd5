//! Paths as text, read the way Unix reads them: components between slashes.

use crate::text;
use crate::text::{concat2, concat3, cut, find_char_in, less, same, to_chars};
use vstd::prelude::*;

verus! {

/// Whether `s` starts at the root.
pub open spec fn is_absolute(s: Seq<char>) -> bool {
    s.len() > 0 && s[0] == '/'
}

/// Whether the text between `from` and `end` is no component of its own: it is
/// empty, or a `.` that does not open the path.
pub open spec fn is_void(s: Seq<char>, from: int, end: int) -> bool {
    end == from || (end == from + 1 && from > 0 && s[from] == '.')
}

/// Where the components of `s` from position `from` on begin and end.
pub open spec fn spans_from(s: Seq<char>, from: int) -> Seq<(int, int)>
    decreases s.len() - from + 1,
    when 0 <= from <= s.len() via spans_from_decreases
{
    let end = text::find_char(s, '/', from);
    let here = if is_void(s, from, end) {
        Seq::empty()
    } else {
        seq![(from, end)]
    };
    if end >= s.len() {
        here
    } else {
        here + spans_from(s, end + 1)
    }
}

#[via_fn]
proof fn spans_from_decreases(s: Seq<char>, from: int) {
    text::lemma_find_char(s, '/', from);
}

/// Where the components of `s` begin and end; the root is the component `/`.
pub open spec fn spans(s: Seq<char>) -> Seq<(int, int)> {
    if is_absolute(s) {
        seq![(0int, 1int)] + spans_from(s, 1)
    } else {
        spans_from(s, 0)
    }
}

/// The components of `s`.
pub open spec fn components(s: Seq<char>) -> Seq<Seq<char>> {
    spans(s).map_values(|p: (int, int)| s.subrange(p.0, p.1))
}

/// Whether the components of `base` open those of `s`.
pub open spec fn path_starts_with(s: Seq<char>, base: Seq<char>) -> bool {
    components(base).is_prefix_of(components(s))
}

/// The text of `s` behind its first `n` components.
pub open spec fn after_components(s: Seq<char>, n: int) -> Seq<char> {
    if n >= spans(s).len() {
        Seq::empty()
    } else {
        s.subrange(spans(s)[n].0, spans(s).last().1)
    }
}

/// `s` relative to `base`, where `s` starts with `base`.
pub open spec fn relative_to(s: Seq<char>, base: Seq<char>) -> Option<Seq<char>> {
    if path_starts_with(s, base) {
        Some(after_components(s, components(base).len() as int))
    } else {
        None
    }
}

/// `path` read from the directory `base`.
pub open spec fn joined(base: Seq<char>, path: Seq<char>) -> Seq<char> {
    if is_absolute(path) {
        path
    } else if base.len() == 0 || base.last() == '/' {
        base + path
    } else {
        base.push('/') + path
    }
}

/// The directory that `s` lies in; the root and the empty path have none.
pub open spec fn parent_of(s: Seq<char>) -> Option<Seq<char>> {
    let c = spans(s);
    if c.len() == 0 || (c.len() == 1 && is_absolute(s)) {
        None
    } else if c.len() == 1 {
        Some(Seq::empty())
    } else {
        Some(s.subrange(0, c[c.len() - 2].1))
    }
}

/// Whether a component is an ordinary name: not the root, `.` or `..`.
pub open spec fn is_name(c: Seq<char>) -> bool {
    c != seq!['/'] && c != seq!['.'] && c != seq!['.', '.']
}

/// The last component of `s`, where it is an ordinary name.
pub open spec fn file_name_of(s: Seq<char>) -> Option<Seq<char>> {
    let c = components(s);
    if c.len() > 0 && is_name(c.last()) {
        Some(c.last())
    } else {
        None
    }
}

/// The kinds of components in their order: root, `.`, `..`, names.
pub open spec fn component_rank(c: Seq<char>) -> int {
    if c == seq!['/'] {
        0
    } else if c == seq!['.'] {
        1
    } else if c == seq!['.', '.'] {
        2
    } else {
        3
    }
}

/// Whether the component `a` stands before `b`.
pub open spec fn component_lt(a: Seq<char>, b: Seq<char>) -> bool {
    component_rank(a) < component_rank(b) || (component_rank(a) == 3 && component_rank(b) == 3
        && text::text_lt(a, b))
}

/// Whether one list of components stands before another.
pub open spec fn components_lt(a: Seq<Seq<char>>, b: Seq<Seq<char>>) -> bool
    decreases a.len(),
{
    if b.len() == 0 {
        false
    } else if a.len() == 0 {
        true
    } else if a[0] == b[0] {
        components_lt(a.drop_first(), b.drop_first())
    } else {
        component_lt(a[0], b[0])
    }
}

/// Whether the path `a` stands before `b`, component by component.
pub open spec fn path_lt(a: Seq<char>, b: Seq<char>) -> bool {
    components_lt(components(a), components(b))
}

pub proof fn lemma_spans_from(s: Seq<char>, from: int)
    requires
        0 <= from <= s.len(),
    ensures
        forall|i: int|
            0 <= i < spans_from(s, from).len() ==> from <= (#[trigger] spans_from(s, from)[i]).0
                < spans_from(s, from)[i].1 <= s.len(),
        forall|i: int, j: int|
            0 <= i < j < spans_from(s, from).len() ==> (#[trigger] spans_from(s, from)[i]).1 < (
            #[trigger] spans_from(s, from)[j]).0,
    decreases s.len() - from,
{
    text::lemma_find_char(s, '/', from);
    let end = text::find_char(s, '/', from);
    if end < s.len() {
        lemma_spans_from(s, end + 1);
        let rest = spans_from(s, end + 1);
        let all = spans_from(s, from);
        assert forall|i: int, j: int| 0 <= i < j < all.len() implies (#[trigger] all[i]).1 < (
        #[trigger] all[j]).0 by {
            if !is_void(s, from, end) {
                assert(all[j] == rest[j - 1]);
                if i > 0 {
                    assert(all[i] == rest[i - 1]);
                }
            }
        }
    }
}

pub proof fn lemma_spans(s: Seq<char>)
    ensures
        forall|i: int|
            0 <= i < spans(s).len() ==> 0 <= (#[trigger] spans(s)[i]).0 < spans(s)[i].1 <= s.len(),
        forall|i: int, j: int|
            0 <= i < j < spans(s).len() ==> (#[trigger] spans(s)[i]).1 <= (
            #[trigger] spans(s)[j]).0,
        !is_absolute(s) && spans(s).len() > 0 ==> spans(s)[0].0 == 0,
{
    if is_absolute(s) {
        lemma_spans_from(s, 1);
        let rest = spans_from(s, 1);
        let all = spans(s);
        assert forall|i: int, j: int| 0 <= i < j < all.len() implies (#[trigger] all[i]).1 <= (
        #[trigger] all[j]).0 by {
            assert(all[j] == rest[j - 1]);
            if i > 0 {
                assert(all[i] == rest[i - 1]);
            }
        }
    } else {
        lemma_spans_from(s, 0);
        text::lemma_find_char(s, '/', 0);
        if s.len() > 0 {
            assert(text::find_char(s, '/', 0) > 0);
        }
    }
}

/// The spans as pairs of integers.
pub open spec fn span_ints(v: Seq<(usize, usize)>) -> Seq<(int, int)> {
    v.map_values(|p: (usize, usize)| (p.0 as int, p.1 as int))
}

fn find_spans(s: &str) -> (r: Vec<(usize, usize)>)
    ensures
        span_ints(r@) == spans(s@),
{
    let v = to_chars(s);
    let n: usize = v.len();
    let mut r: Vec<(usize, usize)> = Vec::new();
    let mut at: usize = 0;
    if n > 0 && v[0] == '/' {
        r.push((0, 1));
        at = 1;
    }
    assert(span_ints(r@) + spans_from(s@, at as int) =~= spans(s@));
    let mut done = false;
    while !done
        invariant
            v@ == s@,
            n == v@.len(),
            !done ==> at <= n && span_ints(r@) + spans_from(s@, at as int) == spans(s@),
            done ==> span_ints(r@) == spans(s@),
        decreases if done { 0 } else { n - at + 1 },
    {
        let ghost before = r@;
        let end: usize = find_char_in(&v, '/', at);
        proof {
            text::lemma_find_char(s@, '/', at as int);
        }
        let void = end == at || (end == at + 1 && at > 0 && v[at] == '.');
        if !void {
            r.push((at, end));
            assert(span_ints(r@) =~= span_ints(before).push((at as int, end as int)));
        }
        if end >= n {
            done = true;
            assert(span_ints(r@) =~= span_ints(before) + spans_from(s@, at as int));
        } else {
            assert(span_ints(r@) + spans_from(s@, end + 1) =~= span_ints(before) + spans_from(
                s@,
                at as int,
            ));
            at = end + 1;
        }
    }
    r
}

/// The components of `s`.
pub fn component_texts(s: &str) -> (r: Vec<String>)
    ensures
        text::texts(r@) == components(s@),
{
    let v = find_spans(s);
    proof {
        lemma_spans(s@);
    }
    let mut r: Vec<String> = Vec::new();
    let mut i: usize = 0;
    while i < v.len()
        invariant
            i <= v@.len(),
            span_ints(v@) == spans(s@),
            text::texts(r@) == components(s@).take(i as int),
            forall|k: int|
                0 <= k < spans(s@).len() ==> 0 <= (#[trigger] spans(s@)[k]).0 < spans(s@)[k].1
                    <= s@.len(),
        decreases v@.len() - i,
    {
        let ghost before = r@;
        assert(spans(s@)[i as int] == (v@[i as int].0 as int, v@[i as int].1 as int));
        r.push(cut(s, v[i].0, v[i].1));
        assert(text::texts(r@) =~= text::texts(before).push(components(s@)[i as int]));
        assert(text::texts(r@) =~= components(s@).take(i + 1));
        i = i + 1;
    }
    assert(components(s@).take(v@.len() as int) =~= components(s@));
    r
}

/// Whether `s` starts at the root.
pub fn absolute(s: &str) -> (r: bool)
    ensures
        r == is_absolute(s@),
{
    s.unicode_len() > 0 && s.get_char(0) == '/'
}

fn opens(a: &Vec<String>, b: &Vec<String>) -> (r: bool)
    ensures
        r == text::texts(a@).is_prefix_of(text::texts(b@)),
{
    if a.len() > b.len() {
        return false;
    }
    let mut i: usize = 0;
    while i < a.len()
        invariant
            i <= a@.len() <= b@.len(),
            forall|k: int| 0 <= k < i ==> a@[k]@ == b@[k]@,
        decreases a@.len() - i,
    {
        if a[i] != b[i] {
            assert(text::texts(a@)[i as int] != text::texts(b@)[i as int]);
            assert(text::texts(b@).subrange(0, a@.len() as int)[i as int] == text::texts(b@)[i as int]);
            return false;
        }
        i = i + 1;
    }
    assert(text::texts(a@) =~= text::texts(b@).subrange(0, a@.len() as int));
    true
}

/// Whether the components of `base` open those of `s`.
pub fn starts_with_path(s: &str, base: &str) -> (r: bool)
    ensures
        r == path_starts_with(s@, base@),
{
    let a = component_texts(base);
    let b = component_texts(s);
    opens(&a, &b)
}

/// Whether two paths have the same components.
pub fn same_path(a: &str, b: &str) -> (r: bool)
    ensures
        r == (components(a@) == components(b@)),
{
    let x = component_texts(a);
    let y = component_texts(b);
    let r = x.len() == y.len() && opens(&x, &y);
    proof {
        if r {
            assert(text::texts(y@).subrange(0, text::texts(x@).len() as int) =~= text::texts(y@));
        } else if text::texts(x@) == text::texts(y@) {
            assert(text::texts(y@).subrange(0, text::texts(x@).len() as int) =~= text::texts(y@));
        }
    }
    r
}

/// How many components `s` has.
pub fn component_count(s: &str) -> (r: usize)
    ensures
        r == components(s@).len(),
{
    let c = component_texts(s);
    assert(text::texts(c@).len() == c@.len());
    c.len()
}

/// `s` relative to `base`, where `s` starts with `base`.
pub fn strip_base(s: &str, base: &str) -> (r: Option<String>)
    ensures
        text::opt_text(r) == relative_to(s@, base@),
{
    if !starts_with_path(s, base) {
        return None;
    }
    let n: usize = component_count(base);
    let v = find_spans(s);
    proof {
        lemma_spans(s@);
    }
    assert(span_ints(v@).len() == v@.len());
    if n >= v.len() {
        Some(String::new())
    } else {
        let last: usize = v.len() - 1;
        assert(spans(s@)[n as int] == span_ints(v@)[n as int]);
        assert(spans(s@)[last as int] == span_ints(v@)[last as int]);
        Some(cut(s, v[n].0, v[last].1))
    }
}

/// `path` read from the directory `base`.
pub fn join_path(base: &str, path: &str) -> (r: String)
    ensures
        r@ == joined(base@, path@),
{
    let n: usize = base.unicode_len();
    if absolute(path) {
        path.to_owned()
    } else if n == 0 || base.get_char(n - 1) == '/' {
        concat2(base, path)
    } else {
        proof {
            reveal_strlit("/");
        }
        let r = concat3(base, "/", path);
        assert(r@ =~= joined(base@, path@));
        r
    }
}

/// The directory that `s` lies in.
pub fn parent(s: &str) -> (r: Option<String>)
    ensures
        text::opt_text(r) == parent_of(s@),
{
    let v = find_spans(s);
    proof {
        lemma_spans(s@);
    }
    assert(span_ints(v@).len() == v@.len());
    if v.len() == 0 || (v.len() == 1 && absolute(s)) {
        None
    } else if v.len() == 1 {
        Some(String::new())
    } else {
        let k: usize = v.len() - 2;
        assert(spans(s@)[k as int] == span_ints(v@)[k as int]);
        Some(cut(s, 0, v[k].1))
    }
}

fn ordinary(c: &str) -> (r: bool)
    ensures
        r == is_name(c@),
{
    proof {
        reveal_strlit("/");
        reveal_strlit(".");
        reveal_strlit("..");
    }
    assert("/"@ =~= seq!['/']);
    assert("."@ =~= seq!['.']);
    assert(".."@ =~= seq!['.', '.']);
    !same(c, "/") && !same(c, ".") && !same(c, "..")
}

/// The last component of `s`, where it is an ordinary name.
pub fn file_name(s: &str) -> (r: Option<String>)
    ensures
        text::opt_text(r) == file_name_of(s@),
{
    let c = component_texts(s);
    assert(text::texts(c@).len() == c@.len());
    if c.len() == 0 {
        return None;
    }
    let last: usize = c.len() - 1;
    assert(text::texts(c@)[last as int] == c@[last as int]@);
    if ordinary(c[last].as_str()) {
        Some(c[last].clone())
    } else {
        None
    }
}

fn rank(c: &str) -> (r: u8)
    ensures
        r == component_rank(c@),
{
    proof {
        reveal_strlit("/");
        reveal_strlit(".");
        reveal_strlit("..");
    }
    assert("/"@ =~= seq!['/']);
    assert("."@ =~= seq!['.']);
    assert(".."@ =~= seq!['.', '.']);
    if same(c, "/") {
        0
    } else if same(c, ".") {
        1
    } else if same(c, "..") {
        2
    } else {
        3
    }
}

/// Whether the path `a` stands before `b`.
pub fn less_path(a: &str, b: &str) -> (r: bool)
    ensures
        r == path_lt(a@, b@),
{
    let x = component_texts(a);
    let y = component_texts(b);
    let ghost cx = text::texts(x@);
    let ghost cy = text::texts(y@);
    let mut i: usize = 0;
    assert(cx.skip(0) =~= cx && cy.skip(0) =~= cy);
    while i < x.len() && i < y.len() && x[i] == y[i]
        invariant
            cx == text::texts(x@),
            cy == text::texts(y@),
            i <= x@.len(),
            i <= y@.len(),
            components_lt(cx, cy) == components_lt(cx.skip(i as int), cy.skip(i as int)),
        decreases x@.len() - i,
    {
        assert(cx.skip(i as int).drop_first() =~= cx.skip(i + 1));
        assert(cy.skip(i as int).drop_first() =~= cy.skip(i + 1));
        i = i + 1;
    }
    if i >= y.len() {
        false
    } else if i >= x.len() {
        true
    } else {
        assert(cx.skip(i as int)[0] == x@[i as int]@);
        assert(cy.skip(i as int)[0] == y@[i as int]@);
        let p: u8 = rank(x[i].as_str());
        let q: u8 = rank(y[i].as_str());
        p < q || (p == 3 && q == 3 && less(x[i].as_str(), y[i].as_str()))
    }
}

proof fn lemma_components_lt_irreflexive(a: Seq<Seq<char>>)
    ensures
        !components_lt(a, a),
    decreases a.len(),
{
    if a.len() > 0 {
        lemma_components_lt_irreflexive(a.drop_first());
    }
}

proof fn lemma_component_lt(a: Seq<char>, b: Seq<char>, c: Seq<char>)
    ensures
        !component_lt(a, a),
        component_lt(a, b) && component_lt(b, c) ==> component_lt(a, c),
        component_lt(a, b) || a == b || component_lt(b, a),
{
    text::lemma_text_lt_irreflexive(a);
    text::lemma_text_lt_total(a, b);
    if text::text_lt(a, b) && text::text_lt(b, c) {
        text::lemma_text_lt_transitive(a, b, c);
    }
}

proof fn lemma_components_lt_transitive(a: Seq<Seq<char>>, b: Seq<Seq<char>>, c: Seq<Seq<char>>)
    requires
        components_lt(a, b),
        components_lt(b, c),
    ensures
        components_lt(a, c),
    decreases a.len(),
{
    if a.len() > 0 {
        lemma_component_lt(a[0], b[0], c[0]);
        lemma_component_lt(b[0], a[0], c[0]);
        if a[0] == b[0] && b[0] == c[0] {
            lemma_components_lt_transitive(a.drop_first(), b.drop_first(), c.drop_first());
        }
    }
}

proof fn lemma_components_lt_total(a: Seq<Seq<char>>, b: Seq<Seq<char>>)
    ensures
        components_lt(a, b) || a == b || components_lt(b, a),
    decreases a.len(),
{
    if a.len() > 0 && b.len() > 0 {
        lemma_component_lt(a[0], b[0], b[0]);
        if a[0] == b[0] {
            lemma_components_lt_total(a.drop_first(), b.drop_first());
            if a.drop_first() == b.drop_first() {
                assert(a =~= seq![a[0]] + a.drop_first());
                assert(b =~= seq![b[0]] + b.drop_first());
            }
        }
    } else if a.len() == 0 && b.len() == 0 {
        assert(a =~= b);
    }
}

/// The order of paths is strict and total up to equal components.
pub proof fn path_order_is_strict(a: Seq<char>, b: Seq<char>, c: Seq<char>)
    ensures
        !path_lt(a, a),
        path_lt(a, b) && path_lt(b, c) ==> path_lt(a, c),
        path_lt(a, b) || components(a) == components(b) || path_lt(b, a),
{
    lemma_components_lt_irreflexive(components(a));
    lemma_components_lt_total(components(a), components(b));
    if path_lt(a, b) && path_lt(b, c) {
        lemma_components_lt_transitive(components(a), components(b), components(c));
    }
}

/// A parent directory has a shorter path.
pub proof fn lemma_parent_is_shorter(s: Seq<char>)
    ensures
        parent_of(s) is Some ==> parent_of(s)->0.len() < s.len(),
{
    lemma_spans(s);
    let c = spans(s);
    if c.len() > 0 {
        assert(c[c.len() - 1].0 < c[c.len() - 1].1 <= s.len());
        if c.len() > 1 {
            assert(c[c.len() - 2].1 <= c[c.len() - 1].0);
        }
    }
}

// What joining and stripping do to components.

/// The pieces of `s` at these spans.
pub open spec fn pieces(s: Seq<char>, spans: Seq<(int, int)>) -> Seq<Seq<char>> {
    spans.map_values(|p: (int, int)| s.subrange(p.0, p.1))
}

/// Whether `s` opens with the component `.`.
pub open spec fn opens_with_dot(s: Seq<char>) -> bool {
    s.len() > 0 && s[0] == '.' && text::find_char(s, '/', 0) == 1
}

proof fn lemma_pieces_behind(x: Seq<char>, p: Seq<char>, k: int)
    requires
        x.len() > 0,
        0 <= k <= p.len(),
        k == 0 ==> !opens_with_dot(p),
    ensures
        pieces(x + p, spans_from(x + p, x.len() + k)) == pieces(p, spans_from(p, k)),
    decreases p.len() - k,
{
    let s = x + p;
    let n = x.len() as int;
    text::lemma_find_char(p, '/', k);
    let end = text::find_char(p, '/', k);
    text::lemma_find_char_is(s, '/', n + k, n + end);
    assert(is_void(s, n + k, n + end) == is_void(p, k, end));
    assert(s.subrange(n + k, n + end) =~= p.subrange(k, end));
    if end < p.len() {
        lemma_pieces_behind(x, p, end + 1);
        let behind = spans_from(s, n + end + 1);
        let rest = spans_from(p, end + 1);
        assert(pieces(s, seq![(n + k, n + end)] + behind) =~= seq![p.subrange(k, end)] + pieces(
            s,
            behind,
        ));
        assert(pieces(p, seq![(k, end)] + rest) =~= seq![p.subrange(k, end)] + pieces(p, rest));
        assert(Seq::<(int, int)>::empty() + behind =~= behind);
        assert(Seq::<(int, int)>::empty() + rest =~= rest);
    } else {
        assert(pieces(s, spans_from(s, n + k)) =~= pieces(p, spans_from(p, k)));
    }
}

proof fn lemma_spans_before(b: Seq<char>, p: Seq<char>, from: int)
    requires
        b.len() > 0,
        b.last() == '/',
        0 <= from <= b.len(),
    ensures
        spans_from(b + p, from) == spans_from(b, from) + spans_from(b + p, b.len() as int),
    decreases b.len() - from,
{
    let s = b + p;
    text::lemma_find_char(b, '/', from);
    if from < b.len() {
        let end = text::find_char(b, '/', from);
        assert(end < b.len());
        text::lemma_find_char_is(s, '/', from, end);
        assert(is_void(s, from, end) == is_void(b, from, end));
        lemma_spans_before(b, p, end + 1);
        assert(spans_from(s, from) =~= spans_from(b, from) + spans_from(s, b.len() as int));
    } else {
        assert(spans_from(b, from) =~= Seq::<(int, int)>::empty());
    }
}

proof fn lemma_slash_behind(b: Seq<char>, from: int)
    requires
        0 <= from <= b.len(),
    ensures
        spans_from(b.push('/'), from) == spans_from(b, from),
    decreases b.len() - from,
{
    let s = b.push('/');
    text::lemma_find_char(b, '/', from);
    let end = text::find_char(b, '/', from);
    text::lemma_find_char_is(s, '/', from, end);
    assert(is_void(s, from, end) == is_void(b, from, end));
    if end < b.len() {
        lemma_slash_behind(b, end + 1);
    } else {
        text::lemma_find_char_is(s, '/', s.len() as int, s.len() as int);
        assert(spans_from(s, s.len() as int) =~= Seq::<(int, int)>::empty());
        assert(spans_from(s, from) =~= spans_from(b, from));
    }
}

proof fn lemma_joined_to_slash(b: Seq<char>, p: Seq<char>)
    requires
        b.len() > 0,
        b.last() == '/',
        !opens_with_dot(p),
    ensures
        components(b + p) == components(b) + components_of_relative(p),
{
    let s = b + p;
    let from = if is_absolute(b) {
        1int
    } else {
        0int
    };
    lemma_spans_before(b, p, from);
    lemma_pieces_behind(b, p, 0);
    lemma_spans(b);
    lemma_spans(s);
    let inner = spans_from(s, b.len() as int);
    assert(spans(s) =~= spans(b) + inner);
    assert(components(s) =~= pieces(s, spans(b)) + pieces(s, inner));
    assert(pieces(s, spans(b)) =~= components(b)) by {
        assert forall|i: int| 0 <= i < spans(b).len() implies #[trigger] pieces(s, spans(b))[i]
            == components(b)[i] by {
            let q = spans(b)[i];
            assert(s.subrange(q.0, q.1) =~= b.subrange(q.0, q.1));
        }
    }
}

/// The components of `p`, read as a path that does not start at the root.
pub open spec fn components_of_relative(p: Seq<char>) -> Seq<Seq<char>> {
    pieces(p, spans_from(p, 0))
}

/// A path that is read from a directory has the components of the directory and
/// then its own, unless it starts at the root or with a dot.
pub proof fn joining_appends_components(base: Seq<char>, p: Seq<char>)
    requires
        !is_absolute(p),
        !opens_with_dot(p),
    ensures
        components(joined(base, p)) == components(base) + components(p),
{
    assert(components(p) =~= components_of_relative(p));
    if base.len() == 0 {
        assert(joined(base, p) =~= p);
        text::lemma_find_char(base, '/', 0);
        assert(components(base) =~= Seq::<Seq<char>>::empty());
        assert(components(base) + components(p) =~= components(p));
    } else if base.last() == '/' {
        lemma_joined_to_slash(base, p);
    } else {
        let b = base.push('/');
        lemma_joined_to_slash(b, p);
        if is_absolute(base) {
            lemma_slash_behind(base, 1);
        } else {
            lemma_slash_behind(base, 0);
        }
        assert(spans(b) == spans(base));
        lemma_spans(base);
        assert(components(b) =~= components(base)) by {
            assert forall|i: int| 0 <= i < spans(base).len() implies #[trigger] components(b)[i]
                == components(base)[i] by {
                let q = spans(base)[i];
                assert(b.subrange(q.0, q.1) =~= base.subrange(q.0, q.1));
            }
        }
    }
}

proof fn lemma_spans_from_span(s: Seq<char>, from: int, i: int)
    requires
        0 <= from <= s.len(),
        0 <= i < spans_from(s, from).len(),
    ensures
        spans_from(s, spans_from(s, from)[i].0) == spans_from(s, from).skip(i),
        !is_void(s, spans_from(s, from)[i].0, text::find_char(s, '/', spans_from(s, from)[i].0)),
    decreases s.len() - from,
{
    text::lemma_find_char(s, '/', from);
    let end = text::find_char(s, '/', from);
    let all = spans_from(s, from);
    if is_void(s, from, end) {
        lemma_spans_from_span(s, end + 1, i);
        assert(all =~= spans_from(s, end + 1));
    } else if i == 0 {
        assert(all.skip(0) =~= all);
    } else {
        let rest = spans_from(s, end + 1);
        lemma_spans_from_span(s, end + 1, i - 1);
        assert(all[i] == rest[i - 1]);
        assert(all.skip(i) =~= rest.skip(i - 1));
    }
}

proof fn lemma_spans_take(s: Seq<char>, from: int, k: int)
    requires
        0 <= from <= s.len(),
        0 <= k < spans_from(s, from).len(),
    ensures
        from <= spans_from(s, from)[k].1 <= s.len(),
        spans_from(s.take(spans_from(s, from)[k].1), from) == spans_from(s, from).take(k + 1),
    decreases s.len() - from,
{
    let all = spans_from(s, from);
    let z = all[k].1;
    let t = s.take(z);
    lemma_spans_from(s, from);
    text::lemma_find_char(s, '/', from);
    let end = text::find_char(s, '/', from);
    let void = is_void(s, from, end);
    if !void && k == 0 {
        assert(z == end);
        text::lemma_find_char_is(t, '/', from, end);
        assert(spans_from(t, from) =~= all.take(1));
    } else {
        let rest = spans_from(s, end + 1);
        let j = if void {
            k
        } else {
            k - 1
        };
        assert(rest[j] == all[k]);
        lemma_spans_from(s, end + 1);
        assert(end + 1 <= rest[j].0 < z);
        lemma_spans_take(s, end + 1, j);
        text::lemma_find_char_is(t, '/', from, end);
        assert(is_void(t, from, end) == void);
        assert(spans_from(t, from) =~= all.take(k + 1));
    }
}

proof fn lemma_spans_cut(s: Seq<char>, from: int, z: int)
    requires
        0 <= from <= s.len(),
        spans_from(s, from).len() > 0,
        spans_from(s, from).last().1 == z,
    ensures
        spans_from(s.take(z), from) == spans_from(s, from),
{
    let all = spans_from(s, from);
    lemma_spans_take(s, from, all.len() - 1);
    assert(all.take(all.len() as int) =~= all);
}

/// A path relative to a directory has the components behind those of the
/// directory; relative to one that is not empty, it starts neither at the root nor
/// with a dot.
pub proof fn stripping_leaves_components(s: Seq<char>, base: Seq<char>)
    requires
        path_starts_with(s, base),
        components(base).len() > 0,
    ensures
        ({
            let rel = relative_to(s, base)->0;
            &&& components(rel) == components(s).skip(components(base).len() as int)
            &&& !is_absolute(rel)
            &&& !opens_with_dot(rel)
        }),
{
    let n = components(base).len() as int;
    let rel = relative_to(s, base)->0;
    lemma_spans(s);
    if n >= spans(s).len() {
        text::lemma_find_char(rel, '/', 0);
        assert(components(rel) =~= components(s).skip(n));
    } else {
        let from = if is_absolute(s) {
            1int
        } else {
            0int
        };
        let k = n - from;
        let a = spans(s)[n].0;
        let z = spans(s).last().1;
        assert(spans(s)[n - 1].1 <= a);
        assert(spans(s)[n] == spans_from(s, from)[k]);
        assert(spans(s).last() == spans_from(s, from).last());
        lemma_spans_from_span(s, from, k);
        assert(spans_from(s, a) =~= spans(s).skip(n));
        assert(a < z) by {
            assert(spans(s)[spans(s).len() - 1].0 >= a);
        }
        lemma_spans_cut(s, a, z);
        let x = s.take(a);
        assert(s.take(z) =~= x + rel);
        text::lemma_find_char(s, '/', a);
        let end = text::find_char(s, '/', a);
        assert(end > a);
        assert(s[a] != '/');
        assert(rel[0] == s[a]);
        if opens_with_dot(rel) {
            text::lemma_find_char(rel, '/', 0);
            assert(end <= z) by {
                assert(spans_from(s, a)[0] == (a, end));
            }
            if end < z {
                text::lemma_find_char_is(rel, '/', 0, end - a);
            } else {
                text::lemma_find_char_is(rel, '/', 0, z - a);
            }
            assert(end == a + 1);
            assert(false);
        }
        lemma_pieces_behind(x, rel, 0);
        assert(spans_from(x + rel, x.len() as int) == spans(s).skip(n));
        assert(components(rel) =~= pieces(rel, spans_from(rel, 0)));
        assert(pieces(s.take(z), spans(s).skip(n)) =~= components(s).skip(n)) by {
            assert forall|i: int| 0 <= i < spans(s).skip(n).len() implies #[trigger] pieces(
                s.take(z),
                spans(s).skip(n),
            )[i] == components(s).skip(n)[i] by {
                let q = spans(s)[n + i];
                assert(q.1 <= z) by {
                    if n + i < spans(s).len() - 1 {
                        assert(q.1 <= spans(s)[spans(s).len() - 1].0);
                    }
                }
                assert(s.take(z).subrange(q.0, q.1) =~= s.subrange(q.0, q.1));
            }
        }
    }
}

/// What lies under one directory can be read from another: there its path has the
/// components of that directory, and taken back from there it is the path that it
/// was.
pub proof fn moving_keeps_the_place(s: Seq<char>, from: Seq<char>, to: Seq<char>)
    requires
        path_starts_with(s, from),
        components(from).len() > 0,
        components(to).len() > 0,
    ensures
        ({
            let moved = joined(to, relative_to(s, from)->0);
            &&& path_starts_with(moved, to)
            &&& components(joined(from, relative_to(moved, to)->0)) == components(s)
        }),
{
    let rel = relative_to(s, from)->0;
    let moved = joined(to, rel);
    stripping_leaves_components(s, from);
    joining_appends_components(to, rel);
    assert(components(to) =~= components(moved).subrange(0, components(to).len() as int));
    stripping_leaves_components(moved, to);
    let back = relative_to(moved, to)->0;
    joining_appends_components(from, back);
    assert(components(moved).skip(components(to).len() as int) =~= components(rel));
    assert(components(from) =~= components(s).subrange(0, components(from).len() as int));
    assert(components(from) + components(s).skip(components(from).len() as int) =~= components(s));
}

/// The directory that a path lies in has all its components but the last.
pub proof fn parents_have_one_component_less(s: Seq<char>)
    requires
        parent_of(s) is Some,
    ensures
        components(parent_of(s)->0) == components(s).drop_last(),
        is_absolute(parent_of(s)->0) == is_absolute(s),
{
    let c = spans(s);
    let p = parent_of(s)->0;
    let n = c.len() as int;
    lemma_spans(s);
    if n == 1 {
        assert(components(p) =~= components(s).drop_last());
    } else if is_absolute(s) {
        let rest = spans_from(s, 1);
        if n == 2 {
            assert(p =~= seq!['/']);
            assert(spans_from(p, 1) =~= Seq::<(int, int)>::empty());
        } else {
            lemma_spans_take(s, 1, n - 3);
            assert(p =~= s.take(rest[n - 3].1));
            assert(spans_from(p, 1) == rest.take(n - 2));
            lemma_spans_from(s, 1);
        }
        assert(spans(p) =~= c.drop_last());
        lemma_pieces_of_front(s, p);
    } else {
        lemma_spans_take(s, 0, n - 2);
        assert(p =~= s.take(c[n - 2].1));
        assert(spans(p) =~= c.drop_last());
        lemma_pieces_of_front(s, p);
    }
}

proof fn lemma_pieces_of_front(s: Seq<char>, p: Seq<char>)
    requires
        p.is_prefix_of(s),
        spans(s).len() > 0,
        spans(p) == spans(s).drop_last(),
    ensures
        components(p) == components(s).drop_last(),
{
    lemma_spans(p);
    assert forall|i: int| 0 <= i < spans(p).len() implies #[trigger] components(p)[i]
        == components(s)[i] by {
        let span = spans(p)[i];
        assert(span == spans(s)[i]);
        assert(p.subrange(span.0, span.1) =~= s.subrange(span.0, span.1));
    }
    assert(components(p) =~= components(s).drop_last());
}

/// A name is one component, the root is one, and nothing has none.
pub proof fn names_are_single_components(w: Seq<char>)
    ensures
        components(Seq::<char>::empty()) == Seq::<Seq<char>>::empty(),
        components(seq!['/']) == seq![seq!['/']],
        w.len() > 0 && !w.contains('/') ==> components(w) == seq![w],
{
    let none = Seq::<char>::empty();
    let root = seq!['/'];
    text::lemma_find_char_is(none, '/', 0, 0);
    text::lemma_find_char_is(root, '/', 1, 1);
    assert(root.subrange(0, 1) =~= root);
    assert(components(none) =~= Seq::<Seq<char>>::empty());
    assert(spans_from(root, 1) =~= Seq::<(int, int)>::empty());
    assert(components(root) =~= seq![root]);
    if w.len() > 0 && !w.contains('/') {
        assert forall|i: int| 0 <= i < w.len() implies w[i] != '/' by {
            assert(w.contains(w[i]));
        }
        text::lemma_find_char_is(w, '/', 0, w.len() as int);
        assert(w.subrange(0, w.len() as int) =~= w);
        assert(components(w) =~= seq![w]);
    }
}

/// The file name of a path is the name that was joined last; `.` and `..` are none.
pub proof fn paths_are_named_by_what_was_joined_last(base: Seq<char>, w: Seq<char>)
    requires
        w.len() > 0,
        !w.contains('/'),
    ensures
        w != seq!['.'] && w != seq!['.', '.'] ==> file_name_of(joined(base, w)) == Some(w),
        file_name_of(joined(base, seq!['.', '.'])) is None,
        file_name_of(seq!['/']) is None,
        file_name_of(Seq::<char>::empty()) is None,
{
    if w != seq!['.'] {
        lemma_joined_name(base, w);
    }
    names_are_single_components(w);
    let up = seq!['.', '.'];
    assert(!up.contains('/') && up.len() == 2);
    names_are_single_components(up);
    lemma_joined_name(base, up);
}

proof fn lemma_joined_name(base: Seq<char>, w: Seq<char>)
    requires
        w.len() > 0,
        !w.contains('/'),
        w != seq!['.'],
    ensures
        components(joined(base, w)) == components(base) + seq![w],
{
    names_are_single_components(w);
    text::lemma_find_char(w, '/', 0);
    assert(!is_absolute(w)) by {
        if w[0] == '/' {
            assert(w.contains(w[0]));
        }
    }
    assert(!opens_with_dot(w)) by {
        if opens_with_dot(w) {
            if w.len() > 1 {
                assert(w.contains(w[1]));
            } else {
                assert(w =~= seq!['.']);
            }
        }
    }
    joining_appends_components(base, w);
}

/// A directory comes before what lies in it, and of two paths that lie in the same
/// directory the one whose name comes first does.
pub proof fn directories_come_before_their_contents(
    a: Seq<char>,
    b: Seq<char>,
    k: int,
)
    ensures
        path_starts_with(b, a) && components(a) != components(b) ==> path_lt(a, b),
        0 <= k < components(a).len() && k < components(b).len() && components(a).take(k)
            == components(b).take(k) && is_name(components(a)[k]) && is_name(components(b)[k])
            && text::text_lt(components(a)[k], components(b)[k]) ==> path_lt(a, b),
{
    let x = components(a);
    let y = components(b);
    if x.is_prefix_of(y) && x != y {
        if x.len() == y.len() {
            assert(x =~= y.subrange(0, x.len() as int));
            assert(y.subrange(0, y.len() as int) =~= y);
        }
        lemma_prefix_lt(x, y);
    }
    if 0 <= k < x.len() && k < y.len() && x.take(k) == y.take(k) && is_name(x[k]) && is_name(y[k])
        && text::text_lt(x[k], y[k]) {
        lemma_difference_lt(x, y, k);
    }
}

proof fn lemma_prefix_lt(x: Seq<Seq<char>>, y: Seq<Seq<char>>)
    requires
        x.is_prefix_of(y),
        x.len() < y.len(),
    ensures
        components_lt(x, y),
    decreases x.len(),
{
    if x.len() > 0 {
        assert(x[0] == y.subrange(0, x.len() as int)[0]);
        let u = x.drop_first();
        let v = y.drop_first();
        assert(u =~= v.subrange(0, u.len() as int)) by {
            assert forall|i: int| 0 <= i < u.len() implies u[i] == v[i] by {
                assert(x[i + 1] == y.subrange(0, x.len() as int)[i + 1]);
            }
        }
        lemma_prefix_lt(u, v);
    }
}

proof fn lemma_difference_lt(x: Seq<Seq<char>>, y: Seq<Seq<char>>, k: int)
    requires
        0 <= k < x.len(),
        k < y.len(),
        x.take(k) == y.take(k),
        is_name(x[k]),
        is_name(y[k]),
        text::text_lt(x[k], y[k]),
    ensures
        components_lt(x, y),
    decreases k,
{
    if k == 0 {
        text::lemma_text_lt_irreflexive(x[0]);
    } else {
        assert(x[0] == x.take(k)[0] && y[0] == y.take(k)[0]);
        let u = x.drop_first();
        let v = y.drop_first();
        assert(u.take(k - 1) =~= x.take(k).drop_first());
        assert(v.take(k - 1) =~= y.take(k).drop_first());
        lemma_difference_lt(u, v, k - 1);
    }
}

/// A path that is joined to another is taken from it, unless it is absolute.
pub proof fn absolute_paths_stay_when_joined(base: Seq<char>, p: Seq<char>)
    ensures
        is_absolute(p) ==> joined(base, p) == p,
        p.is_suffix_of(joined(base, p)),
        !is_absolute(p) ==> base.is_prefix_of(joined(base, p)),
{
    let j = joined(base, p);
    assert(j.subrange(j.len() - p.len(), j.len() as int) =~= p);
    if !is_absolute(p) {
        assert(j.subrange(0, base.len() as int) =~= base);
    }
}

} // verus!
