//! Packages in their order, and sets of them.

use crate::actions::install::config;
use crate::actions::install::config::{
    BrewPackage, BrewView, CargoPackage, CargoView, NodePackage, NodeView, PythonPackage,
    PythonTool, PythonView, WingetPackage, WingetView,
};
use crate::text;
use crate::text::{less, same};
use vstd::prelude::*;

verus! {

/// One field of a package, as packages are ordered by them: a missing field
/// comes before any other.
pub enum Field {
    Absent,
    Text(Seq<char>),
    Texts(Seq<Seq<char>>),
    Number(int),
}

/// A field of a package.
pub enum FieldValue {
    Absent,
    Text(String),
    Texts(Vec<String>),
    Number(u8),
}

impl View for FieldValue {
    type V = Field;

    open spec fn view(&self) -> Field {
        match *self {
            FieldValue::Absent => Field::Absent,
            FieldValue::Text(s) => Field::Text(s@),
            FieldValue::Texts(v) => Field::Texts(text::texts(v@)),
            FieldValue::Number(n) => Field::Number(n as int),
        }
    }
}

/// Whether one list of texts stands before another.
pub open spec fn texts_lt(a: Seq<Seq<char>>, b: Seq<Seq<char>>) -> bool
    decreases a.len(),
{
    if b.len() == 0 {
        false
    } else if a.len() == 0 {
        true
    } else if a[0] == b[0] {
        texts_lt(a.drop_first(), b.drop_first())
    } else {
        text::text_lt(a[0], b[0])
    }
}

/// The kinds of fields in their order.
pub open spec fn field_rank(f: Field) -> int {
    match f {
        Field::Absent => 0,
        Field::Text(_) => 1,
        Field::Texts(_) => 2,
        Field::Number(_) => 3,
    }
}

/// Whether one field stands before another.
pub open spec fn field_lt(a: Field, b: Field) -> bool {
    match (a, b) {
        (Field::Text(x), Field::Text(y)) => text::text_lt(x, y),
        (Field::Texts(x), Field::Texts(y)) => texts_lt(x, y),
        (Field::Number(x), Field::Number(y)) => x < y,
        _ => field_rank(a) < field_rank(b),
    }
}

/// Whether one list of fields stands before another.
pub open spec fn fields_lt(a: Seq<Field>, b: Seq<Field>) -> bool
    decreases a.len(),
{
    if b.len() == 0 {
        false
    } else if a.len() == 0 {
        true
    } else if a[0] == b[0] {
        fields_lt(a.drop_first(), b.drop_first())
    } else {
        field_lt(a[0], b[0])
    }
}

proof fn lemma_texts_lt(a: Seq<Seq<char>>, b: Seq<Seq<char>>, c: Seq<Seq<char>>)
    ensures
        !texts_lt(a, a),
        texts_lt(a, b) && texts_lt(b, c) ==> texts_lt(a, c),
        texts_lt(a, b) || a == b || texts_lt(b, a),
    decreases a.len() + b.len() + c.len(),
{
    if a.len() > 0 && b.len() > 0 {
        text::lemma_text_lt_irreflexive(a[0]);
        text::lemma_text_lt_total(a[0], b[0]);
        if c.len() > 0 {
            if text::text_lt(a[0], b[0]) && text::text_lt(b[0], c[0]) {
                text::lemma_text_lt_transitive(a[0], b[0], c[0]);
            }
            lemma_texts_lt(a.drop_first(), b.drop_first(), c.drop_first());
        } else {
            lemma_texts_lt(a.drop_first(), b.drop_first(), c);
        }
        if a[0] == b[0] && a.drop_first() == b.drop_first() {
            assert(a =~= seq![a[0]] + a.drop_first());
            assert(b =~= seq![b[0]] + b.drop_first());
        }
    } else if a.len() == 0 && b.len() == 0 {
        assert(a =~= b);
    } else if a.len() > 0 {
        lemma_texts_lt(a.drop_first(), b, c);
    }
}

proof fn lemma_field_lt(a: Field, b: Field, c: Field)
    ensures
        !field_lt(a, a),
        field_lt(a, b) && field_lt(b, c) ==> field_lt(a, c),
        field_lt(a, b) || a == b || field_lt(b, a),
{
    match a {
        Field::Text(x) => {
            text::lemma_text_lt_irreflexive(x);
            if let Field::Text(y) = b {
                text::lemma_text_lt_total(x, y);
                if let Field::Text(z) = c {
                    if text::text_lt(x, y) && text::text_lt(y, z) {
                        text::lemma_text_lt_transitive(x, y, z);
                    }
                }
            }
        },
        Field::Texts(x) => {
            lemma_texts_lt(x, x, x);
            if let Field::Texts(y) = b {
                lemma_texts_lt(x, y, y);
                if let Field::Texts(z) = c {
                    lemma_texts_lt(x, y, z);
                }
            }
        },
        _ => {},
    }
}

/// The order of packages is strict and total.
pub proof fn package_order_is_strict(a: Seq<Field>, b: Seq<Field>, c: Seq<Field>)
    ensures
        !fields_lt(a, a),
        fields_lt(a, b) && fields_lt(b, c) ==> fields_lt(a, c),
        fields_lt(a, b) || a == b || fields_lt(b, a),
    decreases a.len() + b.len() + c.len(),
{
    if a.len() > 0 && b.len() > 0 {
        lemma_field_lt(a[0], b[0], b[0]);
        if c.len() > 0 {
            lemma_field_lt(a[0], b[0], c[0]);
            package_order_is_strict(a.drop_first(), b.drop_first(), c.drop_first());
        } else {
            package_order_is_strict(a.drop_first(), b.drop_first(), c);
        }
        if a[0] == b[0] && a.drop_first() == b.drop_first() {
            assert(a =~= seq![a[0]] + a.drop_first());
            assert(b =~= seq![b[0]] + b.drop_first());
        }
    } else if a.len() == 0 && b.len() == 0 {
        assert(a =~= b);
    } else if a.len() > 0 {
        package_order_is_strict(a.drop_first(), b, c);
    }
}

/// How two things stand to each other.
#[derive(Debug, Clone, Copy, PartialEq, Eq, Structural)]
pub enum Place {
    Before,
    Same,
    After,
}

fn place_texts(a: &Vec<String>, b: &Vec<String>) -> (r: Place)
    ensures
        r is Before == texts_lt(text::texts(a@), text::texts(b@)),
        r is Same == (text::texts(a@) == text::texts(b@)),
{
    let ghost x = text::texts(a@);
    let ghost y = text::texts(b@);
    proof {
        lemma_texts_lt(x, y, x);
    }
    let mut i: usize = 0;
    assert(x.skip(0) =~= x && y.skip(0) =~= y);
    while i < a.len() && i < b.len() && a[i] == b[i]
        invariant
            x == text::texts(a@),
            y == text::texts(b@),
            i <= a@.len(),
            i <= b@.len(),
            texts_lt(x, y) == texts_lt(x.skip(i as int), y.skip(i as int)),
            x.take(i as int) == y.take(i as int),
        decreases a@.len() - i,
    {
        assert(x.skip(i as int).drop_first() =~= x.skip(i + 1));
        assert(y.skip(i as int).drop_first() =~= y.skip(i + 1));
        assert(x[i as int] == y[i as int]);
        assert(x.take(i + 1) =~= x.take(i as int).push(x[i as int]));
        assert(y.take(i + 1) =~= y.take(i as int).push(y[i as int]));
        i = i + 1;
    }
    if i >= a.len() && i >= b.len() {
        assert(x.take(i as int) =~= x && y.take(i as int) =~= y);
        Place::Same
    } else if i >= a.len() {
        Place::Before
    } else if i >= b.len() {
        Place::After
    } else {
        assert(x.skip(i as int)[0] == x[i as int] && y.skip(i as int)[0] == y[i as int]);
        if less(a[i].as_str(), b[i].as_str()) {
            Place::Before
        } else {
            Place::After
        }
    }
}

fn rank(f: &FieldValue) -> (r: u8)
    ensures
        r == field_rank(f@),
{
    match f {
        FieldValue::Absent => 0,
        FieldValue::Text(_) => 1,
        FieldValue::Texts(_) => 2,
        FieldValue::Number(_) => 3,
    }
}

fn place_field(a: &FieldValue, b: &FieldValue) -> (r: Place)
    ensures
        r is Before == field_lt(a@, b@),
        r is Same == (a@ == b@),
{
    match (a, b) {
        (FieldValue::Text(x), FieldValue::Text(y)) => {
            proof {
                text::lemma_text_lt_irreflexive(x@);
            }
            if same(x.as_str(), y.as_str()) {
                Place::Same
            } else if less(x.as_str(), y.as_str()) {
                Place::Before
            } else {
                Place::After
            }
        },
        (FieldValue::Texts(x), FieldValue::Texts(y)) => place_texts(x, y),
        (FieldValue::Number(x), FieldValue::Number(y)) => {
            if *x == *y {
                Place::Same
            } else if *x < *y {
                Place::Before
            } else {
                Place::After
            }
        },
        (FieldValue::Absent, FieldValue::Absent) => Place::Same,
        _ => if rank(a) < rank(b) {
            Place::Before
        } else {
            Place::After
        },
    }
}

/// The fields over text.
pub open spec fn field_views(v: Seq<FieldValue>) -> Seq<Field> {
    v.map_values(|f: FieldValue| f@)
}

fn place_fields(a: &Vec<FieldValue>, b: &Vec<FieldValue>) -> (r: Place)
    ensures
        r is Before == fields_lt(field_views(a@), field_views(b@)),
        r is Same == (field_views(a@) == field_views(b@)),
{
    let ghost x = field_views(a@);
    let ghost y = field_views(b@);
    proof {
        package_order_is_strict(x, y, x);
    }
    let mut i: usize = 0;
    assert(x.skip(0) =~= x && y.skip(0) =~= y);
    while i < a.len() && i < b.len()
        invariant
            x == field_views(a@),
            y == field_views(b@),
            i <= a@.len(),
            i <= b@.len(),
            fields_lt(x, y) == fields_lt(x.skip(i as int), y.skip(i as int)),
            x.take(i as int) == y.take(i as int),
        decreases a@.len() - i,
    {
        assert(x.skip(i as int)[0] == x[i as int] && y.skip(i as int)[0] == y[i as int]);
        match place_field(&a[i], &b[i]) {
            Place::Same => {},
            Place::Before => {
                assert(x[i as int] != y[i as int]);
                return Place::Before;
            },
            Place::After => {
                assert(x[i as int] != y[i as int]);
                return Place::After;
            },
        }
        assert(x.skip(i as int).drop_first() =~= x.skip(i + 1));
        assert(y.skip(i as int).drop_first() =~= y.skip(i + 1));
        assert(x.take(i + 1) =~= x.take(i as int).push(x[i as int]));
        assert(y.take(i + 1) =~= y.take(i as int).push(y[i as int]));
        i = i + 1;
    }
    if i >= a.len() && i >= b.len() {
        assert(x.take(i as int) =~= x && y.take(i as int) =~= y);
        Place::Same
    } else if i >= a.len() {
        Place::Before
    } else {
        Place::After
    }
}

/// Something that can be installed.
pub trait Package: Sized + View {
    /// The fields that it is ordered by.
    spec fn key(v: Self::V) -> Seq<Field>;

    /// The fields that it is ordered by.
    fn fields(&self) -> (r: Vec<FieldValue>)
        ensures
            field_views(r@) == Self::key(self@),
    ;

    /// The same again.
    fn copy(&self) -> (r: Self)
        ensures
            r@ == self@,
    ;
}

/// The field for a text that may be missing.
pub open spec fn text_field(s: Option<Seq<char>>) -> Field {
    match s {
        Some(t) => Field::Text(t),
        None => Field::Absent,
    }
}

/// The field for a list of texts that may be missing.
pub open spec fn texts_field(s: Option<Seq<Seq<char>>>) -> Field {
    match s {
        Some(t) => Field::Texts(t),
        None => Field::Absent,
    }
}

/// The field for a flag that may be missing.
pub open spec fn flag_field(b: Option<bool>) -> Field {
    match b {
        Some(true) => Field::Number(1),
        Some(false) => Field::Number(0),
        None => Field::Absent,
    }
}

/// The field for a tool that may be missing.
pub open spec fn tool_field(t: Option<PythonTool>) -> Field {
    match t {
        Some(PythonTool::Uv) => Field::Number(0),
        Some(PythonTool::Pipx) => Field::Number(1),
        Some(PythonTool::Pip) => Field::Number(2),
        None => Field::Absent,
    }
}

fn field_of_text(s: &Option<String>) -> (r: FieldValue)
    ensures
        r@ == text_field(text::opt_text(*s)),
{
    match s {
        Some(t) => FieldValue::Text(t.clone()),
        None => FieldValue::Absent,
    }
}

fn field_of_texts(s: &Option<Vec<String>>) -> (r: FieldValue)
    ensures
        r@ == texts_field(config::opt_texts(*s)),
{
    match s {
        Some(t) => FieldValue::Texts(t.clone()),
        None => FieldValue::Absent,
    }
}

fn field_of_flag(b: Option<bool>) -> (r: FieldValue)
    ensures
        r@ == flag_field(b),
{
    match b {
        Some(true) => FieldValue::Number(1),
        Some(false) => FieldValue::Number(0),
        None => FieldValue::Absent,
    }
}

fn field_of_tool(t: Option<PythonTool>) -> (r: FieldValue)
    ensures
        r@ == tool_field(t),
{
    match t {
        Some(PythonTool::Uv) => FieldValue::Number(0),
        Some(PythonTool::Pipx) => FieldValue::Number(1),
        Some(PythonTool::Pip) => FieldValue::Number(2),
        None => FieldValue::Absent,
    }
}

fn copy_texts(v: &Option<Vec<String>>) -> (r: Option<Vec<String>>)
    ensures
        config::opt_texts(r) == config::opt_texts(*v),
{
    match v {
        Some(t) => Some(t.clone()),
        None => None,
    }
}

impl Package for String {
    open spec fn key(v: Seq<char>) -> Seq<Field> {
        seq![Field::Text(v)]
    }

    fn fields(&self) -> (r: Vec<FieldValue>) {
        let r = vec![FieldValue::Text(self.clone())];
        assert(field_views(r@) =~= Self::key(self@));
        r
    }

    fn copy(&self) -> (r: Self) {
        self.clone()
    }
}

impl Package for BrewPackage {
    open spec fn key(v: BrewView) -> Seq<Field> {
        seq![Field::Text(v.name), text_field(v.options), flag_field(v.cask)]
    }

    fn fields(&self) -> (r: Vec<FieldValue>) {
        let r = vec![
            FieldValue::Text(self.name.clone()),
            field_of_text(&self.options),
            field_of_flag(self.cask),
        ];
        assert(field_views(r@) =~= Self::key(self@));
        r
    }

    fn copy(&self) -> (r: Self) {
        BrewPackage {
            name: self.name.clone(),
            options: self.options.clone(),
            cask: self.cask,
        }
    }
}

impl Package for CargoPackage {
    open spec fn key(v: CargoView) -> Seq<Field> {
        seq![
            text_field(v.name),
            text_field(v.version),
            text_field(v.git),
            text_field(v.tag),
            text_field(v.branch),
            text_field(v.rev),
            text_field(v.path),
            texts_field(v.features),
            flag_field(v.locked),
            text_field(v.options),
        ]
    }

    fn fields(&self) -> (r: Vec<FieldValue>) {
        let r = vec![
            field_of_text(&self.name),
            field_of_text(&self.version),
            field_of_text(&self.git),
            field_of_text(&self.tag),
            field_of_text(&self.branch),
            field_of_text(&self.rev),
            field_of_text(&self.path),
            field_of_texts(&self.features),
            field_of_flag(self.locked),
            field_of_text(&self.options),
        ];
        assert(field_views(r@) =~= Self::key(self@));
        r
    }

    fn copy(&self) -> (r: Self) {
        CargoPackage {
            name: self.name.clone(),
            version: self.version.clone(),
            git: self.git.clone(),
            tag: self.tag.clone(),
            branch: self.branch.clone(),
            rev: self.rev.clone(),
            path: self.path.clone(),
            features: copy_texts(&self.features),
            locked: self.locked,
            options: self.options.clone(),
        }
    }
}

impl Package for PythonPackage {
    open spec fn key(v: PythonView) -> Seq<Field> {
        seq![
            Field::Text(v.name),
            tool_field(v.tool),
            texts_field(v.extras),
            text_field(v.options),
        ]
    }

    fn fields(&self) -> (r: Vec<FieldValue>) {
        let r = vec![
            FieldValue::Text(self.name.clone()),
            field_of_tool(self.tool),
            field_of_texts(&self.extras),
            field_of_text(&self.options),
        ];
        assert(field_views(r@) =~= Self::key(self@));
        r
    }

    fn copy(&self) -> (r: Self) {
        PythonPackage {
            name: self.name.clone(),
            tool: self.tool,
            extras: copy_texts(&self.extras),
            options: self.options.clone(),
        }
    }
}

impl Package for NodePackage {
    open spec fn key(v: NodeView) -> Seq<Field> {
        seq![Field::Text(v.name), text_field(v.options)]
    }

    fn fields(&self) -> (r: Vec<FieldValue>) {
        let r = vec![FieldValue::Text(self.name.clone()), field_of_text(&self.options)];
        assert(field_views(r@) =~= Self::key(self@));
        r
    }

    fn copy(&self) -> (r: Self) {
        NodePackage { name: self.name.clone(), options: self.options.clone() }
    }
}

impl Package for WingetPackage {
    open spec fn key(v: WingetView) -> Seq<Field> {
        seq![text_field(v.name), text_field(v.id), text_field(v.options)]
    }

    fn fields(&self) -> (r: Vec<FieldValue>) {
        let r = vec![
            field_of_text(&self.name),
            field_of_text(&self.id),
            field_of_text(&self.options),
        ];
        assert(field_views(r@) =~= Self::key(self@));
        r
    }

    fn copy(&self) -> (r: Self) {
        WingetPackage {
            name: self.name.clone(),
            id: self.id.clone(),
            options: self.options.clone(),
        }
    }
}

/// The packages over text.
pub open spec fn views<P: Package>(v: Seq<P>) -> Seq<P::V> {
    v.map_values(|p: P| p@)
}

/// The first place at or after `from` that does not stand before `v`.
pub open spec fn set_place<P: Package>(s: Seq<P::V>, v: P::V, from: int) -> int
    decreases s.len() - from,
{
    if from >= s.len() {
        s.len() as int
    } else if fields_lt(P::key(s[from]), P::key(v)) {
        set_place::<P>(s, v, from + 1)
    } else {
        from
    }
}

/// The ordered set `s` with `v` in it.
pub open spec fn set_put<P: Package>(s: Seq<P::V>, v: P::V) -> Seq<P::V> {
    let i = set_place::<P>(s, v, 0);
    if i < s.len() && P::key(s[i]) == P::key(v) {
        s
    } else {
        s.insert(i, v)
    }
}

/// The ordered set `s` with all of `l` in it.
pub open spec fn set_put_all<P: Package>(s: Seq<P::V>, l: Seq<P::V>) -> Seq<P::V>
    decreases l.len(),
{
    if l.len() == 0 {
        s
    } else {
        set_put::<P>(set_put_all::<P>(s, l.drop_last()), l.last())
    }
}

/// Whether `s` is an ordered set: each package once, in order.
pub open spec fn is_set<P: Package>(s: Seq<P::V>) -> bool {
    forall|i: int, j: int|
        0 <= i < j < s.len() ==> fields_lt(P::key(#[trigger] s[i]), P::key(#[trigger] s[j]))
}

/// Whether a package with the fields `k` is in `s`.
pub open spec fn has_key<P: Package>(s: Seq<P::V>, k: Seq<Field>) -> bool {
    exists|i: int| 0 <= i < s.len() && P::key(#[trigger] s[i]) == k
}

proof fn lemma_set_place<P: Package>(s: Seq<P::V>, v: P::V, from: int)
    requires
        0 <= from <= s.len(),
    ensures
        from <= set_place::<P>(s, v, from) <= s.len(),
        forall|i: int|
            from <= i < set_place::<P>(s, v, from) ==> fields_lt(
                P::key(#[trigger] s[i]),
                P::key(v),
            ),
        set_place::<P>(s, v, from) < s.len() ==> !fields_lt(
            P::key(s[set_place::<P>(s, v, from)]),
            P::key(v),
        ),
    decreases s.len() - from,
{
    if from < s.len() && fields_lt(P::key(s[from]), P::key(v)) {
        lemma_set_place::<P>(s, v, from + 1);
    }
}

proof fn lemma_set_place_is<P: Package>(s: Seq<P::V>, v: P::V, from: int, at: int)
    requires
        0 <= from <= at <= s.len(),
        forall|i: int| from <= i < at ==> fields_lt(P::key(#[trigger] s[i]), P::key(v)),
        at < s.len() ==> !fields_lt(P::key(s[at]), P::key(v)),
    ensures
        set_place::<P>(s, v, from) == at,
    decreases at - from,
{
    if from < at {
        lemma_set_place_is::<P>(s, v, from + 1, at);
    }
}

/// Putting a package into an ordered set leaves an ordered set, which holds the
/// package and whatever it held before, and nothing else.
pub proof fn putting_keeps_the_set<P: Package>(s: Seq<P::V>, v: P::V, k: Seq<Field>)
    requires
        is_set::<P>(s),
    ensures
        is_set::<P>(set_put::<P>(s, v)),
        has_key::<P>(set_put::<P>(s, v), k) == (has_key::<P>(s, k) || P::key(v) == k),
{
    lemma_set_place::<P>(s, v, 0);
    let p = set_place::<P>(s, v, 0);
    let kv = P::key(v);
    if p < s.len() && P::key(s[p]) == kv {
    } else {
        let t = s.insert(p, v);
        if p < s.len() {
            package_order_is_strict(P::key(s[p]), kv, kv);
        }
        assert forall|i: int, j: int| 0 <= i < j < t.len() implies fields_lt(
            P::key(#[trigger] t[i]),
            P::key(#[trigger] t[j]),
        ) by {
            if j < p {
                assert(t[i] == s[i] && t[j] == s[j]);
            } else if j == p {
                assert(t[i] == s[i]);
            } else if i < p {
                assert(t[i] == s[i] && t[j] == s[j - 1]);
            } else if i == p {
                assert(t[j] == s[j - 1]);
                if j - 1 > p {
                    package_order_is_strict(kv, P::key(s[p]), P::key(s[j - 1]));
                }
            } else {
                assert(t[i] == s[i - 1] && t[j] == s[j - 1]);
            }
        }
        if has_key::<P>(s, k) {
            let i = choose|i: int| 0 <= i < s.len() && P::key(#[trigger] s[i]) == k;
            if i < p {
                assert(t[i] == s[i]);
            } else {
                assert(t[i + 1] == s[i]);
            }
        }
        if kv == k {
            assert(t[p] == v);
        }
        if has_key::<P>(t, k) {
            let i = choose|i: int| 0 <= i < t.len() && P::key(#[trigger] t[i]) == k;
            if i < p {
                assert(t[i] == s[i]);
            } else if i > p {
                assert(t[i] == s[i - 1]);
            }
        }
    }
}

/// Collecting packages gives an ordered set of exactly those packages, whatever
/// their order and however often one of them occurs.
pub proof fn collecting_gives_a_set<P: Package>(s: Seq<P::V>, l: Seq<P::V>, k: Seq<Field>)
    requires
        is_set::<P>(s),
    ensures
        is_set::<P>(set_put_all::<P>(s, l)),
        has_key::<P>(set_put_all::<P>(s, l), k) == (has_key::<P>(s, k) || has_key::<P>(l, k)),
    decreases l.len(),
{
    if l.len() > 0 {
        let front = l.drop_last();
        collecting_gives_a_set::<P>(s, front, k);
        putting_keeps_the_set::<P>(set_put_all::<P>(s, front), l.last(), k);
        if has_key::<P>(l, k) {
            let i = choose|i: int| 0 <= i < l.len() && P::key(#[trigger] l[i]) == k;
            if i < front.len() {
                assert(front[i] == l[i]);
            }
        }
        if has_key::<P>(front, k) {
            let i = choose|i: int| 0 <= i < front.len() && P::key(#[trigger] front[i]) == k;
            assert(l[i] == front[i]);
        }
        assert(l.last() == l[l.len() - 1]);
    }
}

fn put_package<P: Package>(set: &mut Vec<P>, p: P)
    ensures
        views(final(set)@) == set_put::<P>(views(old(set)@), p@),
{
    let ghost s = views(set@);
    let key = p.fields();
    let mut at: usize = 0;
    let mut found = false;
    while at < set.len() && !found
        invariant
            s == views(set@),
            at <= set@.len(),
            field_views(key@) == P::key(p@),
            forall|i: int| 0 <= i < at ==> fields_lt(P::key(#[trigger] s[i]), P::key(p@)),
            found ==> at < set@.len() && !fields_lt(P::key(s[at as int]), P::key(p@)),
        decreases set@.len() - at + if found { 0int } else { 1int },
    {
        let other = set[at].fields();
        assert(s[at as int] == set@[at as int]@);
        match place_fields(&other, &key) {
            Place::Before => {
                at = at + 1;
            },
            _ => {
                found = true;
            },
        }
    }
    proof {
        lemma_set_place_is::<P>(s, p@, 0, at as int);
    }
    if at < set.len() {
        let other = set[at].fields();
        assert(s[at as int] == set@[at as int]@);
        match place_fields(&other, &key) {
            Place::Same => {
                return;
            },
            _ => {},
        }
    }
    set.insert(at, p);
    assert(views(set@) =~= s.insert(at as int, p@));
}

/// Puts all of `items` into the ordered set.
pub fn put_packages<P: Package>(set: &mut Vec<P>, items: &Vec<P>)
    ensures
        views(final(set)@) == set_put_all::<P>(views(old(set)@), views(items@)),
{
    let ghost start = views(set@);
    let ghost all = views(items@);
    let mut i: usize = 0;
    assert(all.take(0) =~= Seq::<P::V>::empty());
    while i < items.len()
        invariant
            i <= items@.len(),
            all == views(items@),
            views(set@) == set_put_all::<P>(start, all.take(i as int)),
        decreases items@.len() - i,
    {
        put_package(set, items[i].copy());
        assert(all.take(i + 1).drop_last() =~= all.take(i as int));
        assert(all.take(i + 1).last() == all[i as int]);
        i = i + 1;
    }
    assert(all.take(items@.len() as int) =~= all);
}

/// Two packages that differ in anything are told apart: neither is lost for the
/// other.
pub proof fn different_packages_have_different_keys(
    a: (BrewView, CargoView, PythonView, NodeView, WingetView, Seq<char>),
    b: (BrewView, CargoView, PythonView, NodeView, WingetView, Seq<char>),
)
    ensures
        BrewPackage::key(a.0) == BrewPackage::key(b.0) ==> a.0 == b.0,
        CargoPackage::key(a.1) == CargoPackage::key(b.1) ==> a.1 == b.1,
        PythonPackage::key(a.2) == PythonPackage::key(b.2) ==> a.2 == b.2,
        NodePackage::key(a.3) == NodePackage::key(b.3) ==> a.3 == b.3,
        WingetPackage::key(a.4) == WingetPackage::key(b.4) ==> a.4 == b.4,
        String::key(a.5) == String::key(b.5) ==> a.5 == b.5,
{
    let x = BrewPackage::key(a.0);
    let y = BrewPackage::key(b.0);
    if x == y {
        assert(x[0] == y[0] && x[1] == y[1] && x[2] == y[2]);
    }
    let x = CargoPackage::key(a.1);
    let y = CargoPackage::key(b.1);
    if x == y {
        assert(x[0] == y[0] && x[1] == y[1] && x[2] == y[2] && x[3] == y[3] && x[4] == y[4]);
        assert(x[5] == y[5] && x[6] == y[6] && x[7] == y[7] && x[8] == y[8] && x[9] == y[9]);
    }
    let x = PythonPackage::key(a.2);
    let y = PythonPackage::key(b.2);
    if x == y {
        assert(x[0] == y[0] && x[1] == y[1] && x[2] == y[2] && x[3] == y[3]);
    }
    let x = NodePackage::key(a.3);
    let y = NodePackage::key(b.3);
    if x == y {
        assert(x[0] == y[0] && x[1] == y[1]);
    }
    let x = WingetPackage::key(a.4);
    let y = WingetPackage::key(b.4);
    if x == y {
        assert(x[0] == y[0] && x[1] == y[1] && x[2] == y[2]);
    }
    let x = String::key(a.5);
    let y = String::key(b.5);
    if x == y {
        assert(x[0] == y[0]);
    }
}

/// Packages are ordered by their names first.
pub proof fn packages_are_ordered_by_name(a: BrewView, b: BrewView, x: NodeView, y: NodeView)
    ensures
        text::text_lt(a.name, b.name) ==> fields_lt(BrewPackage::key(a), BrewPackage::key(b)),
        text::text_lt(x.name, y.name) ==> fields_lt(NodePackage::key(x), NodePackage::key(y)),
        text::text_lt(a.name, b.name) ==> fields_lt(String::key(a.name), String::key(b.name)),
{
    text::lemma_text_lt_irreflexive(a.name);
    text::lemma_text_lt_irreflexive(x.name);
}

/// Packages of the same name are ordered by what else is declared of them: Python
/// packages by their tool, in the order of the tools; packages without a name come
/// before those with one.
pub proof fn packages_are_ordered_as_declared(
    a: PythonView,
    b: PythonView,
    c: CargoView,
    d: CargoView,
    e: WingetView,
    f: WingetView,
)
    ensures
        text::text_lt(a.name, b.name) ==> fields_lt(PythonPackage::key(a), PythonPackage::key(b)),
        a.name == b.name && a.tool == Some(PythonTool::Uv) && b.tool == Some(PythonTool::Pipx)
            ==> fields_lt(PythonPackage::key(a), PythonPackage::key(b)),
        a.name == b.name && a.tool == Some(PythonTool::Pipx) && b.tool == Some(PythonTool::Pip)
            ==> fields_lt(PythonPackage::key(a), PythonPackage::key(b)),
        a.name == b.name && a.tool is None && b.tool is Some ==> fields_lt(
            PythonPackage::key(a),
            PythonPackage::key(b),
        ),
        c.name is Some && d.name is Some && text::text_lt(c.name->0, d.name->0) ==> fields_lt(
            CargoPackage::key(c),
            CargoPackage::key(d),
        ),
        c.name is None && d.name is Some ==> fields_lt(CargoPackage::key(c), CargoPackage::key(d)),
        e.name is Some && f.name is Some && text::text_lt(e.name->0, f.name->0) ==> fields_lt(
            WingetPackage::key(e),
            WingetPackage::key(f),
        ),
        e.name is None && f.name is Some ==> fields_lt(
            WingetPackage::key(e),
            WingetPackage::key(f),
        ),
        field_lt(flag_field(Some(false)), flag_field(Some(true))),
        field_lt(flag_field(None), flag_field(Some(false))),
{
    if a.name != b.name {
    } else {
        text::lemma_text_lt_irreflexive(a.name);
        let x = PythonPackage::key(a);
        let y = PythonPackage::key(b);
        assert(x.drop_first()[0] == tool_field(a.tool));
        assert(y.drop_first()[0] == tool_field(b.tool));
        reveal_with_fuel(fields_lt, 3);
    }
    if c.name is Some && d.name is Some {
        text::lemma_text_lt_irreflexive(c.name->0);
    }
    if e.name is Some && f.name is Some {
        text::lemma_text_lt_irreflexive(e.name->0);
    }
}

} // verus!
