//! Values of descriptors.

use crate::text::same;
use vstd::prelude::*;

verus! {

/// A number, by what can be read from it.
#[derive(Debug, Clone, Copy, PartialEq, Eq, Structural)]
pub struct Number {
    /// Its value, where it is an integer in range.
    pub integer: Option<i64>,
    /// The bits of its value as a floating-point number, where it has one.
    pub real: Option<u64>,
}

/// A value of YAML.
#[derive(Debug, PartialEq, Eq)]
pub enum Yaml {
    Null,
    Flag(bool),
    Number(Number),
    Text(String),
    Sequence(Vec<Yaml>),
    Mapping(Vec<(Yaml, Yaml)>),
    /// A value behind a tag of its own.
    Tagged(String, Box<Yaml>),
}

/// [`Yaml`] over text.
pub enum YamlTree {
    Null,
    Flag(bool),
    Number(Number),
    Text(Seq<char>),
    Sequence(Seq<YamlTree>),
    Mapping(Seq<(YamlTree, YamlTree)>),
    Tagged(Seq<char>, Box<YamlTree>),
}

/// A value of YAML over text.
pub open spec fn yaml_tree(v: Yaml) -> YamlTree
    decreases v, 0nat,
{
    match v {
        Yaml::Null => YamlTree::Null,
        Yaml::Flag(b) => YamlTree::Flag(b),
        Yaml::Number(n) => YamlTree::Number(n),
        Yaml::Text(s) => YamlTree::Text(s@),
        Yaml::Sequence(l) => YamlTree::Sequence(yaml_list(l@, l@.len())),
        Yaml::Mapping(m) => YamlTree::Mapping(yaml_pairs(m@, m@.len())),
        Yaml::Tagged(tag, inner) => YamlTree::Tagged(tag@, Box::new(yaml_tree(*inner))),
    }
}

/// The first `n` values over text.
pub open spec fn yaml_list(l: Seq<Yaml>, n: nat) -> Seq<YamlTree>
    decreases l, n,
{
    if n == 0 || n > l.len() {
        Seq::empty()
    } else {
        yaml_list(l, (n - 1) as nat).push(yaml_tree(l[n - 1]))
    }
}

/// The first `n` entries of a mapping over text.
pub open spec fn yaml_pairs(m: Seq<(Yaml, Yaml)>, n: nat) -> Seq<(YamlTree, YamlTree)>
    decreases m, n,
{
    if n == 0 || n > m.len() {
        Seq::empty()
    } else {
        yaml_pairs(m, (n - 1) as nat).push((yaml_tree(m[n - 1].0), yaml_tree(m[n - 1].1)))
    }
}

pub proof fn lemma_yaml_pairs(m: Seq<(Yaml, Yaml)>, n: nat)
    requires
        n <= m.len(),
    ensures
        yaml_pairs(m, n).len() == n,
        forall|i: int|
            0 <= i < n ==> #[trigger] yaml_pairs(m, n)[i] == (
                yaml_tree(m[i].0),
                yaml_tree(m[i].1),
            ),
    decreases n,
{
    if n > 0 {
        lemma_yaml_pairs(m, (n - 1) as nat);
    }
}

/// A mapping over text.
pub open spec fn mapping(m: Seq<(Yaml, Yaml)>) -> Seq<(YamlTree, YamlTree)> {
    yaml_pairs(m, m.len())
}

/// The first place at or after `from` that holds `key`, or the length.
pub open spec fn yaml_place(m: Seq<(YamlTree, YamlTree)>, key: Seq<char>, from: int) -> int
    decreases m.len() - from,
{
    if from >= m.len() {
        m.len() as int
    } else if m[from].0 == YamlTree::Text(key) {
        from
    } else {
        yaml_place(m, key, from + 1)
    }
}

pub proof fn lemma_yaml_place(m: Seq<(YamlTree, YamlTree)>, key: Seq<char>, from: int)
    requires
        0 <= from <= m.len(),
    ensures
        from <= yaml_place(m, key, from) <= m.len(),
        yaml_place(m, key, from) < m.len() ==> m[yaml_place(m, key, from)].0 == YamlTree::Text(key),
        forall|i: int|
            from <= i < yaml_place(m, key, from) ==> (#[trigger] m[i]).0 != YamlTree::Text(key),
    decreases m.len() - from,
{
    if from < m.len() && m[from].0 != YamlTree::Text(key) {
        lemma_yaml_place(m, key, from + 1);
    }
}

pub proof fn lemma_yaml_place_is(
    m: Seq<(YamlTree, YamlTree)>,
    key: Seq<char>,
    from: int,
    at: int,
)
    requires
        0 <= from <= at <= m.len(),
        at < m.len() ==> m[at].0 == YamlTree::Text(key),
        forall|i: int| from <= i < at ==> (#[trigger] m[i]).0 != YamlTree::Text(key),
    ensures
        yaml_place(m, key, from) == at,
    decreases at - from,
{
    if from < at {
        lemma_yaml_place_is(m, key, from + 1, at);
    }
}

/// The mapping with `value` for `key`: in the place of what it held for it, or
/// else at its end.
pub open spec fn yaml_put(m: Seq<(YamlTree, YamlTree)>, key: Seq<char>, value: YamlTree) -> Seq<
    (YamlTree, YamlTree),
> {
    let i = yaml_place(m, key, 0);
    if i < m.len() {
        m.update(i, (YamlTree::Text(key), value))
    } else {
        m.push((YamlTree::Text(key), value))
    }
}

/// Puts `value` for `key` into a mapping.
pub fn put_yaml(m: &mut Vec<(Yaml, Yaml)>, key: &str, value: Yaml)
    ensures
        mapping(final(m)@) == yaml_put(mapping(old(m)@), key@, yaml_tree(value)),
{
    let ghost before = m@;
    let ghost v = yaml_tree(value);
    proof {
        lemma_yaml_pairs(before, before.len());
    }
    let mut i: usize = 0;
    let mut at: usize = m.len();
    while i < m.len() && at == m.len()
        invariant
            m@ == before,
            i <= m@.len(),
            mapping(before).len() == before.len(),
            forall|k: int|
                0 <= k < before.len() ==> #[trigger] mapping(before)[k] == (
                    yaml_tree(before[k].0),
                    yaml_tree(before[k].1),
                ),
            at <= m@.len(),
            at == m@.len() ==> forall|k: int|
                0 <= k < i ==> (#[trigger] mapping(before)[k]).0 != YamlTree::Text(key@),
            at < m@.len() ==> at < i && mapping(before)[at as int].0 == YamlTree::Text(key@)
                && forall|k: int|
                0 <= k < at ==> (#[trigger] mapping(before)[k]).0 != YamlTree::Text(key@),
        decreases m@.len() - i,
    {
        assert(mapping(before)[i as int].0 == yaml_tree(before[i as int].0));
        if let Yaml::Text(s) = &m[i].0 {
            if same(s.as_str(), key) {
                at = i;
            }
        }
        i = i + 1;
    }
    proof {
        lemma_yaml_place_is(mapping(before), key@, 0, at as int);
    }
    let name = Yaml::Text(key.to_owned());
    if at < m.len() {
        m.set(at, (name, value));
    } else {
        m.push((name, value));
    }
    proof {
        lemma_yaml_pairs(m@, m@.len());
        let want = yaml_put(mapping(before), key@, v);
        assert forall|k: int| 0 <= k < want.len() implies mapping(m@)[k] == want[k] by {
            assert(mapping(m@)[k] == (yaml_tree(m@[k].0), yaml_tree(m@[k].1)));
            if k != at {
                assert(mapping(before)[k] == (yaml_tree(before[k].0), yaml_tree(before[k].1)));
            }
        }
        assert(mapping(m@) =~= want);
    }
}

/// A value of TOML that a descriptor is given.
#[derive(Debug, PartialEq, Eq)]
pub enum Toml {
    Text(String),
    Flag(bool),
    Integer(i64),
    /// The bits of a floating-point number.
    Real(u64),
    Table(Vec<(String, Toml)>),
}

/// A value of TOML over text.
pub enum TomlTree {
    Text(Seq<char>),
    Flag(bool),
    Integer(i64),
    Real(u64),
    /// A date or a time, as it is written.
    Moment(Seq<char>),
    List(Seq<TomlTree>),
    Table(Map<Seq<char>, TomlTree>),
}

/// A value of TOML over text.
pub open spec fn toml_tree(v: Toml) -> TomlTree
    decreases v, 0nat,
{
    match v {
        Toml::Text(s) => TomlTree::Text(s@),
        Toml::Flag(b) => TomlTree::Flag(b),
        Toml::Integer(i) => TomlTree::Integer(i),
        Toml::Real(b) => TomlTree::Real(b),
        Toml::Table(t) => TomlTree::Table(toml_table(t@, t@.len())),
    }
}

/// The first `n` entries of a table over text; later entries of a key take the
/// place of earlier ones.
pub open spec fn toml_table(t: Seq<(String, Toml)>, n: nat) -> Map<Seq<char>, TomlTree>
    decreases t, n,
{
    if n == 0 || n > t.len() {
        Map::empty()
    } else {
        toml_table(t, (n - 1) as nat).insert(t[n - 1].0@, toml_tree(t[n - 1].1))
    }
}

/// A value of YAML as a value of TOML, or why it is none.
pub open spec fn converted(v: YamlTree) -> Result<TomlTree, Seq<char>>
    decreases v, 0nat,
{
    match v {
        YamlTree::Text(s) => Ok(TomlTree::Text(s)),
        YamlTree::Flag(b) => Ok(TomlTree::Flag(b)),
        YamlTree::Number(n) => match (n.integer, n.real) {
            (Some(i), _) => Ok(TomlTree::Integer(i)),
            (None, Some(b)) => Ok(TomlTree::Real(b)),
            (None, None) => Err("unsupported number in git entry"@),
        },
        YamlTree::Mapping(m) => match converted_pairs(m, m.len()) {
            Ok(t) => Ok(TomlTree::Table(t)),
            Err(e) => Err(e),
        },
        _ => Err("unsupported value type in git entry"@),
    }
}

/// The first `n` entries of a mapping as entries of a table, or why they are none.
pub open spec fn converted_pairs(m: Seq<(YamlTree, YamlTree)>, n: nat) -> Result<
    Map<Seq<char>, TomlTree>,
    Seq<char>,
>
    decreases m, n,
{
    if n == 0 || n > m.len() {
        Ok(Map::empty())
    } else {
        match converted_pairs(m, (n - 1) as nat) {
            Err(e) => Err(e),
            Ok(t) => match m[n - 1].0 {
                YamlTree::Text(key) => match converted(m[n - 1].1) {
                    Ok(v) => Ok(t.insert(key, v)),
                    Err(e) => Err(e),
                },
                _ => Err("non-string key in git entry"@),
            },
        }
    }
}

proof fn lemma_conversion_fails(m: Seq<(YamlTree, YamlTree)>, a: nat, b: nat)
    requires
        a <= b <= m.len(),
        converted_pairs(m, a) is Err,
    ensures
        converted_pairs(m, b) == converted_pairs(m, a),
    decreases b - a,
{
    if a < b {
        lemma_conversion_fails(m, a, (b - 1) as nat);
    }
}

/// Whether a value is made of texts, flags and mappings from texts, in which no
/// key occurs twice.
pub open spec fn plain(v: YamlTree) -> bool
    decreases v, 0nat,
{
    match v {
        YamlTree::Text(_) => true,
        YamlTree::Flag(_) => true,
        YamlTree::Mapping(m) => plain_pairs(m, m.len()),
        _ => false,
    }
}

/// Whether the first `n` entries of a mapping are made of such values.
pub open spec fn plain_pairs(m: Seq<(YamlTree, YamlTree)>, n: nat) -> bool
    decreases m, n,
{
    n == 0 || n > m.len() || (plain_pairs(m, (n - 1) as nat) && m[n - 1].0 is Text && yaml_place(
        m,
        m[n - 1].0->Text_0,
        0,
    ) == n - 1 && plain(m[n - 1].1))
}

/// Whether a value is made of texts, flags and tables.
pub open spec fn simple(v: Toml) -> bool
    decreases v, 0nat,
{
    match v {
        Toml::Text(_) => true,
        Toml::Flag(_) => true,
        Toml::Table(t) => simple_table(t@, t@.len()),
        _ => false,
    }
}

/// Whether the first `n` entries of a table are made of such values.
pub open spec fn simple_table(t: Seq<(String, Toml)>, n: nat) -> bool
    decreases t, n,
{
    n == 0 || n > t.len() || (simple_table(t, (n - 1) as nat) && simple(t[n - 1].1))
}

pub proof fn lemma_plain_pair(m: Seq<(YamlTree, YamlTree)>, n: nat, i: int)
    requires
        n <= m.len(),
        plain_pairs(m, n),
        0 <= i < n,
    ensures
        m[i].0 is Text,
        yaml_place(m, m[i].0->Text_0, 0) == i,
        plain(m[i].1),
    decreases n,
{
    if i < n - 1 {
        lemma_plain_pair(m, (n - 1) as nat, i);
    }
}

proof fn lemma_plain_if(m: Seq<(YamlTree, YamlTree)>, n: nat)
    requires
        n <= m.len(),
        forall|i: int|
            0 <= i < n ==> (#[trigger] m[i]).0 is Text && yaml_place(m, m[i].0->Text_0, 0) == i
                && plain(m[i].1),
    ensures
        plain_pairs(m, n),
    decreases n,
{
    if n > 0 {
        lemma_plain_if(m, (n - 1) as nat);
        assert(m[n - 1].0 is Text);
    }
}

/// A mapping of plain values stays one when a plain value is put.
pub proof fn lemma_put_plain(m: Seq<(YamlTree, YamlTree)>, key: Seq<char>, value: YamlTree)
    requires
        plain_pairs(m, m.len()),
        plain(value),
    ensures
        plain_pairs(yaml_put(m, key, value), yaml_put(m, key, value).len()),
{
    let r = yaml_put(m, key, value);
    let at = yaml_place(m, key, 0);
    lemma_yaml_place(m, key, 0);
    assert forall|i: int| 0 <= i < r.len() implies (#[trigger] r[i]).0 is Text && yaml_place(
        r,
        r[i].0->Text_0,
        0,
    ) == i && plain(r[i].1) by {
        if i == at {
            assert forall|k: int| 0 <= k < at implies (#[trigger] r[k]).0 != YamlTree::Text(
                key,
            ) by {
                assert(r[k] == m[k]);
            }
            lemma_yaml_place_is(r, key, 0, at);
        } else {
            assert(r[i] == m[i]);
            lemma_plain_pair(m, m.len(), i);
            let other = m[i].0->Text_0;
            lemma_yaml_place(m, other, 0);
            assert(other != key) by {
                if other == key {
                    assert(at == i);
                }
            }
            assert forall|k: int| 0 <= k < i implies (#[trigger] r[k]).0 != YamlTree::Text(
                other,
            ) by {
                if k != at {
                    assert(r[k] == m[k]);
                }
            }
            lemma_yaml_place_is(r, other, 0, i);
        }
    }
    lemma_plain_if(r, r.len());
}

proof fn lemma_simple_opening(a: Seq<(String, Toml)>, b: Seq<(String, Toml)>, n: nat)
    requires
        n <= a.len() <= b.len(),
        a =~= b.take(a.len() as int),
    ensures
        simple_table(b, n) == simple_table(a, n),
    decreases n,
{
    if n > 0 {
        lemma_simple_opening(a, b, (n - 1) as nat);
        assert(b[n - 1] == b.take(a.len() as int)[n - 1]);
    }
}

/// What a mapping holds for `key`.
pub open spec fn yaml_lookup(m: Seq<(YamlTree, YamlTree)>, key: Seq<char>) -> Option<YamlTree> {
    let i = yaml_place(m, key, 0);
    if i < m.len() {
        Some(m[i].1)
    } else {
        None
    }
}

/// Putting a value makes it the one that is found for its key, and leaves what is
/// found for every other key.
pub proof fn putting_sets_one_entry(
    m: Seq<(YamlTree, YamlTree)>,
    key: Seq<char>,
    value: YamlTree,
    other: Seq<char>,
)
    ensures
        yaml_lookup(yaml_put(m, key, value), key) == Some(value),
        other != key ==> yaml_lookup(yaml_put(m, key, value), other) == yaml_lookup(m, other),
{
    let r = yaml_put(m, key, value);
    let at = yaml_place(m, key, 0);
    lemma_yaml_place(m, key, 0);
    lemma_yaml_place(m, other, 0);
    assert forall|k: int| 0 <= k < at implies (#[trigger] r[k]).0 != YamlTree::Text(key) by {
        assert(r[k] == m[k]);
    }
    lemma_yaml_place_is(r, key, 0, at);
    if other != key {
        let i = yaml_place(m, other, 0);
        let j = if i < m.len() {
            i
        } else {
            r.len() as int
        };
        assert forall|k: int| 0 <= k < j implies (#[trigger] r[k]).0 != YamlTree::Text(other) by {
            if k != at {
                assert(r[k] == m[k]);
            }
        }
        lemma_yaml_place_is(r, other, 0, j);
    }
}

/// A mapping of YAML as a table of TOML.
pub fn yaml_mapping_to_toml(m: &Vec<(Yaml, Yaml)>) -> (r: Result<Toml, String>)
    ensures
        match (converted_pairs(mapping(m@), m@.len()), r) {
            (Ok(t), Ok(v)) => toml_tree(v) == TomlTree::Table(t),
            (Err(e), Err(s)) => s@ == e,
            _ => false,
        },
        plain_pairs(mapping(m@), m@.len()) ==> r is Ok && simple(r->Ok_0),
    decreases m,
{
    let ghost all = mapping(m@);
    proof {
        lemma_yaml_pairs(m@, m@.len());
    }
    let mut t: Vec<(String, Toml)> = Vec::new();
    let mut i: usize = 0;
    while i < m.len()
        invariant
            i <= m@.len(),
            all == mapping(m@),
            all.len() == m@.len(),
            forall|k: int|
                0 <= k < m@.len() ==> #[trigger] all[k] == (yaml_tree(m@[k].0), yaml_tree(m@[k].1)),
            converted_pairs(all, i as nat) == Ok::<Map<Seq<char>, TomlTree>, Seq<char>>(
                toml_table(t@, t@.len()),
            ),
            plain_pairs(all, all.len()) ==> simple_table(t@, t@.len()),
        decreases m@.len() - i,
    {
        assert(all[i as int] == (yaml_tree(m@[i as int].0), yaml_tree(m@[i as int].1)));
        proof {
            if plain_pairs(all, all.len()) {
                lemma_plain_pair(all, all.len(), i as int);
            }
        }
        let key = match &m[i].0 {
            Yaml::Text(s) => s.clone(),
            _ => {
                proof {
                    lemma_conversion_fails(all, (i + 1) as nat, m@.len());
                }
                return Err("non-string key in git entry".to_owned());
            },
        };
        assert(decreases_to!(m => m@[i as int].1));
        let value = match yaml_value_to_toml(&m[i].1) {
            Ok(v) => v,
            Err(e) => {
                proof {
                    lemma_conversion_fails(all, (i + 1) as nat, m@.len());
                }
                return Err(e);
            },
        };
        let ghost before = t@;
        t.push((key, value));
        proof {
            lemma_table_opening(before, t@, before.len());
            lemma_simple_opening(before, t@, before.len());
        }
        i = i + 1;
    }
    Ok(Toml::Table(t))
}

proof fn lemma_table_opening(a: Seq<(String, Toml)>, b: Seq<(String, Toml)>, n: nat)
    requires
        n <= a.len() <= b.len(),
        a =~= b.take(a.len() as int),
    ensures
        toml_table(b, n) == toml_table(a, n),
    decreases n,
{
    if n > 0 {
        lemma_table_opening(a, b, (n - 1) as nat);
        assert(b[n - 1] == b.take(a.len() as int)[n - 1]);
    }
}

/// A value of YAML as a value of TOML.
pub fn yaml_value_to_toml(v: &Yaml) -> (r: Result<Toml, String>)
    ensures
        match (converted(yaml_tree(*v)), r) {
            (Ok(t), Ok(v)) => toml_tree(v) == t,
            (Err(e), Err(s)) => s@ == e,
            _ => false,
        },
        plain(yaml_tree(*v)) ==> r is Ok && simple(r->Ok_0),
    decreases v,
{
    match v {
        Yaml::Text(s) => Ok(Toml::Text(s.clone())),
        Yaml::Flag(b) => Ok(Toml::Flag(*b)),
        Yaml::Number(n) => {
            if let Some(i) = n.integer {
                Ok(Toml::Integer(i))
            } else if let Some(b) = n.real {
                Ok(Toml::Real(b))
            } else {
                Err("unsupported number in git entry".to_owned())
            }
        },
        Yaml::Mapping(m) => {
            proof {
                lemma_yaml_pairs(m@, m@.len());
            }
            yaml_mapping_to_toml(m)
        },
        _ => Err("unsupported value type in git entry".to_owned()),
    }
}

/// Turned into TOML, a mapping keeps every entry and gains none: texts and flags as
/// they are, mappings as tables.
pub proof fn conversion_keeps_every_entry(m: Seq<(YamlTree, YamlTree)>, n: nat, key: Seq<char>)
    requires
        n <= m.len(),
        plain_pairs(m, n),
    ensures
        converted_pairs(m, n) matches Ok(t) && {
            &&& t.contains_key(key) <==> exists|i: int|
                0 <= i < n && (#[trigger] m[i]).0 == YamlTree::Text(key)
            &&& forall|i: int|
                0 <= i < n && (#[trigger] m[i]).0 == YamlTree::Text(key) ==> match m[i].1 {
                    YamlTree::Text(s) => t[key] == TomlTree::Text(s),
                    YamlTree::Flag(b) => t[key] == TomlTree::Flag(b),
                    YamlTree::Mapping(inner) => t[key] is Table && converted_pairs(
                        inner,
                        inner.len(),
                    ) == Ok::<Map<Seq<char>, TomlTree>, Seq<char>>(t[key]->Table_0),
                    _ => true,
                }
        },
    decreases m, n,
{
    if n > 0 {
        conversion_keeps_every_entry(m, (n - 1) as nat, key);
        lemma_plain_pair(m, n, n - 1);
        let last = m[n - 1];
        if let YamlTree::Mapping(inner) = last.1 {
            conversion_keeps_every_entry(inner, inner.len(), key);
        }
        assert forall|i: int| 0 <= i < n - 1 && (#[trigger] m[i]).0 == YamlTree::Text(key) implies last.0
            != YamlTree::Text(key) by {
            lemma_plain_pair(m, n, i);
        }
        assert(last.1 is Text || last.1 is Flag || last.1 is Mapping);
        let before = converted_pairs(m, (n - 1) as nat)->Ok_0;
        assert(converted(last.1) is Ok);
        let t = converted_pairs(m, n)->Ok_0;
        assert(t == before.insert(last.0->Text_0, converted(last.1)->Ok_0));
        if last.0 == YamlTree::Text(key) {
            assert(m[n - 1].0 == YamlTree::Text(key));
            assert(t.contains_key(key));
        }
    }
}

} // verus!
