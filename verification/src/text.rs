//! Text as a sequence of characters: searching, cutting, joining and ordering.

use vstd::prelude::*;

verus! {

/// The contents of a list of strings.
pub open spec fn texts(v: Seq<String>) -> Seq<Seq<char>> {
    v.map_values(|s: String| s@)
}

/// The contents of a string that may be missing.
pub open spec fn opt_text(s: Option<String>) -> Option<Seq<char>> {
    match s {
        Some(t) => Some(t@),
        None => None,
    }
}

/// The first position at or after `from` that holds `c`, or the length of `s`.
pub open spec fn find_char(s: Seq<char>, c: char, from: int) -> int
    decreases s.len() - from,
{
    if from >= s.len() {
        s.len() as int
    } else if s[from] == c {
        from
    } else {
        find_char(s, c, from + 1)
    }
}

/// The pieces of `s` from position `from` on, cut at every `c`.
pub open spec fn split_from(s: Seq<char>, c: char, from: int) -> Seq<Seq<char>>
    decreases s.len() - from + 1,
    when from <= s.len() via split_from_decreases
{
    let end = find_char(s, c, from);
    if end >= s.len() {
        seq![s.subrange(from, s.len() as int)]
    } else {
        seq![s.subrange(from, end)] + split_from(s, c, end + 1)
    }
}

#[via_fn]
proof fn split_from_decreases(s: Seq<char>, c: char, from: int) {
    lemma_find_char(s, c, from);
}

/// The pieces of `s` between the occurrences of `c`: one more than there are
/// occurrences.
pub open spec fn split(s: Seq<char>, c: char) -> Seq<Seq<char>> {
    split_from(s, c, 0)
}

/// The parts one after the other, with `sep` between each two.
pub open spec fn join(parts: Seq<Seq<char>>, sep: Seq<char>) -> Seq<char>
    decreases parts.len(),
{
    if parts.len() == 0 {
        Seq::empty()
    } else if parts.len() == 1 {
        parts[0]
    } else {
        join(parts.drop_last(), sep) + sep + parts.last()
    }
}

/// Whether `a` stands before `b` in the order of their code points.
pub open spec fn text_lt(a: Seq<char>, b: Seq<char>) -> bool
    decreases a.len(),
{
    if b.len() == 0 {
        false
    } else if a.len() == 0 {
        true
    } else if a[0] == b[0] {
        text_lt(a.drop_first(), b.drop_first())
    } else {
        (a[0] as int) < (b[0] as int)
    }
}

/// `s` with every `from` replaced by `to`.
pub open spec fn replaced(s: Seq<char>, from: char, to: char) -> Seq<char> {
    s.map_values(|c: char| if c == from { to } else { c })
}

/// The digit `d` as a character.
pub open spec fn digit(d: nat) -> char {
    (d + ('0' as nat)) as char
}

/// `n` in decimal digits.
pub open spec fn decimal(n: nat) -> Seq<char>
    decreases n,
{
    if n < 10 {
        seq![digit(n)]
    } else {
        decimal(n / 10).push(digit(n % 10))
    }
}

pub proof fn lemma_find_char(s: Seq<char>, c: char, from: int)
    requires
        from <= s.len(),
    ensures
        from <= find_char(s, c, from) <= s.len(),
        find_char(s, c, from) < s.len() && 0 <= from ==> s[find_char(s, c, from)] == c,
        forall|i: int| 0 <= i && from <= i < find_char(s, c, from) ==> s[i] != c,
    decreases s.len() - from,
{
    if from < s.len() && s[from] != c {
        lemma_find_char(s, c, from + 1);
    }
}

pub proof fn lemma_find_char_is(s: Seq<char>, c: char, from: int, at: int)
    requires
        0 <= from <= at <= s.len(),
        at < s.len() ==> s[at] == c,
        forall|i: int| from <= i < at ==> s[i] != c,
    ensures
        find_char(s, c, from) == at,
    decreases at - from,
{
    if from < at {
        lemma_find_char_is(s, c, from + 1, at);
    }
}

/// `String::push` appends one character.
pub assume_specification[ String::push ](s: &mut String, c: char)
    ensures
        final(s)@ == old(s)@.push(c),
;

/// `s` with every `from` replaced by `to`.
pub fn replace_char(s: &str, from: char, to: char) -> (r: String)
    ensures
        r@ == replaced(s@, from, to),
{
    let v = to_chars(s);
    let mut r = String::new();
    let mut i: usize = 0;
    while i < v.len()
        invariant
            v@ == s@,
            i <= v@.len(),
            r@ == replaced(s@, from, to).take(i as int),
        decreases v@.len() - i,
    {
        let c: char = v[i];
        r.push(if c == from { to } else { c });
        assert(r@ =~= replaced(s@, from, to).take(i + 1));
        i = i + 1;
    }
    assert(replaced(s@, from, to).take(v@.len() as int) =~= replaced(s@, from, to));
    r
}

/// The characters of `s`.
pub fn to_chars(s: &str) -> (v: Vec<char>)
    ensures
        v@ == s@,
{
    let mut v: Vec<char> = Vec::new();
    for c in it: s.chars()
        invariant
            v@ == it.seq().take(it.index()),
            it.seq() == s@,
    {
        v.push(c);
    }
    v
}

/// Whether two texts are the same.
pub fn same(a: &str, b: &str) -> (r: bool)
    ensures
        r == (a@ == b@),
{
    a.to_owned() == b.to_owned()
}

/// The text of `a` and then that of `b`.
pub fn concat2(a: &str, b: &str) -> (r: String)
    ensures
        r@ == a@ + b@,
{
    let mut r = a.to_owned();
    r.append(b);
    r
}

/// The texts of `a`, `b` and `c` in a row.
pub fn concat3(a: &str, b: &str, c: &str) -> (r: String)
    ensures
        r@ == a@ + b@ + c@,
{
    let mut r = concat2(a, b);
    r.append(c);
    r
}

/// The characters of `s` from `from` up to `to`.
pub fn cut(s: &str, from: usize, to: usize) -> (r: String)
    requires
        from <= to <= s@.len(),
    ensures
        r@ == s@.subrange(from as int, to as int),
{
    s.substring_char(from, to).to_owned()
}

/// Where `c` first stands in `v` at or after `from`.
pub fn find_char_in(v: &Vec<char>, c: char, from: usize) -> (r: usize)
    requires
        from <= v@.len(),
    ensures
        r == find_char(v@, c, from as int),
        from <= r <= v@.len(),
{
    let mut i: usize = from;
    while i < v.len() && v[i] != c
        invariant
            from <= i <= v@.len(),
            forall|j: int| from <= j < i ==> v@[j] != c,
        decreases v@.len() - i,
    {
        i = i + 1;
    }
    proof {
        lemma_find_char_is(v@, c, from as int, i as int);
    }
    i
}

/// Whether `c` occurs in `s`.
pub fn contains_char(s: &str, c: char) -> (r: bool)
    ensures
        r == s@.contains(c),
{
    let v = to_chars(s);
    let at: usize = find_char_in(&v, c, 0);
    proof {
        lemma_find_char(v@, c, 0);
    }
    assert(at < v@.len() ==> s@[at as int] == c);
    at < v.len()
}

/// The pieces of `s` between the occurrences of `c`.
pub fn split_at_char(s: &str, c: char) -> (parts: Vec<String>)
    ensures
        texts(parts@) == split(s@, c),
{
    let v = to_chars(s);
    let n: usize = v.len();
    let mut parts: Vec<String> = Vec::new();
    let mut start: usize = 0;
    let mut end: usize = find_char_in(&v, c, 0);
    while end < n
        invariant
            v@ == s@,
            n == v@.len(),
            start <= end <= n,
            end == find_char(s@, c, start as int),
            texts(parts@) + split_from(s@, c, start as int) == split(s@, c),
        decreases n - start,
    {
        let ghost before = parts@;
        parts.push(cut(s, start, end));
        assert(texts(parts@) =~= texts(before).push(s@.subrange(start as int, end as int)));
        assert(texts(parts@) + split_from(s@, c, end + 1) =~= texts(before) + split_from(
            s@,
            c,
            start as int,
        ));
        start = end + 1;
        end = find_char_in(&v, c, start);
    }
    let ghost before = parts@;
    parts.push(cut(s, start, n));
    assert(texts(parts@) =~= texts(before) + split_from(s@, c, start as int));
    parts
}

/// Whether `s` begins with `prefix`.
pub fn starts_with(s: &str, prefix: &str) -> (r: bool)
    ensures
        r == prefix@.is_prefix_of(s@),
{
    let n: usize = prefix.unicode_len();
    n <= s.unicode_len() && same(s.substring_char(0, n), prefix)
}

/// Whether `s` ends with `suffix`.
pub fn ends_with(s: &str, suffix: &str) -> (r: bool)
    ensures
        r == suffix@.is_suffix_of(s@),
{
    let n: usize = suffix.unicode_len();
    let len: usize = s.unicode_len();
    n <= len && same(s.substring_char(len - n, len), suffix)
}

/// Whether the characters of `chars` occur in `s` one after the other, with or
/// without others between them.
pub open spec fn occur_in_turn(chars: Seq<char>, s: Seq<char>) -> bool
    decreases s.len(),
{
    if chars.len() == 0 {
        true
    } else if s.len() == 0 {
        false
    } else if s[0] == chars[0] {
        occur_in_turn(chars.skip(1), s.skip(1))
    } else {
        occur_in_turn(chars, s.skip(1))
    }
}

/// Whether the characters of `chars` occur in `s` one after the other.
pub fn occur_in_turn_in(chars: &str, s: &str) -> (r: bool)
    ensures
        r == occur_in_turn(chars@, s@),
{
    let wanted = to_chars(chars);
    let v = to_chars(s);
    let mut k: usize = 0;
    let mut i: usize = 0;
    assert(wanted@.skip(0) =~= wanted@);
    assert(v@.skip(0) =~= v@);
    while i < v.len() && k < wanted.len()
        invariant
            i <= v@.len(),
            k <= wanted@.len(),
            wanted@ == chars@,
            v@ == s@,
            occur_in_turn(chars@, s@) == occur_in_turn(wanted@.skip(k as int), v@.skip(i as int)),
        decreases v@.len() - i,
    {
        assert(v@.skip(i as int).skip(1) =~= v@.skip(i + 1));
        assert(wanted@.skip(k as int).skip(1) =~= wanted@.skip(k + 1));
        if v[i] == wanted[k] {
            k = k + 1;
        }
        i = i + 1;
    }
    k == wanted.len()
}

/// What follows `prefix` in `s`, where `s` begins with it.
pub fn strip_prefix(s: &str, prefix: &str) -> (r: Option<String>)
    ensures
        r is Some == prefix@.is_prefix_of(s@),
        r is Some ==> r->0@ == s@.skip(prefix@.len() as int),
{
    if starts_with(s, prefix) {
        Some(cut(s, prefix.unicode_len(), s.unicode_len()))
    } else {
        None
    }
}

/// What precedes `suffix` in `s`, where `s` ends with it.
pub fn strip_suffix(s: &str, suffix: &str) -> (r: Option<String>)
    ensures
        r is Some == suffix@.is_suffix_of(s@),
        r is Some ==> r->0@ == s@.take(s@.len() - suffix@.len()),
{
    if ends_with(s, suffix) {
        Some(cut(s, 0, s.unicode_len() - suffix.unicode_len()))
    } else {
        None
    }
}

/// The parts one after the other, with `sep` between each two.
pub fn join_texts(parts: &Vec<String>, sep: &str) -> (r: String)
    ensures
        r@ == join(texts(parts@), sep@),
{
    let mut r = String::new();
    let mut i: usize = 0;
    while i < parts.len()
        invariant
            i <= parts@.len(),
            r@ == join(texts(parts@).take(i as int), sep@),
        decreases parts@.len() - i,
    {
        let ghost all = texts(parts@);
        assert(all.take(i + 1).drop_last() =~= all.take(i as int));
        if i > 0 {
            r.append(sep);
        }
        r.append(parts[i].as_str());
        assert(r@ =~= join(all.take(i + 1), sep@));
        i = i + 1;
    }
    assert(texts(parts@).take(parts@.len() as int) =~= texts(parts@));
    r
}

fn char_less(a: char, b: char) -> (r: bool)
    ensures
        r == ((a as int) < (b as int)),
{
    let x: u32 = a as u32;
    let y: u32 = b as u32;
    assert(x == a as u32 && y == b as u32);
    x < y
}

/// Whether `a` stands before `b`.
pub fn less(a: &str, b: &str) -> (r: bool)
    ensures
        r == text_lt(a@, b@),
{
    let x = to_chars(a);
    let y = to_chars(b);
    let mut i: usize = 0;
    assert(a@.skip(0) =~= a@ && b@.skip(0) =~= b@);
    while i < x.len() && i < y.len() && x[i] == y[i]
        invariant
            x@ == a@,
            y@ == b@,
            i <= x@.len(),
            i <= y@.len(),
            text_lt(a@, b@) == text_lt(a@.skip(i as int), b@.skip(i as int)),
        decreases x@.len() - i,
    {
        assert(a@.skip(i as int).drop_first() =~= a@.skip(i + 1));
        assert(b@.skip(i as int).drop_first() =~= b@.skip(i + 1));
        i = i + 1;
    }
    if i >= y.len() {
        false
    } else if i >= x.len() {
        true
    } else {
        char_less(x[i], y[i])
    }
}

pub proof fn lemma_text_lt_irreflexive(a: Seq<char>)
    ensures
        !text_lt(a, a),
    decreases a.len(),
{
    if a.len() > 0 {
        lemma_text_lt_irreflexive(a.drop_first());
    }
}

pub proof fn lemma_text_lt_transitive(a: Seq<char>, b: Seq<char>, c: Seq<char>)
    requires
        text_lt(a, b),
        text_lt(b, c),
    ensures
        text_lt(a, c),
    decreases a.len(),
{
    if a.len() > 0 && a[0] == b[0] && b[0] == c[0] {
        lemma_text_lt_transitive(a.drop_first(), b.drop_first(), c.drop_first());
    }
}

pub proof fn lemma_text_lt_total(a: Seq<char>, b: Seq<char>)
    ensures
        text_lt(a, b) || a == b || text_lt(b, a),
    decreases a.len(),
{
    if a.len() > 0 && b.len() > 0 && a[0] == b[0] {
        lemma_text_lt_total(a.drop_first(), b.drop_first());
        if a.drop_first() == b.drop_first() {
            assert(a =~= seq![a[0]] + a.drop_first());
            assert(b =~= seq![b[0]] + b.drop_first());
        }
    } else if a.len() == 0 && b.len() == 0 {
        assert(a =~= b);
    }
}

fn digit_text(d: u64) -> (r: String)
    requires
        d < 10,
    ensures
        r@ == seq![digit(d as nat)],
{
    proof {
        reveal_strlit("0");
        reveal_strlit("1");
        reveal_strlit("2");
        reveal_strlit("3");
        reveal_strlit("4");
        reveal_strlit("5");
        reveal_strlit("6");
        reveal_strlit("7");
        reveal_strlit("8");
        reveal_strlit("9");
    }
    let r = if d == 0 {
        "0"
    } else if d == 1 {
        "1"
    } else if d == 2 {
        "2"
    } else if d == 3 {
        "3"
    } else if d == 4 {
        "4"
    } else if d == 5 {
        "5"
    } else if d == 6 {
        "6"
    } else if d == 7 {
        "7"
    } else if d == 8 {
        "8"
    } else {
        "9"
    };
    assert(r@ =~= seq![digit(d as nat)]);
    r.to_owned()
}

/// `n` in decimal digits.
pub fn decimal_text(n: u64) -> (r: String)
    ensures
        r@ == decimal(n as nat),
    decreases n,
{
    if n < 10 {
        digit_text(n)
    } else {
        let mut r = decimal_text(n / 10);
        let last = digit_text(n % 10);
        r.append(last.as_str());
        assert(r@ =~= decimal(n as nat));
        r
    }
}

/// Whether `c` is white space, as Unicode has it.
pub open spec fn is_white(c: char) -> bool {
    let n = c as u32;
    ||| 9 <= n <= 13
    ||| n == 32
    ||| n == 0x85
    ||| n == 0xA0
    ||| n == 0x1680
    ||| 0x2000 <= n <= 0x200A
    ||| n == 0x2028
    ||| n == 0x2029
    ||| n == 0x202F
    ||| n == 0x205F
    ||| n == 0x3000
}

/// Whether `c` is white space.
pub fn is_white_char(c: char) -> (r: bool)
    ensures
        r == is_white(c),
{
    let n: u32 = c as u32;
    (9 <= n && n <= 13) || n == 32 || n == 0x85 || n == 0xA0 || n == 0x1680 || (0x2000 <= n && n
        <= 0x200A) || n == 0x2028 || n == 0x2029 || n == 0x202F || n == 0x205F || n == 0x3000
}

/// `s` without a carriage return at its end.
pub open spec fn without_return(s: Seq<char>) -> Seq<char> {
    if s.len() > 0 && s.last() == '\r' {
        s.drop_last()
    } else {
        s
    }
}

/// The lines of `s`, without the newline or the carriage return and newline that
/// ends each; nothing follows the last newline.
pub open spec fn lines(s: Seq<char>) -> Seq<Seq<char>> {
    let pieces = split(s, '\n');
    let ended = pieces.drop_last().map_values(|p: Seq<char>| without_return(p));
    if pieces.last().len() == 0 {
        ended
    } else {
        ended.push(pieces.last())
    }
}

pub proof fn lemma_split_from_len(s: Seq<char>, c: char, from: int)
    requires
        from <= s.len(),
    ensures
        split_from(s, c, from).len() > 0,
    decreases s.len() - from + 1,
{
    lemma_find_char(s, c, from);
    if find_char(s, c, from) < s.len() {
        lemma_split_from_len(s, c, find_char(s, c, from) + 1);
    }
}

/// The lines of `s`.
pub fn split_lines(s: &str) -> (r: Vec<String>)
    ensures
        texts(r@) == lines(s@),
{
    let mut pieces = split_at_char(s, '\n');
    let ghost all = split(s@, '\n');
    let ghost given = pieces@;
    proof {
        lemma_split_from_len(s@, '\n', 0);
        assert(texts(pieces@).len() == pieces@.len());
    }
    let last: usize = pieces.len() - 1;
    let ghost ended = all.drop_last().map_values(|p: Seq<char>| without_return(p));
    let mut r: Vec<String> = Vec::new();
    let mut i: usize = 0;
    assert(texts(r@) =~= ended.take(0));
    while i < last
        invariant
            texts(pieces@) == all,
            pieces@.len() == last + 1,
            i <= last,
            ended == all.drop_last().map_values(|p: Seq<char>| without_return(p)),
            texts(r@) == ended.take(i as int),
        decreases last - i,
    {
        let ghost before = r@;
        let piece = pieces[i].as_str();
        assert(all[i as int] == piece@);
        let n: usize = piece.unicode_len();
        if n > 0 && piece.get_char(n - 1) == '\r' {
            r.push(cut(piece, 0, n - 1));
            assert(r@.last()@ =~= without_return(piece@));
        } else {
            r.push(piece.to_owned());
        }
        assert(texts(r@) =~= texts(before).push(ended[i as int]));
        assert(texts(r@) =~= ended.take(i + 1));
        i = i + 1;
    }
    assert(ended.take(last as int) =~= ended);
    assert(all.last() == pieces@[last as int]@);
    if pieces[last].as_str().unicode_len() > 0 {
        let ghost before = r@;
        r.push(pieces[last].clone());
        assert(texts(r@) =~= texts(before).push(all.last()));
    }
    r
}

/// `s` without every `c` at its start.
pub open spec fn trim_start(s: Seq<char>, c: char) -> Seq<char>
    decreases s.len(),
{
    if s.len() > 0 && s[0] == c {
        trim_start(s.drop_first(), c)
    } else {
        s
    }
}

/// `s` without every `c` at its end.
pub open spec fn trim_end(s: Seq<char>, c: char) -> Seq<char>
    decreases s.len(),
{
    if s.len() > 0 && s.last() == c {
        trim_end(s.drop_last(), c)
    } else {
        s
    }
}

/// `s` without every `c` at its start and its end.
pub fn trim_char(s: &str, c: char) -> (r: String)
    ensures
        r@ == trim_end(trim_start(s@, c), c),
{
    let v = to_chars(s);
    let mut from: usize = 0;
    assert(s@.skip(0) =~= s@);
    while from < v.len() && v[from] == c
        invariant
            v@ == s@,
            from <= v@.len(),
            trim_start(s@, c) == trim_start(s@.skip(from as int), c),
        decreases v@.len() - from,
    {
        assert(s@.skip(from as int).drop_first() =~= s@.skip(from + 1));
        from = from + 1;
    }
    let ghost rest = trim_start(s@, c);
    assert(rest =~= s@.subrange(from as int, v@.len() as int));
    let mut to: usize = v.len();
    while to > from && v[to - 1] == c
        invariant
            v@ == s@,
            from <= to <= v@.len(),
            trim_end(rest, c) == trim_end(s@.subrange(from as int, to as int), c),
        decreases to - from,
    {
        assert(s@.subrange(from as int, to as int).drop_last() =~= s@.subrange(
            from as int,
            to - 1,
        ));
        to = to - 1;
    }
    cut(s, from, to)
}

/// The first position at or after `from` where white space stands (`white`) or
/// does not (`!white`), or the length of `s`.
pub open spec fn find_white(s: Seq<char>, white: bool, from: int) -> int
    decreases s.len() - from,
{
    if from >= s.len() {
        s.len() as int
    } else if is_white(s[from]) == white {
        from
    } else {
        find_white(s, white, from + 1)
    }
}

pub proof fn lemma_find_white(s: Seq<char>, white: bool, from: int)
    requires
        0 <= from <= s.len(),
    ensures
        from <= find_white(s, white, from) <= s.len(),
        find_white(s, white, from) < s.len() ==> is_white(s[find_white(s, white, from)]) == white,
        forall|i: int| from <= i < find_white(s, white, from) ==> is_white(s[i]) != white,
    decreases s.len() - from,
{
    if from < s.len() && is_white(s[from]) != white {
        lemma_find_white(s, white, from + 1);
    }
}

proof fn lemma_find_white_is(s: Seq<char>, white: bool, from: int, at: int)
    requires
        0 <= from <= at <= s.len(),
        at < s.len() ==> is_white(s[at]) == white,
        forall|i: int| from <= i < at ==> is_white(s[i]) != white,
    ensures
        find_white(s, white, from) == at,
    decreases at - from,
{
    if from < at {
        lemma_find_white_is(s, white, from + 1, at);
    }
}

fn find_white_in(v: &Vec<char>, white: bool, from: usize) -> (r: usize)
    requires
        from <= v@.len(),
    ensures
        r == find_white(v@, white, from as int),
        from <= r <= v@.len(),
{
    let mut i: usize = from;
    while i < v.len() && is_white_char(v[i]) != white
        invariant
            from <= i <= v@.len(),
            forall|j: int| from <= j < i ==> is_white(v@[j]) != white,
        decreases v@.len() - i,
    {
        i = i + 1;
    }
    proof {
        lemma_find_white_is(v@, white, from as int, i as int);
    }
    i
}

/// The words of `s` from `from` on: its longest runs without white space.
pub open spec fn words_from(s: Seq<char>, from: int) -> Seq<Seq<char>>
    decreases s.len() - from,
    when 0 <= from <= s.len() via words_from_decreases
{
    let start = find_white(s, false, from);
    if start >= s.len() {
        seq![]
    } else {
        let end = find_white(s, true, start);
        seq![s.subrange(start, end)] + words_from(s, end)
    }
}

#[via_fn]
proof fn words_from_decreases(s: Seq<char>, from: int) {
    lemma_find_white(s, false, from);
    lemma_find_white(s, true, find_white(s, false, from));
}

/// The words of `s`.
pub open spec fn words(s: Seq<char>) -> Seq<Seq<char>> {
    words_from(s, 0)
}

/// The words of `s`: its longest runs without white space.
pub fn split_words(s: &str) -> (parts: Vec<String>)
    ensures
        texts(parts@) == words(s@),
{
    let v = to_chars(s);
    let n: usize = v.len();
    let mut parts: Vec<String> = Vec::new();
    let mut at: usize = 0;
    let mut start: usize = find_white_in(&v, false, 0);
    assert(texts(parts@) + words_from(s@, 0) =~= words(s@));
    while start < n
        invariant
            v@ == s@,
            n == v@.len(),
            at <= start <= n,
            start == find_white(s@, false, at as int),
            texts(parts@) + words_from(s@, at as int) == words(s@),
        decreases n - at,
    {
        let ghost before = parts@;
        let end: usize = find_white_in(&v, true, start);
        proof {
            lemma_find_white(s@, false, at as int);
            lemma_find_white(s@, true, start as int);
        }
        parts.push(cut(s, start, end));
        assert(texts(parts@) =~= texts(before).push(s@.subrange(start as int, end as int)));
        assert(texts(parts@) + words_from(s@, end as int) =~= texts(before) + words_from(
            s@,
            at as int,
        ));
        at = end;
        start = find_white_in(&v, false, at);
    }
    assert(texts(parts@) =~= texts(parts@) + words_from(s@, at as int));
    parts
}

/// Whether `s` holds nothing but white space.
pub fn is_blank(s: &str) -> (r: bool)
    ensures
        r == (forall|i: int| 0 <= i < s@.len() ==> is_white(s@[i])),
{
    let v = to_chars(s);
    let at: usize = find_white_in(&v, false, 0);
    proof {
        lemma_find_white(v@, false, 0);
    }
    at >= v.len()
}

/// `s` without every `suffix` at its end.
pub open spec fn without_endings(s: Seq<char>, suffix: Seq<char>) -> Seq<char>
    decreases s.len(),
{
    if suffix.len() > 0 && suffix.is_suffix_of(s) {
        without_endings(s.take(s.len() - suffix.len()), suffix)
    } else {
        s
    }
}

/// `s` without every `suffix` at its end.
pub fn trim_endings(s: &str, suffix: &str) -> (r: String)
    ensures
        r@ == without_endings(s@, suffix@),
{
    let mut r = s.to_owned();
    let n: usize = suffix.unicode_len();
    while n > 0 && ends_with(r.as_str(), suffix)
        invariant
            n == suffix@.len(),
            without_endings(s@, suffix@) == without_endings(r@, suffix@),
        decreases r@.len(),
    {
        let len: usize = r.as_str().unicode_len();
        let shorter = cut(r.as_str(), 0, len - n);
        assert(shorter@ =~= r@.take(r@.len() - n));
        r = shorter;
    }
    r
}

/// `s` with spaces before it, `width` characters long where it is shorter.
pub open spec fn padded(s: Seq<char>, width: nat) -> Seq<char>
    decreases width - s.len(),
{
    if s.len() >= width {
        s
    } else {
        padded(seq![' '] + s, width)
    }
}

/// `n` in decimal digits, with spaces before it up to `width` characters.
pub fn padded_number(n: u64, width: usize) -> (r: String)
    ensures
        r@ == padded(decimal(n as nat), width as nat),
{
    let mut r = decimal_text(n);
    while r.as_str().unicode_len() < width
        invariant
            padded(decimal(n as nat), width as nat) == padded(r@, width as nat),
        decreases width - r@.len(),
    {
        let longer = concat2(" ", r.as_str());
        proof {
            reveal_strlit(" ");
            assert(longer@ =~= seq![' '] + r@);
        }
        r = longer;
    }
    r
}

/// Whether one of the texts is `s`.
pub fn contains_text(v: &Vec<String>, s: &str) -> (r: bool)
    ensures
        r == texts(v@).contains(s@),
{
    let mut i: usize = 0;
    while i < v.len()
        invariant
            i <= v@.len(),
            forall|k: int| 0 <= k < i ==> #[trigger] texts(v@)[k] != s@,
        decreases v@.len() - i,
    {
        assert(texts(v@)[i as int] == v@[i as int]@);
        if same(v[i].as_str(), s) {
            return true;
        }
        i = i + 1;
    }
    false
}

/// The ending of a noun that counts `n` things.
pub open spec fn plural(n: nat) -> Seq<char> {
    if n == 1 {
        ""@
    } else {
        "s"@
    }
}

/// A count with its noun.
pub open spec fn counted(n: nat, noun: Seq<char>) -> Seq<char> {
    decimal(n) + " "@ + noun + plural(n)
}

/// A count with its noun.
pub fn counted_text(n: usize, noun: &str) -> (r: String)
    ensures
        r@ == counted(n as nat, noun@),
{
    let mut r = concat3(decimal_text(n as u64).as_str(), " ", noun);
    if n == 1 {
        r.append("");
    } else {
        r.append("s");
    }
    r
}

proof fn lemma_split_behind(s: Seq<char>, t: Seq<char>, c: char, from: int)
    requires
        0 <= from <= s.len(),
        s.len() == 0 || s.last() == c,
    ensures
        split_from(s + t, c, from) == split_from(s, c, from).drop_last() + split_from(
            s + t,
            c,
            s.len() as int,
        ),
        split_from(s, c, from).len() > 0,
        split_from(s, c, from).last().len() == 0,
    decreases s.len() - from,
{
    let st = s + t;
    lemma_find_char(s, c, from);
    if from < s.len() {
        let end = find_char(s, c, from);
        assert(end < s.len()) by {
            if end == s.len() {
                assert(s[s.len() - 1] != c);
            }
        }
        assert forall|i: int| from <= i < end implies st[i] != c by {
            assert(st[i] == s[i]);
        }
        lemma_find_char_is(st, c, from, end);
        lemma_split_behind(s, t, c, end + 1);
        let rest = split_from(s, c, end + 1);
        assert(st.subrange(from, end) =~= s.subrange(from, end));
        assert(split_from(s, c, from) =~= seq![s.subrange(from, end)] + rest);
        assert(split_from(s, c, from).drop_last() =~= seq![s.subrange(from, end)]
            + rest.drop_last());
        assert(split_from(st, c, from) =~= split_from(s, c, from).drop_last() + split_from(
            st,
            c,
            s.len() as int,
        ));
    } else {
        assert(split_from(s, c, from) =~= seq![s.subrange(from, s.len() as int)]);
        assert(split_from(s, c, from).drop_last() =~= Seq::<Seq<char>>::empty());
        assert(split_from(st, c, from) =~= Seq::<Seq<char>>::empty() + split_from(
            st,
            c,
            s.len() as int,
        ));
    }
}

/// A line behind whole lines is one line more.
pub proof fn lemma_line_behind(s: Seq<char>, line: Seq<char>)
    requires
        s.len() == 0 || s.last() == '\n',
        !line.contains('\n'),
        line.len() > 0 ==> line.last() != '\r',
    ensures
        lines(s + line + "\n"@) == lines(s).push(line),
        (s + line + "\n"@).last() == '\n',
{
    reveal_strlit("\n");
    let c = '\n';
    let t = line + "\n"@;
    let st = s + t;
    assert(s + line + "\n"@ =~= st);
    lemma_split_behind(s, t, c, 0);
    assert forall|i: int| s.len() <= i < s.len() + line.len() implies st[i] != c by {
        assert(st[i] == line[i - s.len()]);
        assert(line.contains(line[i - s.len()]));
    }
    assert(st[(s.len() + line.len()) as int] == c);
    lemma_find_char_is(st, c, s.len() as int, (s.len() + line.len()) as int);
    assert(st.subrange(s.len() as int, (s.len() + line.len()) as int) =~= line);
    let tail = split_from(st, c, (s.len() + line.len() + 1) as int);
    assert(tail =~= seq![Seq::<char>::empty()]) by {
        assert(st.subrange(st.len() as int, st.len() as int) =~= Seq::<char>::empty());
    }
    let init = split(s, c).drop_last();
    assert(split(st, c) =~= init + (seq![line] + seq![Seq::<char>::empty()]));
    assert(split(st, c).drop_last() =~= init.push(line));
    assert(split(st, c).last().len() == 0);
    assert(without_return(line) == line);
    assert(split(st, c).drop_last().map_values(|p: Seq<char>| without_return(p))
        =~= init.map_values(|p: Seq<char>| without_return(p)).push(line));
}

proof fn lemma_split_ended(s: Seq<char>, c: char, from: int)
    requires
        0 <= from < s.len(),
        s.last() != c,
    ensures
        split_from(s.push(c), c, from) == split_from(s, c, from).push(Seq::empty()),
        split_from(s, c, from).len() > 0,
        split_from(s, c, from).last().len() > 0,
        split_from(s, c, from).last().last() == s.last(),
    decreases s.len() - from,
{
    let sc = s.push(c);
    let end = find_char(s, c, from);
    lemma_find_char(s, c, from);
    assert forall|i: int| from <= i < end implies sc[i] != c by {
        assert(sc[i] == s[i]);
    }
    lemma_find_char_is(sc, c, from, end);
    assert(sc.subrange(from, end) =~= s.subrange(from, end));
    if end < s.len() {
        assert(end + 1 < s.len());
        lemma_split_ended(s, c, end + 1);
        let rest = split_from(s, c, end + 1);
        assert(split_from(s, c, from).last() == rest.last());
        assert(split_from(sc, c, from) =~= split_from(s, c, from).push(Seq::empty()));
    } else {
        assert(find_char(sc, c, sc.len() as int) == sc.len());
        assert(split_from(sc, c, sc.len() as int) =~= seq![Seq::<char>::empty()]) by {
            assert(sc.subrange(sc.len() as int, sc.len() as int) =~= Seq::<char>::empty());
        }
        assert(split_from(sc, c, from) =~= split_from(s, c, from).push(Seq::empty()));
    }
}

/// The end of a last line that has none leaves the lines as they are, but that the
/// last one loses a carriage return.
pub proof fn lemma_last_line_ended(s: Seq<char>)
    requires
        s.len() > 0,
        s.last() != '\n',
    ensures
        lines(s).len() > 0,
        lines(s).last().len() > 0,
        lines(s).last().last() == s.last(),
        lines(s + "\n"@) == lines(s).drop_last().push(without_return(lines(s).last())),
{
    reveal_strlit("\n");
    assert(s + "\n"@ =~= s.push('\n'));
    lemma_split_ended(s, '\n', 0);
    let pieces = split(s, '\n');
    let f = |p: Seq<char>| without_return(p);
    assert(pieces.push(Seq::empty()).drop_last() =~= pieces);
    assert(lines(s).drop_last() =~= pieces.drop_last().map_values(f));
    assert(pieces.map_values(f) =~= pieces.drop_last().map_values(f).push(
        without_return(pieces.last()),
    ));
}

/// The last piece of a text is what stands behind the last cut.
pub proof fn the_last_piece_follows_the_last_cut(s: Seq<char>, piece: Seq<char>, c: char)
    requires
        !piece.contains(c),
    ensures
        split(s.push(c) + piece, c).last() == piece,
        split(piece, c) == seq![piece],
{
    let front = s.push(c);
    let all = front + piece;
    let n = front.len() as int;
    lemma_split_behind(front, piece, c, 0);
    assert forall|i: int| n <= i < all.len() implies all[i] != c by {
        assert(all[i] == piece[i - n]);
        assert(piece.contains(piece[i - n]));
    }
    lemma_find_char_is(all, c, n, all.len() as int);
    assert(all.subrange(n, all.len() as int) =~= piece);
    assert forall|i: int| 0 <= i < piece.len() implies piece[i] != c by {
        assert(piece.contains(piece[i]));
    }
    lemma_find_char_is(piece, c, 0, piece.len() as int);
    assert(piece.subrange(0, piece.len() as int) =~= piece);
}

/// Texts are joined with the separator between any two of them, and only there.
pub proof fn joining_puts_the_separator_between(
    a: Seq<Seq<char>>,
    b: Seq<Seq<char>>,
    sep: Seq<char>,
    one: Seq<char>,
)
    ensures
        join(Seq::<Seq<char>>::empty(), sep) == Seq::<char>::empty(),
        join(seq![one], sep) == one,
        a.len() > 0 && b.len() > 0 ==> join(a + b, sep) == join(a, sep) + sep + join(b, sep),
    decreases b.len(),
{
    if a.len() > 0 && b.len() > 0 {
        let all = a + b;
        assert(all.last() == b.last());
        assert(all.drop_last() =~= a + b.drop_last());
        if b.len() == 1 {
            assert(a + b.drop_last() =~= a);
        } else {
            joining_puts_the_separator_between(a, b.drop_last(), sep, one);
            assert(join(all, sep) =~= join(a, sep) + sep + join(b, sep));
        }
    }
}

/// What was joined with a character is split at it again, where no part holds it.
pub proof fn splitting_undoes_joining(parts: Seq<Seq<char>>, c: char)
    requires
        parts.len() > 0,
        forall|i: int| 0 <= i < parts.len() ==> !(#[trigger] parts[i]).contains(c),
    ensures
        split(join(parts, seq![c]), c) == parts,
    decreases parts.len(),
{
    let last = parts.last();
    the_last_piece_follows_the_last_cut(Seq::empty(), last, c);
    if parts.len() == 1 {
        assert(parts =~= seq![last]);
    } else {
        let front = parts.drop_last();
        splitting_undoes_joining(front, c);
        let s = join(front, seq![c]);
        let t = s.push(c);
        lemma_split_pushed(s, c, 0);
        lemma_split_behind(t, last, c, 0);
        assert(s + seq![c] =~= t);
        assert(join(parts, seq![c]) =~= t + last);
        lemma_split_rest(t, last, c);
        assert(split(t + last, c) =~= front + seq![last]);
        assert(parts =~= front + seq![last]);
    }
}

proof fn lemma_split_pushed(s: Seq<char>, c: char, from: int)
    requires
        0 <= from <= s.len(),
    ensures
        split_from(s.push(c), c, from) == split_from(s, c, from).push(Seq::empty()),
    decreases s.len() - from,
{
    let t = s.push(c);
    let end = find_char(s, c, from);
    lemma_find_char(s, c, from);
    if end < s.len() {
        lemma_find_char_is(t, c, from, end);
        lemma_split_pushed(s, c, end + 1);
        assert(t.subrange(from, end) =~= s.subrange(from, end));
    } else {
        lemma_find_char_is(t, c, from, s.len() as int);
        assert(t.subrange(from, s.len() as int) =~= s.subrange(from, s.len() as int));
        lemma_find_char(t, c, t.len() as int);
        assert(t.subrange(t.len() as int, t.len() as int) =~= Seq::<char>::empty());
        assert(split_from(t, c, t.len() as int) =~= seq![Seq::<char>::empty()]);
    }
    assert(split_from(t, c, from) =~= split_from(s, c, from).push(Seq::empty()));
}

proof fn lemma_split_rest(s: Seq<char>, piece: Seq<char>, c: char)
    requires
        !piece.contains(c),
    ensures
        split_from(s + piece, c, s.len() as int) == seq![piece],
{
    let t = s + piece;
    assert forall|i: int| s.len() <= i < t.len() implies t[i] != c by {
        assert(piece.contains(piece[i - s.len()]));
    }
    lemma_find_char_is(t, c, s.len() as int, t.len() as int);
    assert(t.subrange(s.len() as int, t.len() as int) =~= piece);
}

/// The number that a text of digits writes down.
pub open spec fn number(s: Seq<char>) -> int
    decreases s.len(),
{
    if s.len() == 0 {
        0
    } else {
        10 * number(s.drop_last()) + (s.last() as int - '0' as int)
    }
}

/// A number is written in digits that give it back, without a zero in front.
pub proof fn decimals_write_the_number(n: nat)
    ensures
        number(decimal(n)) == n,
        decimal(n).len() > 0,
        forall|i: int| 0 <= i < decimal(n).len() ==> '0' <= #[trigger] decimal(n)[i] <= '9',
        n > 0 ==> decimal(n)[0] != '0',
        decimal(0) == seq!['0'],
    decreases n,
{
    if n < 10 {
        assert(seq![digit(n)].drop_last() =~= Seq::<char>::empty());
        reveal_with_fuel(number, 2);
    } else {
        decimals_write_the_number(n / 10);
        assert(decimal(n).drop_last() =~= decimal(n / 10));
    }
}

/// One thing is counted in the singular, any other number of things in the plural.
pub proof fn one_thing_is_singular(n: nat, noun: Seq<char>)
    ensures
        counted(1, noun) == decimal(1) + " "@ + noun,
        n != 1 ==> counted(n, noun) == decimal(n) + " "@ + noun + "s"@,
{
    reveal_strlit("");
    assert(counted(1, noun) =~= decimal(1) + " "@ + noun);
}

/// Texts are ordered by the first character in which they differ, and one that opens
/// another comes before it.
pub proof fn texts_are_ordered_by_their_first_difference(
    opening: Seq<char>,
    x: char,
    y: char,
    a: Seq<char>,
    b: Seq<char>,
)
    ensures
        x < y ==> text_lt(opening + seq![x] + a, opening + seq![y] + b),
        x < y ==> !text_lt(opening + seq![y] + b, opening + seq![x] + a),
        text_lt(opening, opening + seq![x] + a),
        !text_lt(opening + seq![x] + a, opening),
    decreases opening.len(),
{
    let s = opening + seq![x] + a;
    let t = opening + seq![y] + b;
    if opening.len() > 0 {
        let rest = opening.drop_first();
        texts_are_ordered_by_their_first_difference(rest, x, y, a, b);
        assert(s.drop_first() =~= rest + seq![x] + a);
        assert(t.drop_first() =~= rest + seq![y] + b);
        assert(s[0] == opening[0] && t[0] == opening[0]);
    } else {
        assert(s[0] == x && t[0] == y);
    }
}

/// White space is what Unicode calls white space.
pub proof fn white_space_is_unicode_white_space(c: char)
    ensures
        is_white(c) <==> c == '\t' || c == '\n' || c == '\u{b}' || c == '\u{c}' || c == '\r' || c
            == ' ' || c == '\u{85}' || c == '\u{a0}' || c == '\u{1680}' || c == '\u{2000}' || c
            == '\u{2001}' || c == '\u{2002}' || c == '\u{2003}' || c == '\u{2004}' || c
            == '\u{2005}' || c == '\u{2006}' || c == '\u{2007}' || c == '\u{2008}' || c
            == '\u{2009}' || c == '\u{200a}' || c == '\u{2028}' || c == '\u{2029}' || c
            == '\u{202f}' || c == '\u{205f}' || c == '\u{3000}',
{
}

/// Trimming takes a character away at both ends, all of it, and nothing between.
pub proof fn trimming_leaves_the_middle(s: Seq<char>, c: char) -> (cut: (int, int))
    ensures
        ({
            let r = trim_end(trim_start(s, c), c);
            &&& 0 <= cut.0 <= cut.1 <= s.len()
            &&& r == s.subrange(cut.0, cut.1)
            &&& forall|i: int| 0 <= i < cut.0 ==> s[i] == c
            &&& forall|i: int| cut.1 <= i < s.len() ==> s[i] == c
            &&& r.len() > 0 ==> r[0] != c && r.last() != c
        }),
{
    let start = lemma_trim_start(s, c);
    let t = trim_start(s, c);
    let end = lemma_trim_end(t, c);
    let r = trim_end(t, c);
    assert(r =~= s.subrange(start, start + end));
    assert forall|i: int| start + end <= i < s.len() implies s[i] == c by {
        assert(t[i - start] == s[i]);
    }
    if r.len() > 0 {
        assert(r[0] == t[0]);
    }
    (start, start + end)
}

proof fn lemma_trim_start(s: Seq<char>, c: char) -> (at: int)
    ensures
        0 <= at <= s.len(),
        trim_start(s, c) == s.subrange(at, s.len() as int),
        forall|i: int| 0 <= i < at ==> s[i] == c,
        at < s.len() ==> s[at] != c,
    decreases s.len(),
{
    if s.len() > 0 && s[0] == c {
        let rest = s.drop_first();
        let at = lemma_trim_start(rest, c);
        assert(trim_start(s, c) =~= s.subrange(at + 1, s.len() as int));
        assert forall|i: int| 0 <= i < at + 1 implies s[i] == c by {
            if i > 0 {
                assert(rest[i - 1] == s[i]);
            }
        }
        at + 1
    } else {
        assert(s =~= s.subrange(0, s.len() as int));
        0
    }
}

proof fn lemma_trim_end(s: Seq<char>, c: char) -> (at: int)
    ensures
        0 <= at <= s.len(),
        trim_end(s, c) == s.subrange(0, at),
        forall|i: int| at <= i < s.len() ==> s[i] == c,
        at > 0 ==> s[at - 1] != c,
    decreases s.len(),
{
    if s.len() > 0 && s.last() == c {
        let rest = s.drop_last();
        let at = lemma_trim_end(rest, c);
        assert(trim_end(s, c) =~= s.subrange(0, at));
        assert forall|i: int| at <= i < s.len() implies s[i] == c by {
            if i < s.len() - 1 {
                assert(rest[i] == s[i]);
            }
        }
        if at > 0 {
            assert(rest[at - 1] == s[at - 1]);
        }
        at
    } else {
        assert(s =~= s.subrange(0, s.len() as int));
        s.len() as int
    }
}

/// An ending is taken away as often as it stands there, and nothing else is.
pub proof fn endings_are_taken_away(s: Seq<char>, suffix: Seq<char>)
    requires
        suffix.len() > 0,
    ensures
        !suffix.is_suffix_of(without_endings(s, suffix)),
        without_endings(s, suffix).is_prefix_of(s),
        without_endings(s + suffix, suffix) == without_endings(s, suffix),
        !suffix.is_suffix_of(s) ==> without_endings(s, suffix) == s,
    decreases s.len(),
{
    let t = s + suffix;
    assert(t.subrange(t.len() - suffix.len(), t.len() as int) =~= suffix);
    assert(t.take(t.len() - suffix.len()) =~= s);
    if suffix.is_suffix_of(s) {
        let front = s.take(s.len() - suffix.len());
        endings_are_taken_away(front, suffix);
        let r = without_endings(front, suffix);
        assert(s.subrange(0, r.len() as int) =~= front.subrange(0, r.len() as int));
    } else {
        assert(s.subrange(0, s.len() as int) =~= s);
    }
}

/// A text is filled up with blanks in front to its width, and not cut where it is
/// longer.
pub proof fn texts_are_filled_with_blanks(s: Seq<char>, width: nat)
    ensures
        s.is_suffix_of(padded(s, width)),
        padded(s, width).len() == if s.len() >= width {
            s.len()
        } else {
            width
        },
        forall|k: int|
            0 <= k < padded(s, width).len() - s.len() ==> #[trigger] padded(s, width)[k] == ' ',
    decreases width - s.len(),
{
    if s.len() < width {
        let t = seq![' '] + s;
        let r = padded(s, width);
        texts_are_filled_with_blanks(t, width);
        assert(r == padded(t, width));
        assert forall|k: int| 0 <= k < r.len() - s.len() implies #[trigger] r[k] == ' ' by {
            if k == r.len() - t.len() {
                assert(r.subrange(r.len() - t.len(), r.len() as int)[0] == t[0]);
            }
        }
        assert forall|k: int| 0 <= k < s.len() implies s[k] == r[r.len() - s.len() + k] by {
            assert(r.subrange(r.len() - t.len(), r.len() as int)[k + 1] == t[k + 1]);
        }
        assert(r.subrange(r.len() - s.len(), r.len() as int) =~= s);
    } else {
        assert(s.subrange(0, s.len() as int) =~= s);
    }
}

/// Words are what lies between white space: a text without it is one word, and two
/// texts with white space between them have the words of both.
pub proof fn words_lie_between_white_space(a: Seq<char>, c: char, b: Seq<char>)
    ensures
        is_white(c) ==> words(a + seq![c] + b) == words(a) + words(b),
        (forall|i: int| 0 <= i < a.len() ==> !is_white(#[trigger] a[i])) && a.len() > 0 ==> words(a)
            == seq![a],
        words(Seq::<char>::empty()) == Seq::<Seq<char>>::empty(),
{
    if is_white(c) {
        let x = a + seq![c];
        let s = x + b;
        assert(s =~= a + seq![c] + b);
        lemma_words_before(a, c, b, 0);
        lemma_words_shift(x, b, 0);
    }
    if (forall|i: int| 0 <= i < a.len() ==> !is_white(#[trigger] a[i])) && a.len() > 0 {
        lemma_find_white_is(a, false, 0, 0);
        lemma_find_white_is(a, true, 0, a.len() as int);
        assert(a.subrange(0, a.len() as int) =~= a);
        lemma_find_white(a, false, a.len() as int);
        assert(words_from(a, a.len() as int) =~= Seq::<Seq<char>>::empty());
        assert(words(a) =~= seq![a]);
    }
}

proof fn lemma_words_shift(x: Seq<char>, b: Seq<char>, k: int)
    requires
        0 <= k <= b.len(),
    ensures
        words_from(x + b, x.len() + k) == words_from(b, k),
    decreases b.len() - k,
{
    let s = x + b;
    let n = x.len() as int;
    let start = find_white(b, false, k);
    lemma_find_white(b, false, k);
    assert forall|i: int| n + k <= i < n + start implies is_white(s[i]) by {
        assert(s[i] == b[i - n]);
    }
    lemma_find_white_is(s, false, n + k, n + start);
    if start < b.len() {
        let end = find_white(b, true, start);
        lemma_find_white(b, true, start);
        assert forall|i: int| n + start <= i < n + end implies !is_white(s[i]) by {
            assert(s[i] == b[i - n]);
        }
        lemma_find_white_is(s, true, n + start, n + end);
        lemma_words_shift(x, b, end);
        assert(s.subrange(n + start, n + end) =~= b.subrange(start, end));
    }
}

proof fn lemma_words_before(a: Seq<char>, c: char, b: Seq<char>, k: int)
    requires
        is_white(c),
        0 <= k <= a.len(),
    ensures
        words_from(a + seq![c] + b, k) == words_from(a, k) + words_from(
            a + seq![c] + b,
            a.len() as int + 1,
        ),
    decreases a.len() - k,
{
    let s = a + seq![c] + b;
    let n = a.len() as int;
    let start = find_white(a, false, k);
    lemma_find_white(a, false, k);
    assert(s[n] == c);
    assert(forall|i: int| 0 <= i < n ==> s[i] == a[i]);
    if start < n {
        lemma_find_white_is(s, false, k, start);
        let end = find_white(a, true, start);
        lemma_find_white(a, true, start);
        lemma_find_white_is(s, true, start, end);
        lemma_words_before(a, c, b, end);
        assert(s.subrange(start, end) =~= a.subrange(start, end));
        assert(words_from(s, k) =~= words_from(a, k) + words_from(s, n + 1));
    } else {
        let next = find_white(s, false, n + 1);
        lemma_find_white(s, false, n + 1);
        assert forall|i: int| k <= i < next implies is_white(s[i]) by {
            if i < n {
                assert(is_white(a[i]));
            }
        }
        lemma_find_white_is(s, false, k, next);
        assert(words_from(s, k) =~= words_from(s, n + 1));
        assert(words_from(a, k) =~= Seq::<Seq<char>>::empty());
        assert(words_from(a, k) + words_from(s, n + 1) =~= words_from(s, n + 1));
    }
}

/// Characters occur in turn where the first of them stands anywhere before the others
/// do, and only where every one of them stands; none of them occur everywhere.
pub proof fn characters_occur_behind_each_other(
    c: char,
    rest: Seq<char>,
    before: Seq<char>,
    s: Seq<char>,
)
    ensures
        occur_in_turn(Seq::empty(), s),
        occur_in_turn(rest, s) ==> occur_in_turn(seq![c] + rest, before + seq![c] + s),
        occur_in_turn(seq![c] + rest, s) ==> s.contains(c) && occur_in_turn(rest, s) && rest.len()
            < s.len(),
    decreases before.len(),
{
    let all = seq![c] + rest;
    assert(all.skip(1) =~= rest);
    let t = before + seq![c] + s;
    if occur_in_turn(rest, s) {
        if before.len() == 0 {
            assert(t[0] == c);
            assert(t.skip(1) =~= s);
        } else {
            let next = before.skip(1);
            assert(t.skip(1) =~= next + seq![c] + s);
            if before[0] == c {
                lemma_occur_behind(rest, next + seq![c], s);
            } else {
                characters_occur_behind_each_other(c, rest, next, s);
            }
        }
    }
    if occur_in_turn(all, s) {
        lemma_occur_without_first(all, s);
        lemma_occur_bounded(all, s);
    }
}

proof fn lemma_occur_bounded(chars: Seq<char>, s: Seq<char>)
    requires
        occur_in_turn(chars, s),
    ensures
        chars.len() <= s.len(),
        chars.len() > 0 ==> s.contains(chars[0]),
    decreases s.len(),
{
    if chars.len() > 0 {
        if s[0] == chars[0] {
            lemma_occur_bounded(chars.skip(1), s.skip(1));
        } else {
            lemma_occur_bounded(chars, s.skip(1));
            let k = choose|k: int| 0 <= k < s.skip(1).len() && s.skip(1)[k] == chars[0];
            assert(s[k + 1] == chars[0]);
        }
    }
}

proof fn lemma_occur_without_first(chars: Seq<char>, s: Seq<char>)
    requires
        chars.len() > 0,
        occur_in_turn(chars, s),
    ensures
        occur_in_turn(chars.skip(1), s),
    decreases s.len(),
{
    let rest = chars.skip(1);
    let tail = s.skip(1);
    if s[0] != chars[0] {
        lemma_occur_without_first(chars, tail);
    }
    if rest.len() > 0 && s[0] == rest[0] {
        lemma_occur_without_first(rest, tail);
    }
}

proof fn lemma_occur_behind(chars: Seq<char>, before: Seq<char>, s: Seq<char>)
    requires
        occur_in_turn(chars, s),
    ensures
        occur_in_turn(chars, before + s),
    decreases before.len(),
{
    let t = before + s;
    if before.len() == 0 {
        assert(t =~= s);
    } else {
        lemma_occur_behind(chars, before.skip(1), s);
        assert(t.skip(1) =~= before.skip(1) + s);
        if chars.len() > 0 && t[0] == chars[0] {
            lemma_occur_without_first(chars, t.skip(1));
        }
    }
}

} // verus!
