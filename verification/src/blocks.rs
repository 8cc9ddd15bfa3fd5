//! The blocks of a template, and which of them are simple.

use crate::text;
use crate::text::{contains_char, cut, occur_in_turn_in, same, to_chars};
use vstd::prelude::*;

verus! {

/// A piece of a block.
#[derive(Debug, PartialEq, Eq)]
pub enum Token {
    /// A name, a keyword or a number.
    Word(String),
    /// A text in quotes.
    Quoted,
    /// Any other character.
    Mark(char),
}

/// [`Token`] over text.
pub enum TokenView {
    Word(Seq<char>),
    Quoted,
    Mark(char),
}

impl View for Token {
    type V = TokenView;

    open spec fn view(&self) -> TokenView {
        match *self {
            Token::Word(w) => TokenView::Word(w@),
            Token::Quoted => TokenView::Quoted,
            Token::Mark(c) => TokenView::Mark(c),
        }
    }
}

impl Token {
    fn is_mark(&self) -> (r: bool)
        ensures
            r == (self@ is Mark),
    {
        matches!(self, Token::Mark(_))
    }
}

/// The pieces over text.
pub open spec fn token_views(v: Seq<Token>) -> Seq<TokenView> {
    v.map_values(|t: Token| t@)
}

/// Whether a character can stand in a word.
pub open spec fn is_word_char(c: char) -> bool {
    'a' <= c <= 'z' || 'A' <= c <= 'Z' || '0' <= c <= '9' || c == '_'
}

/// Whether a character separates pieces without being one.
pub open spec fn is_blank(c: char) -> bool {
    c == ' ' || c == '\t' || c == '\n' || c == '\r' || c == '\u{c}'
}

/// Where the word that goes on at `from` ends.
pub open spec fn word_end(t: Seq<char>, from: int) -> int
    decreases t.len() - from,
{
    if from >= t.len() {
        t.len() as int
    } else if is_word_char(t[from]) {
        word_end(t, from + 1)
    } else {
        from
    }
}

/// Where the quoted text that goes on at `from` ends, behind its closing quote. A
/// backslash takes the meaning from the character behind it.
pub open spec fn quote_end(t: Seq<char>, from: int, quote: char) -> int
    decreases t.len() - from,
{
    if from >= t.len() {
        t.len() as int
    } else if t[from] == '\\' {
        if from + 1 >= t.len() {
            t.len() as int
        } else {
            quote_end(t, from + 2, quote)
        }
    } else if t[from] == quote {
        from + 1
    } else {
        quote_end(t, from + 1, quote)
    }
}

proof fn lemma_word_end(t: Seq<char>, from: int)
    requires
        0 <= from <= t.len(),
    ensures
        from <= word_end(t, from) <= t.len(),
        from < t.len() && is_word_char(t[from]) ==> from < word_end(t, from),
    decreases t.len() - from,
{
    if from < t.len() && is_word_char(t[from]) {
        lemma_word_end(t, from + 1);
    }
}

proof fn lemma_quote_end(t: Seq<char>, from: int, quote: char)
    requires
        0 <= from,
    ensures
        quote_end(t, from, quote) <= t.len(),
        from <= t.len() ==> from <= quote_end(t, from, quote),
    decreases t.len() - from,
{
    if from < t.len() {
        if t[from] == '\\' {
            if from + 1 < t.len() {
                lemma_quote_end(t, from + 2, quote);
            }
        } else if t[from] != quote {
            lemma_quote_end(t, from + 1, quote);
        }
    }
}

/// How a character changes the number of open brackets.
pub open spec fn nesting(c: char) -> int {
    if c == '(' || c == '[' || c == '{' {
        1
    } else if c == ')' || c == ']' || c == '}' {
        -1
    } else {
        0
    }
}

/// The pieces of a block from `from` on, and where the block ends. It ends with
/// `close` and a brace outside all brackets and quotes, or with the template.
pub open spec fn scan(t: Seq<char>, from: int, close: char, open: int) -> (Seq<TokenView>, int)
    decreases t.len() - from,
    when 0 <= from <= t.len() via scan_decreases
{
    if from >= t.len() {
        (Seq::empty(), t.len() as int)
    } else if open == 0 && t[from] == close && from + 1 < t.len() && t[from + 1] == '}' {
        (Seq::empty(), from + 2)
    } else if is_blank(t[from]) {
        scan(t, from + 1, close, open)
    } else if t[from] == '\'' || t[from] == '"' {
        let rest = scan(t, quote_end(t, from + 1, t[from]), close, open);
        (seq![TokenView::Quoted] + rest.0, rest.1)
    } else if is_word_char(t[from]) {
        let end = word_end(t, from);
        let rest = scan(t, end, close, open);
        (seq![TokenView::Word(t.subrange(from, end))] + rest.0, rest.1)
    } else {
        let rest = scan(t, from + 1, close, open + nesting(t[from]));
        (seq![TokenView::Mark(t[from])] + rest.0, rest.1)
    }
}

#[via_fn]
proof fn scan_decreases(t: Seq<char>, from: int, close: char, open: int) {
    lemma_word_end(t, from);
    if from < t.len() {
        lemma_quote_end(t, from + 1, t[from]);
    }
}

proof fn lemma_scan(t: Seq<char>, from: int, close: char, open: int)
    requires
        0 <= from <= t.len(),
    ensures
        from <= scan(t, from, close, open).1 <= t.len(),
    decreases t.len() - from,
{
    lemma_word_end(t, from);
    if from < t.len() {
        lemma_quote_end(t, from + 1, t[from]);
        if open == 0 && t[from] == close && from + 1 < t.len() && t[from + 1] == '}' {
        } else if is_blank(t[from]) {
            lemma_scan(t, from + 1, close, open);
        } else if t[from] == '\'' || t[from] == '"' {
            lemma_scan(t, quote_end(t, from + 1, t[from]), close, open);
        } else if is_word_char(t[from]) {
            lemma_scan(t, word_end(t, from), close, open);
        } else {
            lemma_scan(t, from + 1, close, open + nesting(t[from]));
        }
    }
}

/// The first place at or after `from` where `a` and `b` follow each other, or the
/// length.
pub open spec fn find_pair(t: Seq<char>, a: char, b: char, from: int) -> int
    decreases t.len() - from,
{
    if from + 1 >= t.len() {
        t.len() as int
    } else if t[from] == a && t[from + 1] == b {
        from
    } else {
        find_pair(t, a, b, from + 1)
    }
}

proof fn lemma_find_pair(t: Seq<char>, a: char, b: char, from: int)
    requires
        0 <= from <= t.len(),
    ensures
        from <= find_pair(t, a, b, from) <= t.len(),
        find_pair(t, a, b, from) < t.len() ==> find_pair(t, a, b, from) + 2 <= t.len(),
    decreases t.len() - from,
{
    if from + 1 < t.len() && !(t[from] == a && t[from + 1] == b) {
        lemma_find_pair(t, a, b, from + 1);
    }
}

/// A block of a template: an expression, or a statement.
#[derive(Debug, PartialEq, Eq)]
pub struct Block {
    pub statement: bool,
    pub tokens: Vec<Token>,
}

/// [`Block`] over text.
pub struct BlockView {
    pub statement: bool,
    pub tokens: Seq<TokenView>,
}

impl View for Block {
    type V = BlockView;

    open spec fn view(&self) -> BlockView {
        BlockView { statement: self.statement, tokens: token_views(self.tokens@) }
    }
}

/// The blocks over text.
pub open spec fn block_views(v: Seq<Block>) -> Seq<BlockView> {
    v.map_values(|b: Block| b@)
}

/// The blocks of a template from `from` on: `{{ .. }}` is an expression, `{% .. %}` a
/// statement, and `{# .. #}` is passed over.
pub open spec fn blocks(t: Seq<char>, from: int) -> Seq<BlockView>
    decreases t.len() - from,
    when 0 <= from <= t.len() via blocks_decreases
{
    if from + 1 >= t.len() {
        Seq::empty()
    } else if t[from] == '{' && t[from + 1] == '#' {
        let end = find_pair(t, '#', '}', from + 2);
        if end >= t.len() {
            Seq::empty()
        } else {
            blocks(t, end + 2)
        }
    } else if t[from] == '{' && (t[from + 1] == '{' || t[from + 1] == '%') {
        let statement = t[from + 1] == '%';
        let close = if statement {
            '%'
        } else {
            '}'
        };
        let (tokens, end) = scan(t, from + 2, close, 0);
        seq![BlockView { statement, tokens }] + blocks(t, end)
    } else {
        blocks(t, from + 1)
    }
}

#[via_fn]
proof fn blocks_decreases(t: Seq<char>, from: int) {
    if from + 1 < t.len() {
        lemma_find_pair(t, '#', '}', from + 2);
        lemma_scan(t, from + 2, '%', 0);
        lemma_scan(t, from + 2, '}', 0);
    }
}

fn word_char(c: char) -> (r: bool)
    ensures
        r == is_word_char(c),
{
    ('a' <= c && c <= 'z') || ('A' <= c && c <= 'Z') || ('0' <= c && c <= '9') || c == '_'
}

fn blank(c: char) -> (r: bool)
    ensures
        r == is_blank(c),
{
    c == ' ' || c == '\t' || c == '\n' || c == '\r' || c == '\u{c}'
}

fn change_of_nesting(c: char) -> (r: i64)
    ensures
        r == nesting(c),
{
    if c == '(' || c == '[' || c == '{' {
        1
    } else if c == ')' || c == ']' || c == '}' {
        -1
    } else {
        0
    }
}

fn find_word_end(v: &Vec<char>, from: usize) -> (r: usize)
    requires
        from <= v@.len(),
    ensures
        r == word_end(v@, from as int),
        from <= r <= v@.len(),
{
    let mut i: usize = from;
    while i < v.len() && word_char(v[i])
        invariant
            from <= i <= v@.len(),
            word_end(v@, from as int) == word_end(v@, i as int),
        decreases v@.len() - i,
    {
        i = i + 1;
    }
    i
}

fn find_quote_end(v: &Vec<char>, from: usize, quote: char) -> (r: usize)
    requires
        from <= v@.len(),
    ensures
        r == quote_end(v@, from as int, quote),
        from <= r <= v@.len(),
{
    let mut i: usize = from;
    while i < v.len()
        invariant
            from <= i <= v@.len(),
            quote_end(v@, from as int, quote) == quote_end(v@, i as int, quote),
        decreases v@.len() - i,
    {
        if v[i] == '\\' {
            if i + 1 >= v.len() {
                return v.len();
            }
            i = i + 2;
        } else if v[i] == quote {
            return i + 1;
        } else {
            i = i + 1;
        }
    }
    i
}

fn find_comment_end(v: &Vec<char>, from: usize) -> (r: usize)
    requires
        from <= v@.len(),
    ensures
        r == find_pair(v@, '#', '}', from as int),
{
    let mut i: usize = from;
    while i < v.len() && v.len() - i > 1
        invariant
            i <= v@.len(),
            find_pair(v@, '#', '}', from as int) == find_pair(v@, '#', '}', i as int),
        decreases v@.len() - i,
    {
        if v[i] == '#' && v[i + 1] == '}' {
            return i;
        }
        i = i + 1;
    }
    v.len()
}

/// The piece that begins at `i`, and where it ends.
fn read_token(t: &str, v: &Vec<char>, i: usize) -> (r: (Token, usize))
    requires
        v@ == t@,
        i < v@.len() <= LONGEST,
    ensures
        i < r.1 <= v@.len(),
        if v@[i as int] == '\'' || v@[i as int] == '"' {
            r.0@ == TokenView::Quoted && r.1 == quote_end(t@, i + 1, v@[i as int])
        } else if is_word_char(v@[i as int]) {
            r.0@ == TokenView::Word(t@.subrange(i as int, r.1 as int)) && r.1 == word_end(
                t@,
                i as int,
            )
        } else {
            r.0@ == TokenView::Mark(v@[i as int]) && r.1 == i + 1
        },
{
    let c = v[i];
    if c == '\'' || c == '"' {
        return (Token::Quoted, find_quote_end(v, i + 1, c));
    }
    if word_char(c) {
        let end = find_word_end(v, i);
        proof {
            lemma_word_end(v@, i as int);
        }
        return (Token::Word(cut(t, i, end)), end);
    }
    (Token::Mark(c), i + 1)
}

/// The pieces of a block that begins at `from`, and where it ends.
fn scan_block(t: &str, v: &Vec<char>, from: usize, close: char) -> (r: (Vec<Token>, usize))
    requires
        v@ == t@,
        from <= v@.len() <= LONGEST,
    ensures
        (token_views(r.0@), r.1 as int) == scan(t@, from as int, close, 0),
        from <= r.1 <= v@.len(),
{
    let mut tokens: Vec<Token> = Vec::new();
    let mut i: usize = from;
    let mut open: i64 = 0;
    let ghost all = scan(t@, from as int, close, 0);
    assert(token_views(tokens@) + all.0 =~= all.0);
    while i < v.len()
        invariant
            v@ == t@,
            from <= i <= v@.len() <= LONGEST,
            -(i as int) <= open <= i,
            all == scan(t@, from as int, close, 0),
            all.0 == token_views(tokens@) + scan(t@, i as int, close, open as int).0,
            all.1 == scan(t@, i as int, close, open as int).1,
        decreases v@.len() - i,
    {
        let c = v[i];
        if open == 0 && c == close && i + 1 < v.len() && v[i + 1] == '}' {
            assert(token_views(tokens@) + Seq::<TokenView>::empty() =~= token_views(tokens@));
            return (tokens, i + 2);
        }
        if blank(c) {
            i = i + 1;
            continue;
        }
        let ghost before = token_views(tokens@);
        let ghost here = scan(t@, i as int, close, open as int);
        let (token, end) = read_token(t, v, i);
        let ghost view = token@;
        if token.is_mark() {
            open = open + change_of_nesting(c);
        }
        tokens.push(token);
        i = end;
        proof {
            assert(token_views(tokens@) =~= before.push(view));
            let rest = scan(t@, i as int, close, open as int);
            assert(here == (seq![view] + rest.0, rest.1));
            lemma_one_more(before, view, rest.0);
        }
    }
    assert(token_views(tokens@) + Seq::<TokenView>::empty() =~= token_views(tokens@));
    (tokens, i)
}

proof fn lemma_one_more(before: Seq<TokenView>, token: TokenView, rest: Seq<TokenView>)
    ensures
        before.push(token) + rest == before + (seq![token] + rest),
{
    assert(before.push(token) + rest =~= before + (seq![token] + rest));
}

/// The blocks of a template.
pub fn find_blocks(t: &str) -> (r: Vec<Block>)
    requires
        t@.len() <= LONGEST,
    ensures
        block_views(r@) == blocks(t@, 0),
{
    let v = to_chars(t);
    let mut r: Vec<Block> = Vec::new();
    let mut i: usize = 0;
    let ghost all = blocks(t@, 0);
    assert(block_views(r@) + all =~= all);
    while i < v.len() && v.len() - i > 1
        invariant
            v@ == t@,
            i <= v@.len() <= LONGEST,
            all == blocks(t@, 0),
            all == block_views(r@) + blocks(t@, i as int),
        decreases v@.len() - i,
    {
        let ghost before = block_views(r@);
        if v[i] == '{' && v[i + 1] == '#' {
            let end = find_comment_end(&v, i + 2);
            proof {
                lemma_find_pair(t@, '#', '}', i + 2);
            }
            if end >= v.len() {
                assert(before + Seq::<BlockView>::empty() =~= before);
                return r;
            }
            i = end + 2;
        } else if v[i] == '{' && (v[i + 1] == '{' || v[i + 1] == '%') {
            let statement = v[i + 1] == '%';
            let (tokens, end) = scan_block(
                t,
                &v,
                i + 2,
                if statement {
                    '%'
                } else {
                    '}'
                },
            );
            let ghost block = BlockView { statement, tokens: token_views(tokens@) };
            r.push(Block { statement, tokens });
            i = end;
            proof {
                assert(block_views(r@) =~= before.push(block));
                assert(before.push(block) + blocks(t@, i as int) =~= before + (seq![block] + blocks(
                    t@,
                    i as int,
                )));
            }
        } else {
            i = i + 1;
        }
    }
    assert(block_views(r@) + Seq::<BlockView>::empty() =~= block_views(r@));
    r
}

/// How many characters a simple template may have.
pub const LONGEST: usize = 4096;

/// How many blocks a simple template may have.
pub const MOST_BLOCKS: usize = 16;

/// How many pieces a simple block may have.
pub const MOST_TOKENS: usize = 64;

/// How many brackets may be open at once in a simple block.
pub const DEEPEST: i64 = 8;

/// How many brackets are open behind the first `n` pieces.
pub open spec fn depth(tokens: Seq<TokenView>, n: nat) -> int
    decreases n,
{
    if n == 0 {
        0
    } else {
        depth(tokens, (n - 1) as nat) + match tokens[n - 1] {
            TokenView::Mark(c) => nesting(c),
            _ => 0,
        }
    }
}

/// The marks among the first `n` pieces.
pub open spec fn marks(tokens: Seq<TokenView>, n: nat) -> Seq<char>
    decreases n,
{
    if n == 0 {
        Seq::empty()
    } else {
        match tokens[n - 1] {
            TokenView::Mark(c) => marks(tokens, (n - 1) as nat).push(c),
            _ => marks(tokens, (n - 1) as nat),
        }
    }
}

/// Whether the piece at `i` is this word.
pub open spec fn is_word(tokens: Seq<TokenView>, i: int, word: Seq<char>) -> bool {
    0 <= i < tokens.len() && tokens[i] == TokenView::Word(word)
}

/// Whether the piece at `i` stands where a filter or a test is named.
pub open spec fn is_named(tokens: Seq<TokenView>, i: int) -> bool {
    i > 0 && (tokens[i - 1] == TokenView::Mark('|') || is_word(tokens, i - 1, "is"@) || (is_word(
        tokens,
        i - 1,
        "not"@,
    ) && is_word(tokens, i - 2, "is"@)))
}

/// Whether a word is part of the syntax.
pub open spec fn is_keyword(w: Seq<char>) -> bool {
    w == "and"@ || w == "or"@ || w == "not"@ || w == "in"@ || w == "is"@ || w == "if"@ || w
        == "elif"@ || w == "else"@ || w == "for"@ || w == "set"@
}

/// Whether the piece at `i` opens the arguments of a function, rather than those of
/// a filter or a test or a group of its own.
pub open spec fn is_call(tokens: Seq<TokenView>, i: int) -> bool {
    i > 0 && tokens[i] == TokenView::Mark('(') && match tokens[i - 1] {
        TokenView::Word(w) => !is_keyword(w) && !is_named(tokens, i - 1),
        TokenView::Quoted => true,
        TokenView::Mark(c) => nesting(c) < 0,
    }
}

/// Whether a word is a number of one to three digits, and not zero.
pub open spec fn is_small_number(w: Seq<char>) -> bool {
    1 <= w.len() <= 3 && w[0] != '0' && forall|i: int|
        0 <= i < w.len() ==> '0' <= #[trigger] w[i] <= '9'
}

/// Whether a small number in round brackets starts at `i`.
pub open spec fn is_small_argument(tokens: Seq<TokenView>, i: int) -> bool {
    0 <= i && i + 2 < tokens.len() && tokens[i] == TokenView::Mark('(') && (tokens[i
        + 1] matches TokenView::Word(w) && is_small_number(w)) && tokens[i + 2]
        == TokenView::Mark(')')
}

/// Whether a filter or a test takes a number that decides how much it does, or
/// divides by it.
pub open spec fn is_sized(w: Seq<char>) -> bool {
    w == "batch"@ || w == "divisibleby"@ || w == "indent"@ || w == "slice"@
}

/// Whether a filter adds up lengths, reads widths out of a text, or takes the name
/// of another filter or of a test.
pub open spec fn is_unbounded(w: Seq<char>) -> bool {
    w == "chain"@ || w == "format"@ || w == "map"@ || w == "reject"@ || w == "rejectattr"@ || w
        == "select"@ || w == "selectattr"@
}

/// Whether a word names a function.
pub open spec fn is_function(w: Seq<char>) -> bool {
    w == "debug"@ || w == "dict"@ || w == "namespace"@ || w == "range"@
}

/// Whether this word is among the pieces.
pub open spec fn has_word(tokens: Seq<TokenView>, word: Seq<char>) -> bool {
    tokens.contains(TokenView::Word(word))
}

/// Whether the piece at `i` is one that a simple block may hold.
pub open spec fn is_simple_at(tokens: Seq<TokenView>, i: int) -> bool {
    &&& is_call(tokens, i) ==> is_word(tokens, i - 1, "range"@) && is_small_argument(tokens, i)
    &&& tokens[i] matches TokenView::Word(w) ==> {
        &&& is_named(tokens, i) ==> !is_unbounded(w)
        &&& is_named(tokens, i) && is_sized(w) ==> is_small_argument(tokens, i + 1)
        &&& is_named(tokens, i) && w == "sort"@ ==> !has_word(tokens, "attribute"@)
        &&& is_function(w) ==> (i > 0 && tokens[i - 1] == TokenView::Mark('.')) || (w == "range"@
            && is_small_argument(tokens, i + 1))
    }
}

/// The word that a statement begins with.
pub open spec fn first_word(tokens: Seq<TokenView>) -> Option<Seq<char>> {
    let i: int = if tokens.len() > 0 && (tokens[0] == TokenView::Mark('-') || tokens[0]
        == TokenView::Mark('+')) {
        1
    } else {
        0
    };
    if i < tokens.len() {
        match tokens[i] {
            TokenView::Word(w) => Some(w),
            _ => None,
        }
    } else {
        None
    }
}

/// Whether a statement gives a name to a value, by a loop or by an assignment.
pub open spec fn binds(b: BlockView) -> bool {
    b.statement && (first_word(b.tokens) == Some("for"@) || first_word(b.tokens) == Some("set"@))
}

/// Whether a statement is a part of a choice, a loop or an assignment.
pub open spec fn is_simple_statement(tokens: Seq<TokenView>) -> bool {
    match first_word(tokens) {
        Some(w) => w == "if"@ || w == "elif"@ || w == "else"@ || w == "endif"@ || w == "for"@ || w
            == "endfor"@ || w == "set"@ || w == "endset"@,
        None => false,
    }
}

/// Whether a block is simple: short and not nested deeply, without calls of
/// functions, multiplication, slices by steps, sorting by an attribute, and filters
/// and tests that are not bounded. A number in round brackets bounds some of these.
pub open spec fn is_simple(b: BlockView) -> bool {
    &&& b.tokens.len() <= MOST_TOKENS
    &&& forall|n: nat| n <= b.tokens.len() ==> #[trigger] depth(b.tokens, n) <= DEEPEST
    &&& !marks(b.tokens, b.tokens.len()).contains('*')
    &&& !text::occur_in_turn("[::]"@, marks(b.tokens, b.tokens.len()))
    &&& forall|i: int| 0 <= i < b.tokens.len() ==> #[trigger] is_simple_at(b.tokens, i)
    &&& b.statement ==> is_simple_statement(b.tokens)
}

/// How many of the first `n` blocks give a name to a value.
pub open spec fn bindings(v: Seq<BlockView>, n: nat) -> int
    decreases n,
{
    if n == 0 {
        0
    } else {
        bindings(v, (n - 1) as nat) + if binds(v[n - 1]) {
            1int
        } else {
            0
        }
    }
}

/// Whether a template is simple: it has few simple blocks, of which at most one
/// gives a name to a value.
pub open spec fn is_simple_template(t: Seq<char>) -> bool {
    let all = blocks(t, 0);
    &&& t.len() <= LONGEST
    &&& all.len() <= MOST_BLOCKS
    &&& forall|i: int| 0 <= i < all.len() ==> #[trigger] is_simple(all[i])
    &&& bindings(all, all.len()) <= 1
}

fn word_at(tokens: &Vec<Token>, i: usize, word: &str) -> (r: bool)
    requires
        i < tokens@.len(),
    ensures
        r == is_word(token_views(tokens@), i as int, word@),
{
    assert(token_views(tokens@)[i as int] == tokens@[i as int]@);
    match &tokens[i] {
        Token::Word(w) => same(w.as_str(), word),
        _ => false,
    }
}

fn mark_at(tokens: &Vec<Token>, i: usize, mark: char) -> (r: bool)
    requires
        i < tokens@.len(),
    ensures
        r == (token_views(tokens@)[i as int] == TokenView::Mark(mark)),
{
    assert(token_views(tokens@)[i as int] == tokens@[i as int]@);
    match &tokens[i] {
        Token::Mark(c) => *c == mark,
        _ => false,
    }
}

fn find_word(tokens: &Vec<Token>, word: &str) -> (r: bool)
    ensures
        r == has_word(token_views(tokens@), word@),
{
    let ghost all = token_views(tokens@);
    let mut i: usize = 0;
    while i < tokens.len()
        invariant
            i <= tokens@.len(),
            all == token_views(tokens@),
            forall|k: int| 0 <= k < i ==> #[trigger] all[k] != TokenView::Word(word@),
        decreases tokens@.len() - i,
    {
        if word_at(tokens, i, word) {
            return true;
        }
        i = i + 1;
    }
    false
}

fn named(tokens: &Vec<Token>, i: usize) -> (r: bool)
    requires
        i < tokens@.len(),
    ensures
        r == is_named(token_views(tokens@), i as int),
{
    if i == 0 {
        return false;
    }
    mark_at(tokens, i - 1, '|') || word_at(tokens, i - 1, "is") || (i > 1 && word_at(
        tokens,
        i - 1,
        "not",
    ) && word_at(tokens, i - 2, "is"))
}

fn keyword(w: &str) -> (r: bool)
    ensures
        r == is_keyword(w@),
{
    same(w, "and") || same(w, "or") || same(w, "not") || same(w, "in") || same(w, "is") || same(
        w,
        "if",
    ) || same(w, "elif") || same(w, "else") || same(w, "for") || same(w, "set")
}

fn sized(w: &str) -> (r: bool)
    ensures
        r == is_sized(w@),
{
    same(w, "batch") || same(w, "divisibleby") || same(w, "indent") || same(w, "slice")
}

fn unbounded(w: &str) -> (r: bool)
    ensures
        r == is_unbounded(w@),
{
    same(w, "chain") || same(w, "format") || same(w, "map") || same(w, "reject") || same(
        w,
        "rejectattr",
    ) || same(w, "select") || same(w, "selectattr")
}

fn small_number(w: &str) -> (r: bool)
    ensures
        r == is_small_number(w@),
{
    let n: usize = w.unicode_len();
    if n == 0 || n > 3 || w.get_char(0) == '0' {
        return false;
    }
    let mut i: usize = 0;
    while i < n
        invariant
            i <= n,
            n == w@.len(),
            forall|k: int| 0 <= k < i ==> '0' <= #[trigger] w@[k] <= '9',
        decreases n - i,
    {
        let c = w.get_char(i);
        if c < '0' || c > '9' {
            return false;
        }
        i = i + 1;
    }
    true
}

fn small_argument(tokens: &Vec<Token>, i: usize) -> (r: bool)
    requires
        i <= tokens@.len(),
    ensures
        r == is_small_argument(token_views(tokens@), i as int),
{
    if tokens.len() < 3 || i > tokens.len() - 3 {
        return false;
    }
    assert(token_views(tokens@)[i + 1] == tokens@[i + 1]@);
    let number = match &tokens[i + 1] {
        Token::Word(w) => small_number(w.as_str()),
        _ => false,
    };
    number && mark_at(tokens, i, '(') && mark_at(tokens, i + 2, ')')
}

fn function(w: &str) -> (r: bool)
    ensures
        r == is_function(w@),
{
    same(w, "debug") || same(w, "dict") || same(w, "namespace") || same(w, "range")
}

fn call(tokens: &Vec<Token>, i: usize) -> (r: bool)
    requires
        i < tokens@.len(),
    ensures
        r == is_call(token_views(tokens@), i as int),
{
    if i == 0 || !mark_at(tokens, i, '(') {
        return false;
    }
    assert(token_views(tokens@)[i - 1] == tokens@[i - 1]@);
    match &tokens[i - 1] {
        Token::Word(w) => !keyword(w.as_str()) && !named(tokens, i - 1),
        Token::Quoted => true,
        Token::Mark(c) => change_of_nesting(*c) < 0,
    }
}

fn simple_at(tokens: &Vec<Token>, i: usize) -> (r: bool)
    requires
        i < tokens@.len(),
    ensures
        r == is_simple_at(token_views(tokens@), i as int),
{
    assert(token_views(tokens@)[i as int] == tokens@[i as int]@);
    if call(tokens, i) && !(word_at(tokens, i - 1, "range") && small_argument(tokens, i)) {
        return false;
    }
    match &tokens[i] {
        Token::Word(w) => {
            let n: usize = tokens.len();
            let argument = i < n && small_argument(tokens, i + 1);
            let w = w.as_str();
            if named(tokens, i) && (unbounded(w) || (sized(w) && !argument) || (same(w, "sort")
                && find_word(tokens, "attribute"))) {
                return false;
            }
            !function(w) || (i > 0 && mark_at(tokens, i - 1, '.')) || (same(w, "range")
                && argument)
        },
        _ => true,
    }
}

fn find_first_word(tokens: &Vec<Token>) -> (r: Option<String>)
    ensures
        text::opt_text(r) == first_word(token_views(tokens@)),
{
    let i: usize = if tokens.len() > 0 && (mark_at(tokens, 0, '-') || mark_at(tokens, 0, '+')) {
        1
    } else {
        0
    };
    if i >= tokens.len() {
        return None;
    }
    assert(token_views(tokens@)[i as int] == tokens@[i as int]@);
    match &tokens[i] {
        Token::Word(w) => Some(w.clone()),
        _ => None,
    }
}

/// The marks among the pieces, where never too many brackets are open.
fn find_marks(tokens: &Vec<Token>) -> (r: Option<String>)
    requires
        tokens@.len() <= MOST_TOKENS,
    ensures
        ({
            let all = token_views(tokens@);
            match r {
                Some(m) => m@ == marks(all, all.len()) && forall|n: nat|
                    n <= all.len() ==> #[trigger] depth(all, n) <= DEEPEST,
                None => exists|n: nat| n <= all.len() && #[trigger] depth(all, n) > DEEPEST,
            }
        }),
{
    let ghost all = token_views(tokens@);
    let mut r = String::new();
    let mut open: i64 = 0;
    let mut i: usize = 0;
    assert(r@ =~= Seq::<char>::empty());
    while i < tokens.len()
        invariant
            i <= tokens@.len() <= MOST_TOKENS,
            all == token_views(tokens@),
            all.len() == tokens@.len(),
            -(i as int) <= open <= i,
            open == depth(all, i as nat),
            r@ == marks(all, i as nat),
            forall|n: nat| n <= i ==> #[trigger] depth(all, n) <= DEEPEST,
        decreases tokens@.len() - i,
    {
        assert(all[i as int] == tokens@[i as int]@);
        if let Token::Mark(c) = &tokens[i] {
            open = open + change_of_nesting(*c);
            r.push(*c);
        }
        i = i + 1;
        assert(open == depth(all, i as nat));
        if open > DEEPEST {
            return None;
        }
    }
    Some(r)
}

fn simple_statement(tokens: &Vec<Token>) -> (r: bool)
    ensures
        r == is_simple_statement(token_views(tokens@)),
{
    match find_first_word(tokens) {
        Some(w) => {
            let w = w.as_str();
            same(w, "if") || same(w, "elif") || same(w, "else") || same(w, "endif") || same(
                w,
                "for",
            ) || same(w, "endfor") || same(w, "set") || same(w, "endset")
        },
        None => false,
    }
}

fn simple(b: &Block) -> (r: bool)
    ensures
        r == is_simple(b@),
{
    assert(b@.tokens.len() == b.tokens@.len());
    if b.tokens.len() > MOST_TOKENS {
        return false;
    }
    let marks = match find_marks(&b.tokens) {
        Some(m) => m,
        None => return false,
    };
    if contains_char(marks.as_str(), '*') || occur_in_turn_in("[::]", marks.as_str()) {
        return false;
    }
    let mut i: usize = 0;
    while i < b.tokens.len()
        invariant
            i <= b.tokens@.len(),
            b@.tokens == token_views(b.tokens@),
            b@.tokens.len() == b.tokens@.len(),
            forall|k: int| 0 <= k < i ==> #[trigger] is_simple_at(b@.tokens, k),
        decreases b.tokens@.len() - i,
    {
        if !simple_at(&b.tokens, i) {
            return false;
        }
        i = i + 1;
    }
    !b.statement || simple_statement(&b.tokens)
}

fn binding(b: &Block) -> (r: bool)
    ensures
        r == binds(b@),
{
    if !b.statement {
        return false;
    }
    match find_first_word(&b.tokens) {
        Some(w) => same(w.as_str(), "for") || same(w.as_str(), "set"),
        None => false,
    }
}

/// Whether a template is simple.
pub fn simple_template(t: &str) -> (r: bool)
    ensures
        r == is_simple_template(t@),
{
    if t.unicode_len() > LONGEST {
        return false;
    }
    let found = find_blocks(t);
    let ghost all = blocks(t@, 0);
    assert(all.len() == found@.len());
    if found.len() > MOST_BLOCKS {
        return false;
    }
    let mut names: usize = 0;
    let mut i: usize = 0;
    while i < found.len()
        invariant
            i <= found@.len() <= MOST_BLOCKS,
            all == block_views(found@),
            all.len() == found@.len(),
            names <= i,
            names == bindings(all, i as nat),
            forall|k: int| 0 <= k < i ==> #[trigger] is_simple(all[k]),
            all == blocks(t@, 0),
        decreases found@.len() - i,
    {
        assert(all[i as int] == found@[i as int]@);
        if !simple(&found[i]) {
            assert(!is_simple(all[i as int]));
            return false;
        }
        if binding(&found[i]) {
            names = names + 1;
        }
        i = i + 1;
    }
    names <= 1
}

/// A text without braces is a simple template, unless it is too long.
pub proof fn plain_texts_are_simple(t: Seq<char>)
    requires
        !t.contains('{'),
    ensures
        is_simple_template(t) <==> t.len() <= 4096,
{
    lemma_no_blocks(t, 0);
}

proof fn lemma_no_blocks(t: Seq<char>, from: int)
    requires
        0 <= from <= t.len(),
        !t.contains('{'),
    ensures
        blocks(t, from) == Seq::<BlockView>::empty(),
    decreases t.len() - from,
{
    if from + 1 < t.len() {
        assert(t.contains(t[from]));
        lemma_no_blocks(t, from + 1);
    }
}

} // verus!
