//! Turning source text into tokens.

use vstd::prelude::*;
use vstd::string::*;
use crate::number::Num;

verus! {

/// The punctuation of the expression language.
#[derive(Debug, Clone, Copy, PartialEq, Eq, Structural)]
pub enum Operator {
    Plus,
    Minus,
    Star,
    Slash,
    Caret,
    Exclamation,
    Pipe,
    LParen,
    RParen,
    Equals,
    DoubleEquals,
    Greater,
    GreaterEqual,
    Lesser,
    LesserEqual,
    NotEquals,
}

/// The reserved words.
#[derive(Debug, Clone, Copy, PartialEq, Eq, Structural)]
pub enum Keyword {
    And,
    Or,
    True,
    False,
}

/// One lexical unit.
#[derive(Debug, PartialEq)]
pub enum Token<T> {
    Number(T),
    Identifier(String),
    Operator(Operator),
    Keyword(Keyword),
}

/// What a token is, with its name as a sequence of characters.
pub enum TokenView<T> {
    Number(T),
    Identifier(Seq<char>),
    Operator(Operator),
    Keyword(Keyword),
}

impl<T> View for Token<T> {
    type V = TokenView<T>;

    open spec fn view(&self) -> TokenView<T> {
        match self {
            Token::Number(n) => TokenView::Number(*n),
            Token::Identifier(name) => TokenView::Identifier(name@),
            Token::Operator(op) => TokenView::Operator(*op),
            Token::Keyword(k) => TokenView::Keyword(*k),
        }
    }
}

/// The views of a run of tokens, in order.
pub open spec fn token_views<T>(tokens: Seq<Token<T>>) -> Seq<TokenView<T>> {
    Seq::new(tokens.len(), |i: int| tokens[i]@)
}

impl<T: Num> Token<T> {
    /// A copy of the token.
    pub fn duplicate(&self) -> (r: Token<T>)
        ensures
            r@ == self@,
    {
        match self {
            Token::Number(n) => Token::Number(n.duplicate()),
            Token::Identifier(name) => Token::Identifier(name.clone()),
            Token::Operator(op) => Token::Operator(*op),
            Token::Keyword(k) => Token::Keyword(*k),
        }
    }
}

impl<T: Num> Clone for Token<T> {
    fn clone(&self) -> (r: Token<T>)
        ensures
            r@ == self@,
    {
        self.duplicate()
    }
}

/// A character that no token can start with, and where it stands, counted in
/// characters from the start of the text.
#[derive(Debug, Clone, Copy, PartialEq, Eq, Structural)]
pub struct LexError {
    pub character: char,
    pub position: usize,
}

/// The characters that separate tokens: space, tab, line feed and carriage
/// return.
pub open spec fn is_space(c: char) -> bool {
    c == ' ' || c == '\t' || c == '\n' || c == '\r'
}

/// The decimal digits.
pub open spec fn is_digit(c: char) -> bool {
    '0' <= c && c <= '9'
}

/// Digits and the decimal point make up a numeric literal.
pub open spec fn is_number_char(c: char) -> bool {
    is_digit(c) || c == '.'
}

/// A word starts with a letter or the underscore.
pub open spec fn is_word_start(c: char) -> bool {
    ('a' <= c && c <= 'z') || ('A' <= c && c <= 'Z') || c == '_'
}

/// Behind its first character a word goes on over letters, the underscore
/// and digits.
pub open spec fn is_word_char(c: char) -> bool {
    is_word_start(c) || is_digit(c)
}

/// Where the run of number characters that holds position `p` ends.
pub open spec fn number_end(s: Seq<char>, p: int) -> int
    decreases s.len() - p,
{
    if 0 <= p < s.len() && is_number_char(s[p]) {
        number_end(s, p + 1)
    } else {
        p
    }
}

/// Where the run of word characters that holds position `p` ends.
pub open spec fn word_end(s: Seq<char>, p: int) -> int
    decreases s.len() - p,
{
    if 0 <= p < s.len() && is_word_char(s[p]) {
        word_end(s, p + 1)
    } else {
        p
    }
}

/// The token that a word stands for: a keyword where it is reserved, an
/// identifier otherwise.
pub open spec fn word_token<T>(w: Seq<char>) -> TokenView<T> {
    if w == seq!['a', 'n', 'd'] {
        TokenView::Keyword(Keyword::And)
    } else if w == seq!['o', 'r'] {
        TokenView::Keyword(Keyword::Or)
    } else if w == seq!['t', 'r', 'u', 'e'] {
        TokenView::Keyword(Keyword::True)
    } else if w == seq!['f', 'a', 'l', 's', 'e'] {
        TokenView::Keyword(Keyword::False)
    } else {
        TokenView::Identifier(w)
    }
}

/// The operator that starts at position `p`, with its length in characters.
/// The two-character forms win over their one-character prefixes.
pub open spec fn operator_at(s: Seq<char>, p: int) -> Option<(Operator, int)>
    recommends
        0 <= p < s.len(),
{
    let c = s[p];
    let followed_by_equals = p + 1 < s.len() && s[p + 1] == '=';
    if c == '+' {
        Some((Operator::Plus, 1))
    } else if c == '-' {
        Some((Operator::Minus, 1))
    } else if c == '*' {
        Some((Operator::Star, 1))
    } else if c == '/' {
        Some((Operator::Slash, 1))
    } else if c == '^' {
        Some((Operator::Caret, 1))
    } else if c == '|' {
        Some((Operator::Pipe, 1))
    } else if c == '(' {
        Some((Operator::LParen, 1))
    } else if c == ')' {
        Some((Operator::RParen, 1))
    } else if c == '!' {
        if followed_by_equals {
            Some((Operator::NotEquals, 2))
        } else {
            Some((Operator::Exclamation, 1))
        }
    } else if c == '=' {
        if followed_by_equals {
            Some((Operator::DoubleEquals, 2))
        } else {
            Some((Operator::Equals, 1))
        }
    } else if c == '>' {
        if followed_by_equals {
            Some((Operator::GreaterEqual, 2))
        } else {
            Some((Operator::Greater, 1))
        }
    } else if c == '<' {
        if followed_by_equals {
            Some((Operator::LesserEqual, 2))
        } else {
            Some((Operator::Lesser, 1))
        }
    } else {
        None
    }
}

/// A result with `front` put before the tokens of a success.
pub open spec fn prepend<T>(
    front: Seq<TokenView<T>>,
    rest: Result<Seq<TokenView<T>>, LexError>,
) -> Result<Seq<TokenView<T>>, LexError> {
    match rest {
        Ok(tokens) => Ok(front + tokens),
        Err(e) => Err(e),
    }
}

/// The tokens of `s` from position `p` on.
///
/// Spaces are skipped. A number is the longest run of digits and points, read
/// by the number type; a run that it does not accept is refused at its first
/// character. A word starts with a letter or an underscore and is the longest
/// run of letters, underscores and digits behind it. Anything
/// else is an operator or an error. Before it goes on behind a run, the
/// definition asks whether the run took a character, which makes its
/// recursion evidently finite; the answer is always yes.
pub open spec fn lex_from<T: Num>(s: Seq<char>, p: int) -> Result<Seq<TokenView<T>>, LexError>
    recommends
        0 <= p,
        s.len() <= usize::MAX,
    decreases s.len() - p,
{
    if p < 0 || p >= s.len() {
        Ok(Seq::empty())
    } else if is_space(s[p]) {
        lex_from(s, p + 1)
    } else if is_number_char(s[p]) {
        let q = number_end(s, p + 1);
        match T::spec_from_flt64_str(s.subrange(p, q)) {
            Some(n) => if p < q <= s.len() {
                prepend(seq![TokenView::Number(n)], lex_from(s, q))
            } else {
                Ok(Seq::empty())
            },
            None => Err(LexError { character: s[p], position: p as usize }),
        }
    } else if is_word_start(s[p]) {
        let q = word_end(s, p + 1);
        if p < q <= s.len() {
            prepend(seq![word_token(s.subrange(p, q))], lex_from(s, q))
        } else {
            Ok(Seq::empty())
        }
    } else {
        match operator_at(s, p) {
            Some((op, n)) => prepend(seq![TokenView::Operator(op)], lex_from(s, p + n)),
            None => Err(LexError { character: s[p], position: p as usize }),
        }
    }
}

/// The tokens of a whole text.
pub open spec fn lex_spec<T: Num>(s: Seq<char>) -> Result<Seq<TokenView<T>>, LexError> {
    lex_from(s, 0)
}

/// What `tokenize` returns, with each token taken by its view.
pub open spec fn lexed_view<T>(r: Result<Vec<Token<T>>, LexError>) -> Result<
    Seq<TokenView<T>>,
    LexError,
> {
    match r {
        Ok(tokens) => Ok(token_views(tokens@)),
        Err(e) => Err(e),
    }
}

fn separates(c: char) -> (r: bool)
    ensures
        r == is_space(c),
{
    c == ' ' || c == '\t' || c == '\n' || c == '\r'
}

fn belongs_to_number(c: char) -> (r: bool)
    ensures
        r == is_number_char(c),
{
    ('0' <= c && c <= '9') || c == '.'
}

fn starts_word(c: char) -> (r: bool)
    ensures
        r == is_word_start(c),
{
    ('a' <= c && c <= 'z') || ('A' <= c && c <= 'Z') || c == '_'
}

fn belongs_to_word(c: char) -> (r: bool)
    ensures
        r == is_word_char(c),
{
    starts_word(c) || ('0' <= c && c <= '9')
}

fn scan_number(src: &str, from: usize, len: usize) -> (end: usize)
    requires
        len == src@.len(),
        from <= len,
    ensures
        end == number_end(src@, from as int),
        from <= end <= len,
{
    let mut i: usize = from;
    while i < len
        invariant
            len == src@.len(),
            from <= i <= len,
            number_end(src@, from as int) == number_end(src@, i as int),
        decreases len - i,
    {
        if !belongs_to_number(src.get_char(i)) {
            return i;
        }
        i += 1;
    }
    i
}

fn scan_word(src: &str, from: usize, len: usize) -> (end: usize)
    requires
        len == src@.len(),
        from <= len,
    ensures
        end == word_end(src@, from as int),
        from <= end <= len,
{
    let mut i: usize = from;
    while i < len
        invariant
            len == src@.len(),
            from <= i <= len,
            word_end(src@, from as int) == word_end(src@, i as int),
        decreases len - i,
    {
        if !belongs_to_word(src.get_char(i)) {
            return i;
        }
        i += 1;
    }
    i
}

fn spells(word: &str, letters: &Vec<char>) -> (r: bool)
    ensures
        r == (word@ == letters@),
{
    let n = word.unicode_len();
    if n != letters.len() {
        return false;
    }
    let mut i: usize = 0;
    while i < n
        invariant
            n == word@.len(),
            n == letters@.len(),
            i <= n,
            forall|j: int| 0 <= j < i ==> word@[j] == letters@[j],
        decreases n - i,
    {
        if word.get_char(i) != letters[i] {
            return false;
        }
        i += 1;
    }
    assert(word@ =~= letters@);
    true
}

fn read_word<T: Num>(word: &str) -> (r: Token<T>)
    ensures
        r@ == word_token::<T>(word@),
{
    if spells(word, &vec!['a', 'n', 'd']) {
        Token::Keyword(Keyword::And)
    } else if spells(word, &vec!['o', 'r']) {
        Token::Keyword(Keyword::Or)
    } else if spells(word, &vec!['t', 'r', 'u', 'e']) {
        Token::Keyword(Keyword::True)
    } else if spells(word, &vec!['f', 'a', 'l', 's', 'e']) {
        Token::Keyword(Keyword::False)
    } else {
        Token::Identifier(String::from_str(word))
    }
}

fn read_operator(src: &str, pos: usize, len: usize) -> (r: Option<(Operator, usize)>)
    requires
        len == src@.len(),
        pos < len,
    ensures
        match r {
            Some((op, n)) => operator_at(src@, pos as int) == Some((op, n as int)) && pos + n
                <= len,
            None => operator_at(src@, pos as int).is_none(),
        },
{
    let c = src.get_char(pos);
    let followed_by_equals = pos + 1 < len && src.get_char(pos + 1) == '=';
    if c == '+' {
        Some((Operator::Plus, 1))
    } else if c == '-' {
        Some((Operator::Minus, 1))
    } else if c == '*' {
        Some((Operator::Star, 1))
    } else if c == '/' {
        Some((Operator::Slash, 1))
    } else if c == '^' {
        Some((Operator::Caret, 1))
    } else if c == '|' {
        Some((Operator::Pipe, 1))
    } else if c == '(' {
        Some((Operator::LParen, 1))
    } else if c == ')' {
        Some((Operator::RParen, 1))
    } else if c == '!' {
        if followed_by_equals {
            Some((Operator::NotEquals, 2))
        } else {
            Some((Operator::Exclamation, 1))
        }
    } else if c == '=' {
        if followed_by_equals {
            Some((Operator::DoubleEquals, 2))
        } else {
            Some((Operator::Equals, 1))
        }
    } else if c == '>' {
        if followed_by_equals {
            Some((Operator::GreaterEqual, 2))
        } else {
            Some((Operator::Greater, 1))
        }
    } else if c == '<' {
        if followed_by_equals {
            Some((Operator::LesserEqual, 2))
        } else {
            Some((Operator::Lesser, 1))
        }
    } else {
        None
    }
}

proof fn lemma_pushed_views<T>(tokens: Seq<Token<T>>, t: Token<T>)
    ensures
        token_views(tokens.push(t)) == token_views(tokens) + seq![t@],
{
    assert(token_views(tokens.push(t)) =~= token_views(tokens) + seq![t@]);
}

proof fn lemma_prepend_twice<T>(
    a: Seq<TokenView<T>>,
    b: Seq<TokenView<T>>,
    rest: Result<Seq<TokenView<T>>, LexError>,
)
    ensures
        prepend(a, prepend(b, rest)) == prepend(a + b, rest),
{
    match rest {
        Ok(tokens) => {
            assert(a + (b + tokens) =~= (a + b) + tokens);
        },
        Err(_) => {},
    }
}

/// Splits a text into its tokens, or names the first character that starts
/// none.
pub fn tokenize<T: Num>(src: &str) -> (r: Result<Vec<Token<T>>, LexError>)
    ensures
        lexed_view(r) == lex_spec::<T>(src@),
{
    let len = src.unicode_len();
    let mut tokens: Vec<Token<T>> = Vec::new();
    let mut pos: usize = 0;
    proof {
        assert(token_views(tokens@) =~= Seq::<TokenView<T>>::empty());
        assert(Seq::<TokenView<T>>::empty() + Seq::<TokenView<T>>::empty() =~= Seq::<
            TokenView<T>,
        >::empty());
        lemma_prepend_twice(token_views(tokens@), Seq::empty(), lex_from::<T>(src@, 0));
        assert(token_views(tokens@) + Seq::<TokenView<T>>::empty() =~= token_views(tokens@));
    }
    while pos < len
        invariant
            len == src@.len(),
            pos <= len,
            lex_spec::<T>(src@) == prepend(token_views(tokens@), lex_from::<T>(src@, pos as int)),
        decreases len - pos,
    {
        let c = src.get_char(pos);
        let ghost before = tokens@;
        if separates(c) {
            pos += 1;
        } else if belongs_to_number(c) {
            let end = scan_number(src, pos + 1, len);
            match T::from_flt64_str(src.substring_char(pos, end)) {
                Some(n) => {
                    let token = Token::Number(n);
                    proof {
                        lemma_pushed_views(before, token);
                        lemma_prepend_twice(
                            token_views(before),
                            seq![token@],
                            lex_from::<T>(src@, end as int),
                        );
                    }
                    tokens.push(token);
                    pos = end;
                },
                None => {
                    return Err(LexError { character: c, position: pos });
                },
            }
        } else if starts_word(c) {
            let end = scan_word(src, pos + 1, len);
            let token = read_word::<T>(src.substring_char(pos, end));
            proof {
                lemma_pushed_views(before, token);
                lemma_prepend_twice(
                    token_views(before),
                    seq![token@],
                    lex_from::<T>(src@, end as int),
                );
            }
            tokens.push(token);
            pos = end;
        } else {
            match read_operator(src, pos, len) {
                Some((op, n)) => {
                    let token = Token::Operator(op);
                    proof {
                        lemma_pushed_views(before, token);
                        lemma_prepend_twice(
                            token_views(before),
                            seq![token@],
                            lex_from::<T>(src@, pos + n),
                        );
                    }
                    tokens.push(token);
                    pos = pos + n;
                },
                None => {
                    return Err(LexError { character: c, position: pos });
                },
            }
        }
    }
    proof {
        assert(token_views(tokens@) + Seq::<TokenView<T>>::empty() =~= token_views(tokens@));
    }
    Ok(tokens)
}

/// A run ends inside the text, at or behind where it was asked for. So the
/// lexer never asks in vain whether a token took a character.
pub proof fn lemma_runs_stay(s: Seq<char>, p: int)
    requires
        0 <= p <= s.len(),
    ensures
        p <= number_end(s, p) <= s.len(),
        p <= word_end(s, p) <= s.len(),
    decreases s.len() - p,
{
    if p < s.len() {
        lemma_runs_stay(s, p + 1);
    }
}

proof fn lemma_number_run(s: Seq<char>, p: int)
    requires
        0 <= p <= s.len(),
        forall|i: int| 0 <= i < s.len() ==> is_number_char(#[trigger] s[i]),
    ensures
        number_end(s, p) == s.len(),
    decreases s.len() - p,
{
    if p < s.len() {
        lemma_number_run(s, p + 1);
    }
}

proof fn lemma_word_run(s: Seq<char>, p: int)
    requires
        0 <= p <= s.len(),
        forall|i: int| 0 <= i < s.len() ==> is_word_char(#[trigger] s[i]),
    ensures
        word_end(s, p) == s.len(),
    decreases s.len() - p,
{
    if p < s.len() {
        lemma_word_run(s, p + 1);
    }
}

/// A text of digits and points alone that the number type reads is one
/// token: the number read.
pub proof fn lemma_literal_is_one_token<T: Num>(s: Seq<char>, n: T)
    requires
        s.len() > 0,
        forall|i: int| 0 <= i < s.len() ==> is_number_char(#[trigger] s[i]),
        T::spec_from_flt64_str(s) == Some(n),
    ensures
        lex_spec::<T>(s) == Ok::<Seq<TokenView<T>>, LexError>(seq![TokenView::Number(n)]),
{
    lemma_number_run(s, 1);
    assert(is_number_char(s[0]));
    assert(s.subrange(0, s.len() as int) =~= s);
    assert(lex_from::<T>(s, s.len() as int) == Ok::<Seq<TokenView<T>>, LexError>(Seq::empty()));
    assert(seq![TokenView::Number(n)] + Seq::<TokenView<T>>::empty() =~= seq![
        TokenView::Number(n),
    ]);
}

/// A word alone is one token: the keyword that it spells, or else an
/// identifier of that name.
pub proof fn lemma_word_is_one_token<T: Num>(s: Seq<char>)
    requires
        s.len() > 0,
        is_word_start(s[0]),
        forall|i: int| 0 <= i < s.len() ==> is_word_char(#[trigger] s[i]),
    ensures
        lex_spec::<T>(s) == Ok::<Seq<TokenView<T>>, LexError>(seq![word_token::<T>(s)]),
{
    lemma_word_run(s, 1);
    assert(s.subrange(0, s.len() as int) =~= s);
    assert(lex_from::<T>(s, s.len() as int) == Ok::<Seq<TokenView<T>>, LexError>(Seq::empty()));
    assert(seq![word_token::<T>(s)] + Seq::<TokenView<T>>::empty() =~= seq![word_token::<T>(s)]);
}

/// Lexing depends on the text alone: two results for one text hold the same
/// tokens, or the same error.
pub proof fn lemma_lex_is_determined<T: Num>(
    s: Seq<char>,
    a: Result<Vec<Token<T>>, LexError>,
    b: Result<Vec<Token<T>>, LexError>,
)
    requires
        lexed_view(a) == lex_spec::<T>(s),
        lexed_view(b) == lex_spec::<T>(s),
    ensures
        lexed_view(a) == lexed_view(b),
{
}

proof fn lemma_number_run_until(s: Seq<char>, p: int, k: int)
    requires
        0 <= p <= k < s.len(),
        forall|i: int| 0 <= i < k ==> is_number_char(#[trigger] s[i]),
        !is_number_char(s[k]),
    ensures
        number_end(s, p) == k,
    decreases k - p,
{
    if p < k {
        lemma_number_run_until(s, p + 1, k);
    }
}

proof fn lemma_word_run_from(s: Seq<char>, p: int, k: int)
    requires
        0 <= k <= p <= s.len(),
        forall|i: int| k <= i < s.len() ==> is_word_char(#[trigger] s[i]),
    ensures
        word_end(s, p) == s.len(),
    decreases s.len() - p,
{
    if p < s.len() {
        lemma_word_run_from(s, p + 1, k);
    }
}

/// A literal with a word written directly behind it is two tokens: the
/// number, then the word.
pub proof fn lemma_literal_then_word<T: Num>(s: Seq<char>, k: int, n: T)
    requires
        0 < k < s.len(),
        forall|i: int| 0 <= i < k ==> is_number_char(#[trigger] s[i]),
        is_word_start(s[k]),
        forall|i: int| k <= i < s.len() ==> is_word_char(#[trigger] s[i]),
        T::spec_from_flt64_str(s.subrange(0, k)) == Some(n),
    ensures
        lex_spec::<T>(s) == Ok::<Seq<TokenView<T>>, LexError>(
            seq![TokenView::Number(n), word_token::<T>(s.subrange(k, s.len() as int))],
        ),
{
    let len = s.len() as int;
    let word = word_token::<T>(s.subrange(k, len));
    assert(is_number_char(s[0]));
    lemma_number_run_until(s, 1, k);
    lemma_word_run_from(s, k + 1, k);
    assert(lex_from::<T>(s, len) == Ok::<Seq<TokenView<T>>, LexError>(Seq::empty()));
    assert(seq![word] + Seq::<TokenView<T>>::empty() =~= seq![word]);
    assert(lex_from::<T>(s, k) == Ok::<Seq<TokenView<T>>, LexError>(seq![word]));
    assert(seq![TokenView::Number(n)] + seq![word] =~= seq![TokenView::Number(n), word]);
}

} // verus!
