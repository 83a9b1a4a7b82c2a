//! The grammar: what a run of tokens means, rule by rule, from the loosest
//! to the tightest, and what holds of every rule.

use vstd::prelude::*;
use crate::lexer::{Keyword, Operator, TokenView};
use crate::parser::{ExprView, ParserErrorView};

verus! {
/// What a grammar rule makes of the tokens from some position on: the tree or
/// the error, and the position behind the last token it took.
pub type Parsed<T> = (Result<ExprView<T>, ParserErrorView<T>>, int);

/// The token at position `p`, if there is one.
pub open spec fn peek<T>(tv: Seq<TokenView<T>>, p: int) -> Option<TokenView<T>> {
    if 0 <= p < tv.len() {
        Some(tv[p])
    } else {
        None
    }
}

/// Whether the token at position `p` is the operator `op`.
pub open spec fn is_op<T>(tv: Seq<TokenView<T>>, p: int, op: Operator) -> bool {
    peek(tv, p) == Some(TokenView::<T>::Operator(op))
}

/// Whether the token at position `p` is the keyword `k`.
pub open spec fn is_keyword<T>(tv: Seq<TokenView<T>>, p: int, k: Keyword) -> bool {
    peek(tv, p) == Some(TokenView::<T>::Keyword(k))
}

/// The position behind the token at `p`; `p` itself at the end of input.
pub open spec fn after<T>(tv: Seq<TokenView<T>>, p: int) -> int {
    if 0 <= p < tv.len() {
        p + 1
    } else {
        p
    }
}

/// Whether a rule that started at `p` and stopped at `q` took at least one
/// token and stayed inside the input. Every rule does on success; the grammar
/// below asks before it goes on from `q`, which makes its recursion evidently
/// finite.
pub open spec fn advances<T>(tv: Seq<TokenView<T>>, p: int, q: int) -> bool {
    p < q <= tv.len()
}

/// The result of a rule that cannot go on. No input leads here.
pub open spec fn stuck<T>(p: int) -> Parsed<T> {
    (Err(ParserErrorView::ExpectedFactor(None)), p)
}

/// A parenthesised expression whose inside has been read: the closing
/// parenthesis is due.
pub open spec fn paren_rest<T>(tv: Seq<TokenView<T>>, inner: Parsed<T>) -> Parsed<T> {
    match inner {
        (Ok(e), q) => if is_op(tv, q, Operator::RParen) {
            (Ok(e), q + 1)
        } else {
            (Err(ParserErrorView::ExpectedClosingParenthesis), after(tv, q))
        },
        (Err(e), q) => (Err(e), q),
    }
}

/// An absolute value whose inside has been read: the closing bar is due.
pub open spec fn abs_rest<T>(tv: Seq<TokenView<T>>, inner: Parsed<T>) -> Parsed<T> {
    match inner {
        (Ok(e), q) => if is_op(tv, q, Operator::Pipe) {
            (Ok(ExprView::Abs(Box::new(e))), q + 1)
        } else {
            (Err(ParserErrorView::ExpectedClosingPipe), after(tv, q))
        },
        (Err(e), q) => (Err(e), q),
    }
}

/// A function call whose argument has been read: the closing parenthesis is
/// due.
pub open spec fn call_rest<T>(tv: Seq<TokenView<T>>, name: Seq<char>, inner: Parsed<T>) -> Parsed<
    T,
> {
    match inner {
        (Ok(e), q) => if is_op(tv, q, Operator::RParen) {
            (Ok(ExprView::Function(name, Box::new(e))), q + 1)
        } else {
            (Err(ParserErrorView::ExpectedClosingParenthesis), after(tv, q))
        },
        (Err(e), q) => (Err(e), q),
    }
}

/// A rule's result with a node put around its tree.
pub open spec fn wrap<T>(inner: Parsed<T>, node: spec_fn(ExprView<T>) -> ExprView<T>) -> Parsed<
    T,
> {
    match inner {
        (Ok(e), q) => (Ok(node(e)), q),
        (Err(e), q) => (Err(e), q),
    }
}

/// factor: a parenthesised expression, an absolute value, a name in one of
/// its uses, a negated factor, or a number.
///
/// A name is a call when `(`, a number or another name follows; before `|` it
/// is dropped and the bars alone count; before `=` it is assigned to; else it
/// is a reference. An error inside parentheses or bars is the error of the
/// whole factor.
pub open spec fn factor_spec<T>(tv: Seq<TokenView<T>>, p: int) -> Parsed<T>
    decreases tv.len() - p, 0int,
{
    match peek(tv, p) {
        Some(TokenView::Operator(Operator::LParen)) => paren_rest(tv, additive_spec(tv, p + 1)),
        Some(TokenView::Operator(Operator::Pipe)) => abs_rest(tv, additive_spec(tv, p + 1)),
        Some(TokenView::Identifier(name)) => match peek(tv, p + 1) {
            Some(TokenView::Operator(Operator::LParen)) => call_rest(
                tv,
                name,
                additive_spec(tv, p + 2),
            ),
            Some(TokenView::Operator(Operator::Pipe)) => abs_rest(tv, additive_spec(tv, p + 2)),
            Some(TokenView::Number(n)) => (
                Ok(ExprView::Function(name, Box::new(ExprView::Constant(n)))),
                p + 2,
            ),
            Some(TokenView::Identifier(_)) => wrap(
                factor_spec(tv, p + 1),
                |e: ExprView<T>| ExprView::Function(name, Box::new(e)),
            ),
            Some(TokenView::Operator(Operator::Equals)) => wrap(
                additive_spec(tv, p + 2),
                |e: ExprView<T>| ExprView::Assignment(name, Box::new(e)),
            ),
            _ => (Ok(ExprView::Identifier(name)), p + 1),
        },
        Some(TokenView::Operator(Operator::Minus)) => wrap(
            factor_spec(tv, p + 1),
            |e: ExprView<T>| ExprView::Neg(Box::new(e)),
        ),
        Some(TokenView::Number(n)) => (Ok(ExprView::Constant(n)), p + 1),
        t => (Err(ParserErrorView::ExpectedFactor(t)), after(tv, p)),
    }
}

/// factorial: a factor, and `!` behind it where there is one.
pub open spec fn factorial_spec<T>(tv: Seq<TokenView<T>>, p: int) -> Parsed<T>
    decreases tv.len() - p, 1int,
{
    match factor_spec(tv, p) {
        (Ok(e), q) => if is_op(tv, q, Operator::Exclamation) {
            (Ok(ExprView::Factorial(Box::new(e))), q + 1)
        } else {
            (Ok(e), q)
        },
        (Err(e), q) => (Err(e), q),
    }
}

/// What follows a base at `p`: each `^` with its exponent, folded to the left.
pub open spec fn power_tail<T>(tv: Seq<TokenView<T>>, p: int, base: ExprView<T>) -> Parsed<T>
    decreases tv.len() - p, 0int,
{
    if is_op(tv, p, Operator::Caret) {
        match factorial_spec(tv, p + 1) {
            (Ok(e), q) => if advances(tv, p, q) {
                power_tail(tv, q, ExprView::Pow(Box::new(base), Box::new(e)))
            } else {
                stuck(q)
            },
            (Err(e), q) => (Err(e), q),
        }
    } else {
        (Ok(base), p)
    }
}

/// power: a factorial and its exponents.
pub open spec fn power_spec<T>(tv: Seq<TokenView<T>>, p: int) -> Parsed<T>
    decreases tv.len() - p, 2int,
{
    match factorial_spec(tv, p) {
        (Ok(e), q) => if advances(tv, p, q) {
            power_tail(tv, q, e)
        } else {
            stuck(q)
        },
        (Err(e), q) => (Err(e), q),
    }
}

/// What follows a left operand at `p`: each parenthesised expression, with
/// its own exponents, multiplied on from the left.
pub open spec fn juxtaposed_tail<T>(tv: Seq<TokenView<T>>, p: int, left: ExprView<T>) -> Parsed<T>
    decreases tv.len() - p, 1int,
{
    if is_op(tv, p, Operator::LParen) {
        match additive_spec(tv, p + 1) {
            (Ok(inner), q) => if !advances(tv, p, q) {
                stuck(q)
            } else if is_op(tv, q, Operator::RParen) {
                match power_tail(tv, q + 1, inner) {
                    (Ok(right), q2) => if advances(tv, q, q2) {
                        juxtaposed_tail(
                            tv,
                            q2,
                            ExprView::BinOp(Operator::Star, Box::new(left), Box::new(right)),
                        )
                    } else {
                        stuck(q2)
                    },
                    (Err(e), q2) => (Err(e), q2),
                }
            } else {
                (Err(ParserErrorView::ExpectedClosingParenthesis), after(tv, q))
            },
            (Err(e), q) => (Err(e), q),
        }
    } else {
        (Ok(left), p)
    }
}

/// implicit multiplication: a power and the parenthesised factors behind it.
pub open spec fn juxtaposed_spec<T>(tv: Seq<TokenView<T>>, p: int) -> Parsed<T>
    decreases tv.len() - p, 3int,
{
    match power_spec(tv, p) {
        (Ok(e), q) => if advances(tv, p, q) {
            juxtaposed_tail(tv, q, e)
        } else {
            stuck(q)
        },
        (Err(e), q) => (Err(e), q),
    }
}

/// The operator at `p`, where it is `*` or `/`.
pub open spec fn multiplicative_op<T>(tv: Seq<TokenView<T>>, p: int) -> Option<Operator> {
    if is_op(tv, p, Operator::Star) {
        Some(Operator::Star)
    } else if is_op(tv, p, Operator::Slash) {
        Some(Operator::Slash)
    } else {
        None
    }
}

/// What follows a left operand at `p`: each `*` or `/` with its operand,
/// folded to the left.
pub open spec fn multiplicative_tail<T>(tv: Seq<TokenView<T>>, p: int, left: ExprView<T>) -> Parsed<
    T,
>
    decreases tv.len() - p, 0int,
{
    match multiplicative_op(tv, p) {
        Some(op) => match juxtaposed_spec(tv, p + 1) {
            (Ok(right), q) => if advances(tv, p, q) {
                multiplicative_tail(tv, q, ExprView::BinOp(op, Box::new(left), Box::new(right)))
            } else {
                stuck(q)
            },
            (Err(e), q) => (Err(e), q),
        },
        None => (Ok(left), p),
    }
}

/// multiplicative: operands joined by `*` and `/`.
pub open spec fn multiplicative_spec<T>(tv: Seq<TokenView<T>>, p: int) -> Parsed<T>
    decreases tv.len() - p, 4int,
{
    match juxtaposed_spec(tv, p) {
        (Ok(e), q) => if advances(tv, p, q) {
            multiplicative_tail(tv, q, e)
        } else {
            stuck(q)
        },
        (Err(e), q) => (Err(e), q),
    }
}

/// The operator at `p`, where it is `+` or `-`.
pub open spec fn additive_op<T>(tv: Seq<TokenView<T>>, p: int) -> Option<Operator> {
    if is_op(tv, p, Operator::Plus) {
        Some(Operator::Plus)
    } else if is_op(tv, p, Operator::Minus) {
        Some(Operator::Minus)
    } else {
        None
    }
}

/// What follows a left operand at `p`: each `+` or `-` with its operand,
/// folded to the left.
pub open spec fn additive_tail<T>(tv: Seq<TokenView<T>>, p: int, left: ExprView<T>) -> Parsed<T>
    decreases tv.len() - p, 0int,
{
    match additive_op(tv, p) {
        Some(op) => match multiplicative_spec(tv, p + 1) {
            (Ok(right), q) => if advances(tv, p, q) {
                additive_tail(tv, q, ExprView::BinOp(op, Box::new(left), Box::new(right)))
            } else {
                stuck(q)
            },
            (Err(e), q) => (Err(e), q),
        },
        None => (Ok(left), p),
    }
}

/// additive: operands joined by `+` and `-`.
pub open spec fn additive_spec<T>(tv: Seq<TokenView<T>>, p: int) -> Parsed<T>
    decreases tv.len() - p, 5int,
{
    match multiplicative_spec(tv, p) {
        (Ok(e), q) => if advances(tv, p, q) {
            additive_tail(tv, q, e)
        } else {
            stuck(q)
        },
        (Err(e), q) => (Err(e), q),
    }
}

/// The operator at `p`, where it relates two values.
pub open spec fn relational_op<T>(tv: Seq<TokenView<T>>, p: int) -> Option<Operator> {
    if is_op(tv, p, Operator::Equals) {
        Some(Operator::Equals)
    } else if is_op(tv, p, Operator::Greater) {
        Some(Operator::Greater)
    } else if is_op(tv, p, Operator::GreaterEqual) {
        Some(Operator::GreaterEqual)
    } else if is_op(tv, p, Operator::Lesser) {
        Some(Operator::Lesser)
    } else if is_op(tv, p, Operator::LesserEqual) {
        Some(Operator::LesserEqual)
    } else if is_op(tv, p, Operator::NotEquals) {
        Some(Operator::NotEquals)
    } else {
        None
    }
}

/// What follows a left operand at `p`: each relation with its right side,
/// folded to the left.
pub open spec fn comparison_tail<T>(tv: Seq<TokenView<T>>, p: int, left: ExprView<T>) -> Parsed<T>
    decreases tv.len() - p, 0int,
{
    match relational_op(tv, p) {
        Some(op) => match additive_spec(tv, p + 1) {
            (Ok(right), q) => if advances(tv, p, q) {
                comparison_tail(tv, q, ExprView::BinCmp(op, Box::new(left), Box::new(right)))
            } else {
                stuck(q)
            },
            (Err(e), q) => (Err(e), q),
        },
        None => (Ok(left), p),
    }
}

/// comparison: additive expressions joined by relations.
pub open spec fn comparison_spec<T>(tv: Seq<TokenView<T>>, p: int) -> Parsed<T>
    decreases tv.len() - p, 6int,
{
    match additive_spec(tv, p) {
        (Ok(e), q) => if advances(tv, p, q) {
            comparison_tail(tv, q, e)
        } else {
            stuck(q)
        },
        (Err(e), q) => (Err(e), q),
    }
}

/// boolean atom: `true`, `false`, a negation, or a comparison.
pub open spec fn bool_spec<T>(tv: Seq<TokenView<T>>, p: int) -> Parsed<T>
    decreases tv.len() - p, 7int,
{
    if is_keyword(tv, p, Keyword::True) {
        (Ok(ExprView::Bool(true)), p + 1)
    } else if is_keyword(tv, p, Keyword::False) {
        (Ok(ExprView::Bool(false)), p + 1)
    } else if is_op(tv, p, Operator::Exclamation) {
        wrap(bool_spec(tv, p + 1), |e: ExprView<T>| ExprView::BoolNot(Box::new(e)))
    } else {
        comparison_spec(tv, p)
    }
}

/// What follows a left operand at `p`: each `or` with its operand, folded to
/// the left.
pub open spec fn or_tail<T>(tv: Seq<TokenView<T>>, p: int, left: ExprView<T>) -> Parsed<T>
    decreases tv.len() - p, 0int,
{
    if is_keyword(tv, p, Keyword::Or) {
        match bool_spec(tv, p + 1) {
            (Ok(right), q) => if advances(tv, p, q) {
                or_tail(tv, q, ExprView::BoolOp(Keyword::Or, Box::new(left), Box::new(right)))
            } else {
                stuck(q)
            },
            (Err(e), q) => (Err(e), q),
        }
    } else {
        (Ok(left), p)
    }
}

/// or: boolean atoms joined by `or`.
pub open spec fn or_spec<T>(tv: Seq<TokenView<T>>, p: int) -> Parsed<T>
    decreases tv.len() - p, 8int,
{
    match bool_spec(tv, p) {
        (Ok(e), q) => if advances(tv, p, q) {
            or_tail(tv, q, e)
        } else {
            stuck(q)
        },
        (Err(e), q) => (Err(e), q),
    }
}

/// What follows a left operand at `p`: each `and` with its operand, folded to
/// the left.
pub open spec fn and_tail<T>(tv: Seq<TokenView<T>>, p: int, left: ExprView<T>) -> Parsed<T>
    decreases tv.len() - p, 0int,
{
    if is_keyword(tv, p, Keyword::And) {
        match or_spec(tv, p + 1) {
            (Ok(right), q) => if advances(tv, p, q) {
                and_tail(tv, q, ExprView::BoolOp(Keyword::And, Box::new(left), Box::new(right)))
            } else {
                stuck(q)
            },
            (Err(e), q) => (Err(e), q),
        }
    } else {
        (Ok(left), p)
    }
}

/// and: the loosest rule, `or` expressions joined by `and`.
pub open spec fn and_spec<T>(tv: Seq<TokenView<T>>, p: int) -> Parsed<T>
    decreases tv.len() - p, 9int,
{
    match or_spec(tv, p) {
        (Ok(e), q) => if advances(tv, p, q) {
            and_tail(tv, q, e)
        } else {
            stuck(q)
        },
        (Err(e), q) => (Err(e), q),
    }
}

/// Whether a number at position `p` stands directly before an identifier.
pub open spec fn number_before_identifier<T>(tv: Seq<TokenView<T>>, p: int) -> bool {
    0 <= p && p + 1 < tv.len() && tv[p] is Number && tv[p + 1] is Identifier
}

/// The identifier that first stands directly behind a number, looking from
/// position `p` on.
pub open spec fn ambiguity_from<T>(tv: Seq<TokenView<T>>, p: int) -> Option<TokenView<T>>
    decreases tv.len() - p,
{
    if p < 0 || p + 1 >= tv.len() {
        None
    } else if number_before_identifier(tv, p) {
        Some(tv[p + 1])
    } else {
        ambiguity_from(tv, p + 1)
    }
}

/// What the check before parsing finds: a number directly followed by an
/// identifier cannot be told from a malformed token and is refused.
pub open spec fn preprocess_spec<T>(tv: Seq<TokenView<T>>) -> Option<ParserErrorView<T>> {
    match ambiguity_from(tv, 0) {
        Some(t) => Some(ParserErrorView::UnexpectedNumber(t)),
        None => None,
    }
}

/// The tree of a whole run of tokens under the grammar alone: one expression
/// from the start, and nothing left over. Tokens behind the expression are an
/// error that carries the expression and all of them.
pub open spec fn parse_no_preprocess_spec<T>(tv: Seq<TokenView<T>>) -> Result<
    ExprView<T>,
    ParserErrorView<T>,
> {
    match and_spec(tv, 0) {
        (Ok(e), q) => if 0 <= q < tv.len() {
            Err(ParserErrorView::UnexpectedToken(e, tv.subrange(q, tv.len() as int)))
        } else {
            Ok(e)
        },
        (Err(e), _) => Err(e),
    }
}

/// The tree of a whole run of tokens: the check before parsing, then the
/// grammar.
pub open spec fn parse_spec<T>(tv: Seq<TokenView<T>>) -> Result<ExprView<T>, ParserErrorView<T>> {
    match preprocess_spec(tv) {
        Some(e) => Err(e),
        None => parse_no_preprocess_spec(tv),
    }
}

/// The keyword at `p`, where it is `or`.
pub open spec fn or_keyword_at<T>(tv: Seq<TokenView<T>>, p: int) -> Option<Keyword> {
    if is_keyword(tv, p, Keyword::Or) {
        Some(Keyword::Or)
    } else {
        None
    }
}

/// The keyword at `p`, where it is `and`.
pub open spec fn and_keyword_at<T>(tv: Seq<TokenView<T>>, p: int) -> Option<Keyword> {
    if is_keyword(tv, p, Keyword::And) {
        Some(Keyword::And)
    } else {
        None
    }
}

proof fn lemma_ambiguity_found<T>(tv: Seq<TokenView<T>>, i: int, k: int)
    requires
        0 <= k <= i,
        number_before_identifier(tv, i),
        forall|j: int| 0 <= j < i ==> !number_before_identifier(tv, j),
    ensures
        ambiguity_from(tv, k) == Some(tv[i + 1]),
    decreases i - k,
{
    if k < i {
        lemma_ambiguity_found(tv, i, k + 1);
    }
}

/// Wherever a number stands directly before an identifier, parsing fails, and
/// the error names the identifier of the first such pair.
pub proof fn lemma_number_before_identifier_is_refused<T>(tv: Seq<TokenView<T>>, i: int)
    requires
        number_before_identifier(tv, i),
        forall|j: int| 0 <= j < i ==> !number_before_identifier(tv, j),
    ensures
        parse_spec(tv) == Err::<ExprView<T>, ParserErrorView<T>>(
            ParserErrorView::UnexpectedNumber(tv[i + 1]),
        ),
{
    lemma_ambiguity_found(tv, i, 0);
}

/// A number alone parses to a constant.
pub proof fn lemma_number_alone_is_constant<T>(n: T)
    ensures
        parse_spec(seq![TokenView::Number(n)]) == Ok::<ExprView<T>, ParserErrorView<T>>(
            ExprView::Constant(n),
        ),
{
    let tv = seq![TokenView::Number(n)];
    let tree = ExprView::Constant(n);
    assert(tv[0] == TokenView::Number(n));
    assert(factor_spec(tv, 0) == (Ok::<ExprView<T>, ParserErrorView<T>>(tree), 1int));
    lemma_atom_alone(tv, tree);
}

/// An identifier alone parses to a reference.
pub proof fn lemma_identifier_alone_is_reference<T>(name: Seq<char>)
    ensures
        parse_spec(seq![TokenView::<T>::Identifier(name)]) == Ok::<
            ExprView<T>,
            ParserErrorView<T>,
        >(ExprView::Identifier(name)),
{
    let tv = seq![TokenView::<T>::Identifier(name)];
    let tree = ExprView::<T>::Identifier(name);
    assert(tv[0] == TokenView::<T>::Identifier(name));
    assert(factor_spec(tv, 0) == (Ok::<ExprView<T>, ParserErrorView<T>>(tree), 1int));
    lemma_atom_alone(tv, tree);
}

/// A number directly before a parenthesised number is their product.
pub proof fn lemma_juxtaposition_multiplies<T>(a: T, b: T)
    ensures
        parse_spec(
            seq![
                TokenView::Number(a),
                TokenView::Operator(Operator::LParen),
                TokenView::Number(b),
                TokenView::Operator(Operator::RParen),
            ],
        ) == Ok::<ExprView<T>, ParserErrorView<T>>(
            ExprView::BinOp(
                Operator::Star,
                Box::new(ExprView::Constant(a)),
                Box::new(ExprView::Constant(b)),
            ),
        ),
{
    let tv = seq![
        TokenView::Number(a),
        TokenView::Operator(Operator::LParen),
        TokenView::Number(b),
        TokenView::Operator(Operator::RParen),
    ];
    let left = ExprView::Constant(a);
    let right = ExprView::Constant(b);
    let product = ExprView::BinOp(Operator::Star, Box::new(left), Box::new(right));
    let ok = |e: ExprView<T>, q: int| (Ok::<ExprView<T>, ParserErrorView<T>>(e), q);
    assert(tv[0] == TokenView::Number(a));
    assert(tv[1] == TokenView::<T>::Operator(Operator::LParen));
    assert(tv[2] == TokenView::Number(b));
    assert(tv[3] == TokenView::<T>::Operator(Operator::RParen));
    // The inside of the parentheses.
    assert(factor_spec(tv, 2) == ok(right, 3));
    assert(factorial_spec(tv, 2) == ok(right, 3));
    assert(power_tail(tv, 3, right) == ok(right, 3));
    assert(power_spec(tv, 2) == ok(right, 3));
    assert(juxtaposed_tail(tv, 3, right) == ok(right, 3));
    assert(juxtaposed_spec(tv, 2) == ok(right, 3));
    assert(multiplicative_tail(tv, 3, right) == ok(right, 3));
    assert(multiplicative_spec(tv, 2) == ok(right, 3));
    assert(additive_tail(tv, 3, right) == ok(right, 3));
    assert(additive_spec(tv, 2) == ok(right, 3));
    // The left operand and what follows it.
    assert(factor_spec(tv, 0) == ok(left, 1));
    assert(factorial_spec(tv, 0) == ok(left, 1));
    assert(power_tail(tv, 1, left) == ok(left, 1));
    assert(power_spec(tv, 0) == ok(left, 1));
    assert(peek(tv, 4) is None);
    assert(power_tail(tv, 4, right) == ok(right, 4));
    assert(juxtaposed_tail(tv, 4, product) == ok(product, 4));
    assert(juxtaposed_tail(tv, 1, left) == ok(product, 4));
    assert(juxtaposed_spec(tv, 0) == ok(product, 4));
    assert(multiplicative_tail(tv, 4, product) == ok(product, 4));
    assert(multiplicative_spec(tv, 0) == ok(product, 4));
    assert(additive_tail(tv, 4, product) == ok(product, 4));
    assert(additive_spec(tv, 0) == ok(product, 4));
    assert(comparison_tail(tv, 4, product) == ok(product, 4));
    assert(comparison_spec(tv, 0) == ok(product, 4));
    assert(bool_spec(tv, 0) == ok(product, 4));
    assert(or_tail(tv, 4, product) == ok(product, 4));
    assert(or_spec(tv, 0) == ok(product, 4));
    assert(and_tail(tv, 4, product) == ok(product, 4));
    assert(and_spec(tv, 0) == ok(product, 4));
    assert(ambiguity_from(tv, 3) is None);
    assert(ambiguity_from(tv, 2) is None);
    assert(ambiguity_from(tv, 1) is None);
    assert(ambiguity_from(tv, 0) is None);
}

/// Where no number stands directly before an identifier, parsing with the
/// check before it and parsing without give the same.
pub proof fn lemma_check_alone_differs<T>(tv: Seq<TokenView<T>>)
    requires
        preprocess_spec(tv) is None,
    ensures
        parse_no_preprocess_spec(tv) == parse_spec(tv),
{
}

/// Without the check, a number directly before an identifier is a constant
/// with the identifier left over.
pub proof fn lemma_unchecked_number_before_identifier<T>(n: T, name: Seq<char>)
    ensures
        parse_no_preprocess_spec(seq![TokenView::Number(n), TokenView::Identifier(name)]) == Err::<
            ExprView<T>,
            ParserErrorView<T>,
        >(
            ParserErrorView::UnexpectedToken(
                ExprView::Constant(n),
                seq![TokenView::Identifier(name)],
            ),
        ),
{
    let tv = seq![TokenView::Number(n), TokenView::Identifier(name)];
    let tree = ExprView::Constant(n);
    let done = (Ok::<ExprView<T>, ParserErrorView<T>>(tree), 1int);
    assert(tv[0] == TokenView::Number(n));
    assert(tv[1] == TokenView::<T>::Identifier(name));
    assert(factor_spec(tv, 0) == done);
    assert(factorial_spec(tv, 0) == done);
    assert(power_tail(tv, 1, tree) == done);
    assert(power_spec(tv, 0) == done);
    assert(juxtaposed_tail(tv, 1, tree) == done);
    assert(juxtaposed_spec(tv, 0) == done);
    assert(multiplicative_tail(tv, 1, tree) == done);
    assert(multiplicative_spec(tv, 0) == done);
    assert(additive_tail(tv, 1, tree) == done);
    assert(additive_spec(tv, 0) == done);
    assert(comparison_tail(tv, 1, tree) == done);
    assert(comparison_spec(tv, 0) == done);
    assert(bool_spec(tv, 0) == done);
    assert(or_tail(tv, 1, tree) == done);
    assert(or_spec(tv, 0) == done);
    assert(and_tail(tv, 1, tree) == done);
    assert(and_spec(tv, 0) == done);
    assert(tv.subrange(1, 2) =~= seq![TokenView::Identifier(name)]);
}

/// An opening parenthesis with nothing behind it lacks a factor: the first
/// error met is the one reported.
pub proof fn lemma_open_parenthesis_alone<T>()
    ensures
        parse_spec(seq![TokenView::<T>::Operator(Operator::LParen)]) == Err::<
            ExprView<T>,
            ParserErrorView<T>,
        >(ParserErrorView::ExpectedFactor(None)),
{
    let tv = seq![TokenView::<T>::Operator(Operator::LParen)];
    let failed = (
        Err::<ExprView<T>, ParserErrorView<T>>(ParserErrorView::ExpectedFactor(None)),
        1int,
    );
    assert(tv[0] == TokenView::<T>::Operator(Operator::LParen));
    assert(peek(tv, 1) is None);
    assert(factor_spec(tv, 1) == failed);
    assert(factorial_spec(tv, 1) == failed);
    assert(power_spec(tv, 1) == failed);
    assert(juxtaposed_spec(tv, 1) == failed);
    assert(multiplicative_spec(tv, 1) == failed);
    assert(additive_spec(tv, 1) == failed);
    assert(factor_spec(tv, 0) == failed);
    assert(factorial_spec(tv, 0) == failed);
    assert(power_spec(tv, 0) == failed);
    assert(juxtaposed_spec(tv, 0) == failed);
    assert(multiplicative_spec(tv, 0) == failed);
    assert(additive_spec(tv, 0) == failed);
    assert(comparison_spec(tv, 0) == failed);
    assert(bool_spec(tv, 0) == failed);
    assert(or_spec(tv, 0) == failed);
    assert(and_spec(tv, 0) == failed);
    assert(ambiguity_from(tv, 0) is None);
}

proof fn lemma_atom_alone<T>(tv: Seq<TokenView<T>>, tree: ExprView<T>)
    requires
        tv.len() == 1,
        !(tv[0] is Keyword),
        !(tv[0] is Operator),
        factor_spec(tv, 0) == (Ok::<ExprView<T>, ParserErrorView<T>>(tree), 1int),
    ensures
        parse_spec(tv) == Ok::<ExprView<T>, ParserErrorView<T>>(tree),
{
    let done = (Ok::<ExprView<T>, ParserErrorView<T>>(tree), 1int);
    assert(peek(tv, 1) is None);
    assert(factorial_spec(tv, 0) == done);
    assert(power_tail(tv, 1, tree) == done);
    assert(power_spec(tv, 0) == done);
    assert(juxtaposed_tail(tv, 1, tree) == done);
    assert(juxtaposed_spec(tv, 0) == done);
    assert(multiplicative_tail(tv, 1, tree) == done);
    assert(multiplicative_spec(tv, 0) == done);
    assert(additive_tail(tv, 1, tree) == done);
    assert(additive_spec(tv, 0) == done);
    assert(comparison_tail(tv, 1, tree) == done);
    assert(comparison_spec(tv, 0) == done);
    assert(bool_spec(tv, 0) == done);
    assert(or_tail(tv, 1, tree) == done);
    assert(or_spec(tv, 0) == done);
    assert(and_tail(tv, 1, tree) == done);
    assert(and_spec(tv, 0) == done);
    assert(ambiguity_from(tv, 0) is None);
}

/// Whether a rule that started at `p` stopped inside the input, behind `p`
/// if it succeeded.
pub open spec fn takes_tokens<T>(tv: Seq<TokenView<T>>, p: int, r: Parsed<T>) -> bool {
    p <= r.1 <= tv.len() && (r.0 is Ok ==> p < r.1)
}

proof fn lemma_factor_advances<T>(tv: Seq<TokenView<T>>, p: int)
    requires
        0 <= p <= tv.len(),
    ensures
        takes_tokens(tv, p, factor_spec(tv, p)),
    decreases tv.len() - p, 0int,
{
    if p < tv.len() {
        lemma_additive_advances(tv, p + 1);
        lemma_factor_advances(tv, p + 1);
        if p + 1 < tv.len() {
            lemma_additive_advances(tv, p + 2);
        }
    }
}

proof fn lemma_factorial_advances<T>(tv: Seq<TokenView<T>>, p: int)
    requires
        0 <= p <= tv.len(),
    ensures
        takes_tokens(tv, p, factorial_spec(tv, p)),
    decreases tv.len() - p, 1int,
{
    lemma_factor_advances(tv, p);
}

proof fn lemma_power_tail_stays<T>(tv: Seq<TokenView<T>>, p: int, base: ExprView<T>)
    requires
        0 <= p <= tv.len(),
    ensures
        p <= power_tail(tv, p, base).1 <= tv.len(),
    decreases tv.len() - p, 0int,
{
    if is_op(tv, p, Operator::Caret) {
        lemma_factorial_advances(tv, p + 1);
        match factorial_spec(tv, p + 1) {
            (Ok(e), q) => {
                lemma_power_tail_stays(tv, q, ExprView::Pow(Box::new(base), Box::new(e)));
            },
            _ => {},
        }
    }
}

proof fn lemma_power_advances<T>(tv: Seq<TokenView<T>>, p: int)
    requires
        0 <= p <= tv.len(),
    ensures
        takes_tokens(tv, p, power_spec(tv, p)),
    decreases tv.len() - p, 2int,
{
    lemma_factorial_advances(tv, p);
    match factorial_spec(tv, p) {
        (Ok(e), q) => {
            lemma_power_tail_stays(tv, q, e);
        },
        _ => {},
    }
}

proof fn lemma_juxtaposed_tail_stays<T>(tv: Seq<TokenView<T>>, p: int, left: ExprView<T>)
    requires
        0 <= p <= tv.len(),
    ensures
        p <= juxtaposed_tail(tv, p, left).1 <= tv.len(),
    decreases tv.len() - p, 1int,
{
    if is_op(tv, p, Operator::LParen) {
        lemma_additive_advances(tv, p + 1);
        match additive_spec(tv, p + 1) {
            (Ok(inner), q) => {
                if is_op(tv, q, Operator::RParen) {
                    lemma_power_tail_stays(tv, q + 1, inner);
                    match power_tail(tv, q + 1, inner) {
                        (Ok(right), q2) => {
                            lemma_juxtaposed_tail_stays(
                                tv,
                                q2,
                                ExprView::BinOp(Operator::Star, Box::new(left), Box::new(right)),
                            );
                        },
                        _ => {},
                    }
                }
            },
            _ => {},
        }
    }
}

proof fn lemma_juxtaposed_advances<T>(tv: Seq<TokenView<T>>, p: int)
    requires
        0 <= p <= tv.len(),
    ensures
        takes_tokens(tv, p, juxtaposed_spec(tv, p)),
    decreases tv.len() - p, 3int,
{
    lemma_power_advances(tv, p);
    match power_spec(tv, p) {
        (Ok(e), q) => {
            lemma_juxtaposed_tail_stays(tv, q, e);
        },
        _ => {},
    }
}

proof fn lemma_multiplicative_tail_stays<T>(tv: Seq<TokenView<T>>, p: int, left: ExprView<T>)
    requires
        0 <= p <= tv.len(),
    ensures
        p <= multiplicative_tail(tv, p, left).1 <= tv.len(),
    decreases tv.len() - p, 0int,
{
    if multiplicative_op(tv, p) is Some {
        let op = multiplicative_op(tv, p)->Some_0;
        lemma_juxtaposed_advances(tv, p + 1);
        match juxtaposed_spec(tv, p + 1) {
            (Ok(right), q) => {
                lemma_multiplicative_tail_stays(tv, q, ExprView::BinOp(op, Box::new(left), Box::new(right)));
            },
            _ => {},
        }
    }
}

proof fn lemma_multiplicative_advances<T>(tv: Seq<TokenView<T>>, p: int)
    requires
        0 <= p <= tv.len(),
    ensures
        takes_tokens(tv, p, multiplicative_spec(tv, p)),
    decreases tv.len() - p, 4int,
{
    lemma_juxtaposed_advances(tv, p);
    match juxtaposed_spec(tv, p) {
        (Ok(e), q) => {
            lemma_multiplicative_tail_stays(tv, q, e);
        },
        _ => {},
    }
}

proof fn lemma_additive_tail_stays<T>(tv: Seq<TokenView<T>>, p: int, left: ExprView<T>)
    requires
        0 <= p <= tv.len(),
    ensures
        p <= additive_tail(tv, p, left).1 <= tv.len(),
    decreases tv.len() - p, 0int,
{
    if additive_op(tv, p) is Some {
        let op = additive_op(tv, p)->Some_0;
        lemma_multiplicative_advances(tv, p + 1);
        match multiplicative_spec(tv, p + 1) {
            (Ok(right), q) => {
                lemma_additive_tail_stays(tv, q, ExprView::BinOp(op, Box::new(left), Box::new(right)));
            },
            _ => {},
        }
    }
}

proof fn lemma_additive_advances<T>(tv: Seq<TokenView<T>>, p: int)
    requires
        0 <= p <= tv.len(),
    ensures
        takes_tokens(tv, p, additive_spec(tv, p)),
    decreases tv.len() - p, 5int,
{
    lemma_multiplicative_advances(tv, p);
    match multiplicative_spec(tv, p) {
        (Ok(e), q) => {
            lemma_additive_tail_stays(tv, q, e);
        },
        _ => {},
    }
}

proof fn lemma_comparison_tail_stays<T>(tv: Seq<TokenView<T>>, p: int, left: ExprView<T>)
    requires
        0 <= p <= tv.len(),
    ensures
        p <= comparison_tail(tv, p, left).1 <= tv.len(),
    decreases tv.len() - p, 0int,
{
    if relational_op(tv, p) is Some {
        let op = relational_op(tv, p)->Some_0;
        lemma_additive_advances(tv, p + 1);
        match additive_spec(tv, p + 1) {
            (Ok(right), q) => {
                lemma_comparison_tail_stays(tv, q, ExprView::BinCmp(op, Box::new(left), Box::new(right)));
            },
            _ => {},
        }
    }
}

proof fn lemma_comparison_advances<T>(tv: Seq<TokenView<T>>, p: int)
    requires
        0 <= p <= tv.len(),
    ensures
        takes_tokens(tv, p, comparison_spec(tv, p)),
    decreases tv.len() - p, 6int,
{
    lemma_additive_advances(tv, p);
    match additive_spec(tv, p) {
        (Ok(e), q) => {
            lemma_comparison_tail_stays(tv, q, e);
        },
        _ => {},
    }
}

proof fn lemma_bool_advances<T>(tv: Seq<TokenView<T>>, p: int)
    requires
        0 <= p <= tv.len(),
    ensures
        takes_tokens(tv, p, bool_spec(tv, p)),
    decreases tv.len() - p, 7int,
{
    if is_keyword(tv, p, Keyword::True) || is_keyword(tv, p, Keyword::False) {
    } else if is_op(tv, p, Operator::Exclamation) {
        lemma_bool_advances(tv, p + 1);
    } else {
        lemma_comparison_advances(tv, p);
    }
}

proof fn lemma_or_tail_stays<T>(tv: Seq<TokenView<T>>, p: int, left: ExprView<T>)
    requires
        0 <= p <= tv.len(),
    ensures
        p <= or_tail(tv, p, left).1 <= tv.len(),
    decreases tv.len() - p, 0int,
{
    if is_keyword(tv, p, Keyword::Or) {
        lemma_bool_advances(tv, p + 1);
        match bool_spec(tv, p + 1) {
            (Ok(right), q) => {
                lemma_or_tail_stays(tv, q, ExprView::BoolOp(Keyword::Or, Box::new(left), Box::new(right)));
            },
            _ => {},
        }
    }
}

proof fn lemma_or_advances<T>(tv: Seq<TokenView<T>>, p: int)
    requires
        0 <= p <= tv.len(),
    ensures
        takes_tokens(tv, p, or_spec(tv, p)),
    decreases tv.len() - p, 8int,
{
    lemma_bool_advances(tv, p);
    match bool_spec(tv, p) {
        (Ok(e), q) => {
            lemma_or_tail_stays(tv, q, e);
        },
        _ => {},
    }
}

proof fn lemma_and_tail_stays<T>(tv: Seq<TokenView<T>>, p: int, left: ExprView<T>)
    requires
        0 <= p <= tv.len(),
    ensures
        p <= and_tail(tv, p, left).1 <= tv.len(),
    decreases tv.len() - p, 0int,
{
    if is_keyword(tv, p, Keyword::And) {
        lemma_or_advances(tv, p + 1);
        match or_spec(tv, p + 1) {
            (Ok(right), q) => {
                lemma_and_tail_stays(tv, q, ExprView::BoolOp(Keyword::And, Box::new(left), Box::new(right)));
            },
            _ => {},
        }
    }
}

proof fn lemma_and_advances<T>(tv: Seq<TokenView<T>>, p: int)
    requires
        0 <= p <= tv.len(),
    ensures
        takes_tokens(tv, p, and_spec(tv, p)),
    decreases tv.len() - p, 9int,
{
    lemma_or_advances(tv, p);
    match or_spec(tv, p) {
        (Ok(e), q) => {
            lemma_and_tail_stays(tv, q, e);
        },
        _ => {},
    }
}

/// Every rule of the grammar stops inside the input, and behind where it
/// started if it succeeded. So the grammar never asks in vain whether a rule
/// advanced: the answer is always yes.
pub proof fn lemma_rules_advance<T>(tv: Seq<TokenView<T>>, p: int)
    requires
        0 <= p <= tv.len(),
    ensures
        takes_tokens(tv, p, factor_spec(tv, p)),
        takes_tokens(tv, p, factorial_spec(tv, p)),
        takes_tokens(tv, p, power_spec(tv, p)),
        takes_tokens(tv, p, juxtaposed_spec(tv, p)),
        takes_tokens(tv, p, multiplicative_spec(tv, p)),
        takes_tokens(tv, p, additive_spec(tv, p)),
        takes_tokens(tv, p, comparison_spec(tv, p)),
        takes_tokens(tv, p, bool_spec(tv, p)),
        takes_tokens(tv, p, or_spec(tv, p)),
        takes_tokens(tv, p, and_spec(tv, p)),
{
    lemma_factor_advances(tv, p);
    lemma_factorial_advances(tv, p);
    lemma_power_advances(tv, p);
    lemma_juxtaposed_advances(tv, p);
    lemma_multiplicative_advances(tv, p);
    lemma_additive_advances(tv, p);
    lemma_comparison_advances(tv, p);
    lemma_bool_advances(tv, p);
    lemma_or_advances(tv, p);
    lemma_and_advances(tv, p);
}

} // verus!
